use mdsite::embed::Icon;
use mdsite::embed::IconKind;
use mdsite::embed::Info;
use mdsite::embed::EmbedState;
use mdsite::embed::OpenGraph;
use mdsite::embed::icon_kind_for_rel;
use mdsite::embed::is_feed_type;
use mdsite::embed::normalize_whitespace_text;
use mdsite::embed::parse_u32;
use mdsite::markdown::AlertKind;
use mdsite::markdown::BrokenLinkKind;
use mdsite::markdown::ColumnAlignment;
use mdsite::markdown::FootnoteNumbers;
use mdsite::markdown::blockquote_class;
use mdsite::markdown::table_cell_alignment;
use mdsite::markdown::HeadingAnchorMode;
use mdsite::markdown::Options;
use mdsite::markdown::heading_slug;
use mdsite::markdown::resolve_broken_link;
use mdsite::markdown::resolve_href;
use mdsite::markdown::rewrite_shortcut_link;
use mdsite::supervisor::SupervisorAction;
use mdsite::supervisor::SupervisorEvent;
use mdsite::supervisor::main_loop_action;
use mdsite::supervisor::shutdown_loop_action;
use mdsite::supervisor::task_exit_message;
use mdsite::template::CivilDateTime;
use mdsite::template::DateFmt;
use mdsite::template::DurationFmt;
use mdsite::template::format_age;
use mdsite::template::format_date;
use mdsite::template::plural;
use mdsite::template::short_month;

#[test]
fn opengraph_properties_accumulate() {
    let mut og = OpenGraph::new();
    og.process_prop("type", "article");
    og.process_prop("site_name", "Example");
    og.process_prop("site_name", "Example 2");
    og.process_prop("image", "https://example.com/a.png");
    og.process_prop("image:width", "640");
    og.process_prop("image:url", "https://example.com/b.png");
    og.process_prop("video:tag", "demo");

    assert_eq!(og.type_.as_deref(), Some("article"));
    assert_eq!(
        og.properties,
        vec![("site_name".to_string(), "Example 2".to_string())]
    );
    assert_eq!(og.objects.len(), 2);
    let (image_key, images) = &og.objects[0];
    assert_eq!(image_key, "image");
    assert_eq!(images.len(), 1);
    assert_eq!(images[0].url.as_deref(), Some("https://example.com/b.png"));
    assert_eq!(images[0].properties, vec![("width".to_string(), "640".to_string())]);
    let (video_key, videos) = &og.objects[1];
    assert_eq!(video_key, "video");
    assert_eq!(videos.len(), 1);
    assert_eq!(videos[0].url, None);
    assert_eq!(videos[0].properties, vec![("tag".to_string(), "demo".to_string())]);
}

fn icon(kind: IconKind, size: Option<&str>, type_: Option<&str>) -> Icon {
    Icon {
        kind,
        url: "u".to_string(),
        size: size.map(|s| s.to_string()),
        type_: type_.map(|s| s.to_string()),
    }
}

fn info_with_icons(icons: Vec<Icon>) -> Info {
    Info {
        state: EmbedState::Normal,
        base_url: String::new(),
        url: String::new(),
        site: String::new(),
        lang: None,
        title: None,
        description: None,
        opengraph: OpenGraph::new(),
        meta: Vec::new(),
        feeds: Vec::new(),
        icons,
        cached_icon: None,
        links: Vec::new(),
    }
}

#[test]
fn best_icon_prefers_svg_in_range_late_icons() {
    let info = info_with_icons(vec![
        icon(IconKind::Favicon, Some("16x16"), None),
        icon(IconKind::TouchIcon, None, None),
        icon(IconKind::MaskIcon, Some("64x64"), None),
        icon(IconKind::Favicon, Some("32x32"), Some("image/svg+xml")),
    ]);
    let best = info.best_icon(32, 16..64).unwrap();
    assert_eq!(best.size.as_deref(), Some("32x32"));
}

#[test]
fn best_icon_honours_the_cache_and_empty_lists() {
    let mut info = info_with_icons(Vec::new());
    assert!(info.best_icon(32, 16..64).is_none());
    info.cached_icon = Some(icon(IconKind::MaskIcon, None, None));
    let best = info.best_icon(32, 16..64).unwrap();
    assert!(matches!(best.kind, IconKind::MaskIcon));
}

#[test]
fn size_parsing_accepts_digits_and_rejects_the_rest() {
    assert_eq!(parse_u32("32"), Some(32));
    assert_eq!(parse_u32("+7"), Some(7));
    assert_eq!(parse_u32(""), None);
    assert_eq!(parse_u32("a1"), None);
    assert_eq!(parse_u32("4294967295"), Some(u32::MAX));
    assert_eq!(parse_u32("4294967296"), None);
}

#[test]
fn rel_and_type_classification() {
    assert_eq!(icon_kind_for_rel("icon"), Some(IconKind::Favicon));
    assert_eq!(icon_kind_for_rel("shortcut icon"), Some(IconKind::Favicon));
    assert_eq!(icon_kind_for_rel("mask-icon"), Some(IconKind::MaskIcon));
    assert_eq!(icon_kind_for_rel("apple-touch-icon"), Some(IconKind::TouchIcon));
    assert_eq!(icon_kind_for_rel("stylesheet"), None);
    assert!(is_feed_type("application/rss+xml"));
    assert!(!is_feed_type("text/html"));
}

#[test]
fn whitespace_normalisation_merges_runs_and_trims() {
    let segs = vec!["  a \t b ".to_string(), "  c\n".to_string()];
    assert_eq!(normalize_whitespace_text(&segs, None), "a b c");
    let long = vec!["abcdef".to_string()];
    assert_eq!(normalize_whitespace_text(&long, Some(3)), "abc");
    let empty: Vec<String> = Vec::new();
    assert_eq!(normalize_whitespace_text(&empty, Some(10)), "");
}

#[test]
fn blank_icon_is_an_inline_svg_favicon() {
    let b = Icon::blank();
    assert!(matches!(b.kind, IconKind::Favicon));
    assert!(b.url.starts_with("data:image/svg+xml,"));
    assert!(b.size.is_none() && b.type_.is_none());
}

#[test]
fn hrefs_resolve_against_the_base() {
    assert_eq!(resolve_href(None, "page"), "page");
    assert_eq!(resolve_href(Some("https://b/"), "/abs"), "/abs");
    assert_eq!(resolve_href(Some("https://b/"), "#frag"), "#frag");
    assert_eq!(resolve_href(Some("https://b/"), "http://x/y"), "http://x/y");
    assert_eq!(resolve_href(Some("https://b/"), "a page"), "https://b/a%20page");
}

#[test]
fn shortcut_links_unpack() {
    assert_eq!(
        rewrite_shortcut_link("##label##https://x"),
        Some(("label".to_string(), "https://x".to_string()))
    );
    assert_eq!(rewrite_shortcut_link("##no-terminator"), None);
    assert_eq!(rewrite_shortcut_link("plain"), None);
}

#[test]
fn broken_links_recover_wiki_and_rust_references() {
    assert_eq!(
        resolve_broken_link(BrokenLinkKind::Reference, Some('['), Some(']'), "Page"),
        Some(("Page".to_string(), "Page".to_string()))
    );
    assert_eq!(
        resolve_broken_link(BrokenLinkKind::Shortcut, None, None, "rust:serde"),
        Some((
            "##serde##https://docs.rs/serde?go_to_first=true".to_string(),
            "serde".to_string()
        ))
    );
    assert_eq!(
        resolve_broken_link(BrokenLinkKind::Reference, None, None, "rust:serde"),
        Some(("https://docs.rs/serde?go_to_first=true".to_string(), "serde".to_string()))
    );
    assert_eq!(resolve_broken_link(BrokenLinkKind::Other, Some('['), Some(']'), "x"), None);
    assert_eq!(resolve_broken_link(BrokenLinkKind::Collapsed, None, None, "x"), None);
}

#[test]
fn heading_slugs_lowercase_and_dash() {
    assert_eq!(heading_slug("Hello World"), "hello-world");
    assert_eq!(heading_slug("MiXeD\tCase"), "mixed-case");
}

#[test]
fn default_options_render_plainly() {
    let o = Options::default();
    assert!(!o.soft_breaks_as_hard && !o.heading_generate_ids && !o.embeds);
    assert!(matches!(o.heading_anchor_links, HeadingAnchorMode::NoAnchor));
    assert!(o.base_url.is_none());
}

#[test]
fn months_and_plurals() {
    assert_eq!(short_month(1), "Jan");
    assert_eq!(short_month(12), "Dec");
    assert_eq!(plural(1), "");
    assert_eq!(plural(2), "s");
    assert_eq!(plural(0), "s");
}

fn date() -> CivilDateTime {
    CivilDateTime { year: 2024, month: 3, day: 7, hour: 9, minute: 5 }
}

#[test]
fn dates_render_with_year_only_when_it_differs() {
    assert_eq!(format_date(&date(), 2024, DateFmt::Short), "Mar 07, 09:05");
    assert_eq!(format_date(&date(), 2025, DateFmt::Short), "Mar 07 2024, 09:05");
    assert_eq!(format_date(&date(), 2024, DateFmt::Shorter), "Mar 07");
    assert_eq!(format_date(&date(), 2025, DateFmt::Shorter), "Mar 07 2024");
}

#[test]
fn ages_pick_the_largest_unit() {
    let wk = 604800000i64;
    let day = 86400000i64;
    assert_eq!(format_age(2 * wk, &date(), 2024, DurationFmt::Shorter), "2w ago");
    assert_eq!(format_age(3 * day, &date(), 2024, DurationFmt::Shorter), "3d ago");
    assert_eq!(format_age(2 * 3600000, &date(), 2024, DurationFmt::Shorter), "2h ago");
    assert_eq!(format_age(60000, &date(), 2024, DurationFmt::Shorter), "1m ago");
    assert_eq!(format_age(1500, &date(), 2024, DurationFmt::Shorter), "2s ago");
    // over a month falls back to the date itself
    assert_eq!(format_age(40 * day, &date(), 2025, DurationFmt::Shorter), "Mar 07 2024");
}

#[test]
fn ages_spell_units_out_in_short_form() {
    let wk = 604800000i64;
    assert_eq!(format_age(2 * wk, &date(), 2024, DurationFmt::Short), "2 weeks ago");
    assert_eq!(format_age(60000, &date(), 2024, DurationFmt::Short), "1 min ago");
    assert_eq!(format_age(0, &date(), 2024, DurationFmt::Short), "0 secs ago");
}

#[test]
fn long_ages_combine_units() {
    let ms = 86400000 + 3600000 + 60000; // one day, one hour, one minute
    assert_eq!(format_age(ms, &date(), 2024, DurationFmt::Long), "1 day 1 hour 1 minute ago");
    assert_eq!(format_age(500, &date(), 2024, DurationFmt::Long), "0.500 seconds ago");
    assert_eq!(format_age(0, &date(), 2024, DurationFmt::Long), "0.000 seconds ago");
    assert_eq!(format_age(61000, &date(), 2024, DurationFmt::Long), "1 minute 1.000 seconds ago");
}

#[test]
fn supervisor_decisions() {
    let (a, m) = main_loop_action(SupervisorEvent::Hangup);
    assert_eq!(a, SupervisorAction::Reload);
    assert_eq!(m, "Received SIGHUP");
    let (a, _) = main_loop_action(SupervisorEvent::Interrupt);
    assert_eq!(a, SupervisorAction::Exit);
    let (a, _) = main_loop_action(SupervisorEvent::TaskFinished);
    assert_eq!(a, SupervisorAction::Exit);
    let (a, m) = shutdown_loop_action(SupervisorEvent::Terminate);
    assert_eq!(a, SupervisorAction::Exit);
    assert_eq!(m, "Received second SIGTERM");
    let (a, _) = shutdown_loop_action(SupervisorEvent::TaskFinished);
    assert_eq!(a, SupervisorAction::Continue);
}

#[test]
fn task_exit_messages() {
    assert_eq!(task_exit_message(Some(Ok("web"))), ("task web exited".to_string(), false));
    assert_eq!(
        task_exit_message(Some(Err("boom"))),
        ("task exited with failure: boom".to_string(), true)
    );
    assert_eq!(task_exit_message(None), ("remaining tasks list is empty?".to_string(), true));
}

#[test]
fn blockquote_classes_match_their_flavour() {
    assert_eq!(blockquote_class(None), "");
    assert_eq!(blockquote_class(Some(AlertKind::Note)), " class=\"markdown-alert-note\"");
    assert_eq!(blockquote_class(Some(AlertKind::Caution)), " class=\"markdown-alert-caution\"");
}

#[test]
fn table_cells_carry_their_alignment() {
    assert_eq!(table_cell_alignment(None), ">");
    assert_eq!(table_cell_alignment(Some(ColumnAlignment::Unspecified)), ">");
    assert_eq!(table_cell_alignment(Some(ColumnAlignment::Left)), " style=\"text-align: left\">");
    assert_eq!(table_cell_alignment(Some(ColumnAlignment::Right)), " style=\"text-align: right\">");
}

#[test]
fn footnote_numbers_stick_to_their_names() {
    let mut numbers = FootnoteNumbers::new();
    assert_eq!(numbers.number_for("a"), 1);
    assert_eq!(numbers.number_for("b"), 2);
    assert_eq!(numbers.number_for("a"), 1);
    assert_eq!(numbers.number_for("c"), 3);
    assert_eq!(numbers.number_for("b"), 2);
}
