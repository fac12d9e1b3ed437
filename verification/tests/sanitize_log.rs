use mdsite::log::ansi_to_html;
use mdsite::markdown::escape_href_text;
use mdsite::markdown::escape_html_attr;
use mdsite::markdown::escape_html_body;
use mdsite::sanitize::collect_closing_tags;
use mdsite::sanitize::percent_encode;
use mdsite::sanitize::sanitize_body_text;
use mdsite::sanitize::sanitize_html;
use mdsite::sanitize::sanitize_html_to_text;
use mdsite::sanitize::sanitize_html_trusted;
use mdsite::sanitize::sanitize_link;
use mdsite::sanitize::sanitize_text;

#[test]
fn body_text_escapes_the_html_significant_characters() {
    assert_eq!(sanitize_body_text("<a href=\"x\">&'"), "&lt;a href=&quot;x&quot;&gt;&amp;&apos;");
    assert_eq!(sanitize_body_text("plain"), "plain");
    assert_eq!(sanitize_body_text("\0"), "&#65533;");
}

#[test]
fn text_cleaner_matches_its_source() {
    assert_eq!(sanitize_text("a<b>=c d/e"), "a&lt;b&gt;&#61;c&#32;d&#47;e");
    assert_eq!(sanitize_text(""), "");
}

#[test]
fn percent_encoding_escapes_the_unsafe_set() {
    assert_eq!(percent_encode("a b"), "a%20b");
    assert_eq!(percent_encode("<x>"), "%3Cx%3E");
    assert_eq!(percent_encode("safe-chars_1/2?q=3"), "safe-chars_1/2?q=3");
    assert_eq!(percent_encode("\u{7f}"), "%7F");
    assert_eq!(percent_encode("\n"), "%0A");
}

#[test]
fn html_cleaner_strips_scripts_but_keeps_allowed_tags() {
    let cleaned = sanitize_html("<script>alert(1)</script><i part=\"x\">hi</i>");
    assert_eq!(cleaned, "<i part=\"x\">hi</i>");
}

#[test]
fn html_to_text_removes_all_markup() {
    assert_eq!(sanitize_html_to_text("<b>bold</b> and <i>italic</i>"), "bold and italic");
}

#[test]
fn closing_tags_are_collected_in_order() {
    assert_eq!(collect_closing_tags("<div><a>x</a>y</div>"), vec!["a", "div"]);
    assert_eq!(collect_closing_tags("no tags here"), Vec::<String>::new());
}

#[test]
fn trusting_cleaner_keeps_tags_the_document_closes() {
    let cleaned = sanitize_html_trusted("<script>let x = 1;</script><p>t</p>");
    assert!(cleaned.contains("<script>"), "kept script: {cleaned}");
    assert!(cleaned.contains("let x = 1;"));
}

#[test]
fn valid_http_links_are_normalised() {
    assert_eq!(sanitize_link("HTTP://EXAMPLE.COM"), "http://example.com/");
    assert_eq!(sanitize_link("https://example.com/a%20b"), "https://example.com/a%20b");
}

#[test]
fn invalid_links_become_a_data_url_error_page() {
    let got = sanitize_link("x y");
    let expected = percent_encode(&format!(
        "data:text/html;charset=utf8,<h1>Invalid link: <code>{}</code></h1>",
        sanitize_text("x y")
    ));
    assert_eq!(got, expected);
    assert!(got.starts_with("data:text/html;charset=utf8,%3Ch1%3E"));
}

#[test]
fn non_http_schemes_are_rejected() {
    let got = sanitize_link("javascript:alert(1)");
    assert!(got.starts_with("data:text/html;charset=utf8,"), "got: {got}");
}

#[test]
fn plain_log_lines_pass_through() {
    assert_eq!(ansi_to_html("hello world"), "hello world");
}

#[test]
fn ansi_sequences_become_spans() {
    let out = ansi_to_html("\u{1b}[32mgreen\u{1b}[0m plain");
    assert_eq!(out, "<span class='ansi-32m'>green</span> plain");
}

#[test]
fn unclosed_spans_are_closed_at_the_end() {
    let out = ansi_to_html("\u{1b}[1m\u{1b}[4mboth");
    assert_eq!(out, "<span class='ansi-1m'><span class='ansi-4m'>both</span></span>");
}

#[test]
fn malformed_ansi_introducer_passes_through() {
    let out = ansi_to_html("a\u{1b}[");
    assert_eq!(out, "a\u{1b}[");
}

#[test]
fn attribute_and_body_escapes() {
    assert_eq!(escape_html_attr("a<b>\"c\"&'d'"), "a&lt;b&gt;&quot;c&quot;&amp;&#39;d&#39;");
    assert_eq!(escape_html_body("a<b>\"c\"&'d'"), "a&lt;b&gt;\"c\"&amp;'d'");
}

#[test]
fn href_escapes_follow_the_safe_set() {
    assert_eq!(escape_href_text("https://x/a?b=c"), "https://x/a?b=c");
    assert_eq!(escape_href_text("a b&c'd"), "a%20b&amp;c&#x27;d");
    assert_eq!(escape_href_text("<`>"), "%3C%60%3E");
    // non-ASCII characters are escaped byte by byte
    assert_eq!(escape_href_text("\u{e9}"), "%C3%A9");
}

#[test]
fn ansi_parameters_and_intermediates_join_the_class() {
    assert_eq!(
        ansi_to_html("\u{1b}[1;31mred\u{1b}[0m"),
        "<span class='ansi-1;31m'>red</span>"
    );
    // an intermediate byte keeps the sequence from being a reset
    assert_eq!(ansi_to_html("\u{1b}[0 mx"), "<span class='ansi-0 m'>x</span>");
}

#[test]
fn nested_resets_close_every_open_span() {
    let out = ansi_to_html("\u{1b}[1m\u{1b}[4mdeep\u{1b}[0mflat");
    assert_eq!(out, "<span class='ansi-1m'><span class='ansi-4m'>deep</span></span>flat");
}
