//! HTML and URL sanitisation.
//!
//! The character-level escapes are implemented and verified here; the
//! whole-document cleaners delegate to an HTML sanitiser behind trusted
//! wrappers, with the allow-lists built as ordinary verified data.

use vstd::prelude::*;

use crate::text::char_index;
use crate::text::find_char;
use crate::text::find_substring;
use crate::text::lemma_char_index;
use crate::text::lemma_substring_index;
use crate::text::pair_views;
use crate::text::push_char;
use crate::text::substring_index;

verus! {

broadcast use vstd::string::group_string_axioms;

/// Replacement for one character of body text: the five HTML-significant
/// characters and NUL are escaped, everything else passes through.
pub open spec fn body_text_escape(c: char) -> Seq<char> {
    if c == '<' {
        seq!['&', 'l', 't', ';']
    } else if c == '>' {
        seq!['&', 'g', 't', ';']
    } else if c == '"' {
        seq!['&', 'q', 'u', 'o', 't', ';']
    } else if c == '\'' {
        seq!['&', 'a', 'p', 'o', 's', ';']
    } else if c == '&' {
        seq!['&', 'a', 'm', 'p', ';']
    } else if c == '\0' {
        seq!['&', '#', '6', '5', '5', '3', '3', ';']
    } else {
        seq![c]
    }
}

/// `s` with every character escaped by [`body_text_escape`].
pub open spec fn body_text_escaped(s: Seq<char>) -> Seq<char>
    decreases s.len(),
{
    if s.len() == 0 {
        Seq::empty()
    } else {
        body_text_escaped(s.drop_last()) + body_text_escape(s.last())
    }
}

/// Escape text for any HTML position other than an unquoted attribute.
pub fn sanitize_body_text(text: &str) -> (r: String)
    ensures
        r@ == body_text_escaped(text@),
{
    let n = text.unicode_len();
    let mut out = String::new();
    let mut i: usize = 0;
    while i < n
        invariant
            n == text@.len(),
            i <= n,
            out@ == body_text_escaped(text@.subrange(0, i as int)),
        decreases n - i,
    {
        let c = text.get_char(i);
        let ghost pre = out@;
        match c {
            '<' => out.append("&lt;"),
            '>' => out.append("&gt;"),
            '"' => out.append("&quot;"),
            '\'' => out.append("&apos;"),
            '&' => out.append("&amp;"),
            '\0' => out.append("&#65533;"),
            _ => push_char(&mut out, c),
        }
        proof {
            reveal_strlit("&lt;");
            reveal_strlit("&gt;");
            reveal_strlit("&quot;");
            reveal_strlit("&apos;");
            reveal_strlit("&amp;");
            reveal_strlit("&#65533;");
            assert(out@ =~= pre + body_text_escape(c));
            assert(text@.subrange(0, i + 1).drop_last() =~= text@.subrange(0, i as int));
            assert(text@.subrange(0, i + 1).last() == c);
        }
        i = i + 1;
    }
    proof {
        assert(text@.subrange(0, n as int) =~= text@);
    }
    out
}

/// The uppercase hexadecimal digit for `n` (for `n < 16`).
pub open spec fn hex_digit_upper(n: nat) -> char {
    if n == 0 {
        '0'
    } else if n == 1 {
        '1'
    } else if n == 2 {
        '2'
    } else if n == 3 {
        '3'
    } else if n == 4 {
        '4'
    } else if n == 5 {
        '5'
    } else if n == 6 {
        '6'
    } else if n == 7 {
        '7'
    } else if n == 8 {
        '8'
    } else if n == 9 {
        '9'
    } else if n == 10 {
        'A'
    } else if n == 11 {
        'B'
    } else if n == 12 {
        'C'
    } else if n == 13 {
        'D'
    } else if n == 14 {
        'E'
    } else {
        'F'
    }
}

/// Characters percent-escaped in link targets: the C0 controls, delete, and
/// the characters that break out of HTML attributes or URL syntax.
pub open spec fn needs_percent_escape(c: char) -> bool {
    (c as u32) < 0x20 || c == '\u{7f}' || c == ' ' || c == '\'' || c == '"' || c == '&' || c == '['
        || c == ']' || c == '\\' || c == '{' || c == '}' || c == '|' || c == '<' || c == '>' || c
        == '`'
}

/// Replacement for one character in a percent-encoded string.
pub open spec fn percent_escape(c: char) -> Seq<char> {
    if needs_percent_escape(c) {
        seq!['%', hex_digit_upper((c as u32) as nat / 16), hex_digit_upper((c as u32) as nat % 16)]
    } else {
        seq![c]
    }
}

/// `s` with every character escaped by [`percent_escape`].
pub open spec fn percent_encoded(s: Seq<char>) -> Seq<char>
    decreases s.len(),
{
    if s.len() == 0 {
        Seq::empty()
    } else {
        percent_encoded(s.drop_last()) + percent_escape(s.last())
    }
}

pub(crate) fn hex_digit_upper_exec(n: u32) -> (c: char)
    requires
        n < 16,
    ensures
        c == hex_digit_upper(n as nat),
{
    match n {
        0 => '0',
        1 => '1',
        2 => '2',
        3 => '3',
        4 => '4',
        5 => '5',
        6 => '6',
        7 => '7',
        8 => '8',
        9 => '9',
        10 => 'A',
        11 => 'B',
        12 => 'C',
        13 => 'D',
        14 => 'E',
        _ => 'F',
    }
}

fn needs_percent_escape_exec(c: char) -> (r: bool)
    ensures
        r == needs_percent_escape(c),
{
    let v = c as u32;
    v < 0x20 || c == '\u{7f}' || c == ' ' || c == '\'' || c == '"' || c == '&' || c == '[' || c
        == ']' || c == '\\' || c == '{' || c == '}' || c == '|' || c == '<' || c == '>' || c == '`'
}

/// Percent-encode a link target so it can stand in an HTML attribute.
pub fn percent_encode(text: &str) -> (r: String)
    ensures
        r@ == percent_encoded(text@),
{
    let n = text.unicode_len();
    let mut out = String::new();
    let mut i: usize = 0;
    while i < n
        invariant
            n == text@.len(),
            i <= n,
            out@ == percent_encoded(text@.subrange(0, i as int)),
        decreases n - i,
    {
        let c = text.get_char(i);
        let ghost pre = out@;
        if needs_percent_escape_exec(c) {
            let v = c as u32;
            proof {
                assert(v < 0x80);
            }
            push_char(&mut out, '%');
            push_char(&mut out, hex_digit_upper_exec(v / 16));
            push_char(&mut out, hex_digit_upper_exec(v % 16));
        } else {
            push_char(&mut out, c);
        }
        proof {
            assert(out@ =~= pre + percent_escape(c));
            assert(text@.subrange(0, i + 1).drop_last() =~= text@.subrange(0, i as int));
            assert(text@.subrange(0, i + 1).last() == c);
        }
        i = i + 1;
    }
    proof {
        assert(text@.subrange(0, n as int) =~= text@);
    }
    out
}

/// Replacement the HTML text cleaner makes for one character, straight from
/// its source: everything that could be special in any HTML position.
pub open spec fn clean_text_escape(c: char) -> Seq<char> {
    if c == '<' {
        seq!['&', 'l', 't', ';']
    } else if c == '>' {
        seq!['&', 'g', 't', ';']
    } else if c == '"' {
        seq!['&', 'q', 'u', 'o', 't', ';']
    } else if c == '\'' {
        seq!['&', 'a', 'p', 'o', 's', ';']
    } else if c == '`' {
        seq!['&', 'g', 'r', 'a', 'v', 'e', ';']
    } else if c == '/' {
        seq!['&', '#', '4', '7', ';']
    } else if c == '&' {
        seq!['&', 'a', 'm', 'p', ';']
    } else if c == '=' {
        seq!['&', '#', '6', '1', ';']
    } else if c == ' ' {
        seq!['&', '#', '3', '2', ';']
    } else if c == '\t' {
        seq!['&', '#', '9', ';']
    } else if c == '\n' {
        seq!['&', '#', '1', '0', ';']
    } else if c == '\u{c}' {
        seq!['&', '#', '1', '2', ';']
    } else if c == '\r' {
        seq!['&', '#', '1', '3', ';']
    } else if c == '\0' {
        seq!['&', '#', '6', '5', '5', '3', '3', ';']
    } else {
        seq![c]
    }
}

/// `s` with every character escaped by [`clean_text_escape`].
pub open spec fn clean_texted(s: Seq<char>) -> Seq<char>
    decreases s.len(),
{
    if s.len() == 0 {
        Seq::empty()
    } else {
        clean_texted(s.drop_last()) + clean_text_escape(s.last())
    }
}

/// Relies on `ammonia::clean_text`: its source escapes exactly the characters
/// of [`clean_text_escape`], one by one, and passes the rest through.
#[verifier::external_body]
pub fn sanitize_text(text: &str) -> (r: String)
    ensures
        r@ == clean_texted(text@),
{
    ammonia::clean_text(text)
}

/// Additions to the HTML sanitiser's allow-lists.  The sanitiser starts from
/// its own default lists and these are added on top.
pub struct HtmlPolicy {
    /// Extra allowed tags.
    pub tags: Vec<String>,
    /// Extra allowed (tag, attribute) pairs.
    pub tag_attributes: Vec<(String, String)>,
    /// Extra allowed attribute-name prefixes on any tag.
    pub generic_attribute_prefixes: Vec<String>,
    /// Extra allowed attributes on any tag.
    pub generic_attributes: Vec<String>,
    /// Extra allowed (tag, class) pairs.
    pub allowed_classes: Vec<(String, String)>,
    /// Keep the text content even of tags whose content is normally removed.
    pub keep_all_content: bool,
}

/// What the HTML sanitiser returns for `html` under the default allow-lists
/// extended by the given additions.
pub uninterp spec fn ammonia_cleaned(
    tags: Seq<Seq<char>>,
    tag_attributes: Seq<(Seq<char>, Seq<char>)>,
    generic_attribute_prefixes: Seq<Seq<char>>,
    generic_attributes: Seq<Seq<char>>,
    allowed_classes: Seq<(Seq<char>, Seq<char>)>,
    keep_all_content: bool,
    html: Seq<char>,
) -> Seq<char>;

/// Relies on `ammonia::Builder`: starting from the default allow-lists, the
/// listed additions configure it, and `clean` is a function of that
/// configuration and the input document alone.
#[verifier::external_body]
fn ammonia_clean_with(policy: &HtmlPolicy, html: &str) -> (r: String)
    ensures
        r@ == ammonia_cleaned(
            policy.tags.deep_view(),
            pair_views(policy.tag_attributes@),
            policy.generic_attribute_prefixes.deep_view(),
            policy.generic_attributes.deep_view(),
            pair_views(policy.allowed_classes@),
            policy.keep_all_content,
            html@,
        ),
{
    let mut b = ammonia::Builder::default();
    b.add_tags(policy.tags.iter().map(|s| s.as_str()));
    for (t, a) in policy.tag_attributes.iter() {
        b.add_tag_attributes(t.as_str(), [a.as_str()]);
    }
    b.add_generic_attribute_prefixes(policy.generic_attribute_prefixes.iter().map(|s| s.as_str()));
    b.add_generic_attributes(policy.generic_attributes.iter().map(|s| s.as_str()));
    for (t, c) in policy.allowed_classes.iter() {
        b.add_allowed_classes(t.as_str(), [c.as_str()]);
    }
    if policy.keep_all_content {
        b.clean_content_tags([].into());
    }
    b.clean(html).to_string()
}

/// What the HTML sanitiser returns for `html` when started from empty
/// allow-lists: the text with all markup removed.
pub uninterp spec fn ammonia_stripped(html: Seq<char>) -> Seq<char>;

/// Relies on `ammonia::Builder::empty`: with empty allow-lists, `clean`
/// removes all markup and is a function of the input alone.
#[verifier::external_body]
pub fn sanitize_html_to_text(text: &str) -> (r: String)
    ensures
        r@ == ammonia_stripped(text@),
{
    ammonia::Builder::empty().clean(text).to_string()
}

/// The tag additions every cleaning starts from.
pub open spec fn base_tags() -> Seq<Seq<char>> {
    seq![seq!['i']]
}

/// The attribute additions every cleaning starts from.
pub open spec fn base_tag_attributes() -> Seq<(Seq<char>, Seq<char>)> {
    seq![
        (seq!['i'], seq!['p', 'a', 'r', 't']),
        (seq!['i'], seq!['t', 'a', 'g']),
    ]
}

/// The generic attribute-prefix additions every cleaning starts from.
pub open spec fn base_generic_attribute_prefixes() -> Seq<Seq<char>> {
    seq![seq!['d', 'a', 't', 'a', '-']]
}

fn base_policy() -> (p: HtmlPolicy)
    ensures
        p.tags.deep_view() == base_tags(),
        pair_views(p.tag_attributes@) == base_tag_attributes(),
        p.generic_attribute_prefixes.deep_view() == base_generic_attribute_prefixes(),
        p.generic_attributes.deep_view() == Seq::<Seq<char>>::empty(),
        pair_views(p.allowed_classes@) == Seq::<(Seq<char>, Seq<char>)>::empty(),
        p.keep_all_content == false,
{
    let mut tags: Vec<String> = Vec::new();
    tags.push("i".to_owned());
    let mut tag_attributes: Vec<(String, String)> = Vec::new();
    tag_attributes.push(("i".to_owned(), "part".to_owned()));
    tag_attributes.push(("i".to_owned(), "tag".to_owned()));
    let mut generic_attribute_prefixes: Vec<String> = Vec::new();
    generic_attribute_prefixes.push("data-".to_owned());
    let p = HtmlPolicy {
        tags,
        tag_attributes,
        generic_attribute_prefixes,
        generic_attributes: Vec::new(),
        allowed_classes: Vec::new(),
        keep_all_content: false,
    };
    proof {
        reveal_strlit("i");
        reveal_strlit("part");
        reveal_strlit("tag");
        reveal_strlit("data-");
        assert(p.tags.deep_view() =~~= base_tags());
        assert(pair_views(p.tag_attributes@) =~~= base_tag_attributes());
        assert(p.generic_attribute_prefixes.deep_view() =~~= base_generic_attribute_prefixes());
        assert(p.generic_attributes.deep_view() =~= Seq::<Seq<char>>::empty());
        assert(pair_views(p.allowed_classes@) =~= Seq::<(Seq<char>, Seq<char>)>::empty());
    }
    p
}

/// Clean untrusted HTML for embedding in a page body: the sanitiser's
/// defaults plus a small set of additions.
pub fn sanitize_html(html: &str) -> (r: String)
    ensures
        r@ == ammonia_cleaned(
            base_tags(),
            base_tag_attributes(),
            base_generic_attribute_prefixes(),
            Seq::empty(),
            Seq::empty(),
            false,
            html@,
        ),
{
    let p = base_policy();
    ammonia_clean_with(&p, html)
}

/// The closing-tag names that appear in `s`: for every `</`, the text up to
/// the next `>`, when that text is shorter than 32 characters.
pub open spec fn closing_tags(s: Seq<char>) -> Seq<Seq<char>>
    decreases s.len(),
    via closing_tags_decreases
{
    let start = substring_index(s, seq!['<', '/']);
    if start < 0 {
        Seq::empty()
    } else {
        let rest = s.skip(start + 2);
        let end = char_index(rest, '>');
        let head: Seq<Seq<char>> = if end >= 0 && end < 32 {
            seq![rest.take(end)]
        } else {
            Seq::empty()
        };
        head + closing_tags(rest)
    }
}

#[via_fn]
proof fn closing_tags_decreases(s: Seq<char>) {
    lemma_substring_index(s, seq!['<', '/']);
}

/// Collect every closing-tag name of `html`, in order of appearance.
pub fn collect_closing_tags(html: &str) -> (r: Vec<String>)
    ensures
        r.deep_view() == closing_tags(html@),
{
    let ghost pat = seq!['<', '/'];
    proof {
        reveal_strlit("</");
        assert("</"@ =~= pat);
    }
    let mut out: Vec<String> = Vec::new();
    let mut scan: &str = html;
    loop
        invariant
            "</"@ =~= seq!['<', '/'],
            closing_tags(html@) == out.deep_view() + closing_tags(scan@),
        decreases scan@.len(),
    {
        let found = find_substring(scan, "</");
        match found {
            None => {
                proof {
                    assert(closing_tags(scan@) =~= Seq::<Seq<char>>::empty());
                    assert(out.deep_view() + Seq::<Seq<char>>::empty() =~= out.deep_view());
                }
                return out;
            },
            Some(start) => {
                proof {
                    lemma_substring_index(scan@, seq!['<', '/']);
                }
                let ghost pre_scan = scan@;
                let ghost pre_out = out.deep_view();
                let scan_len = scan.unicode_len();
                scan = scan.substring_char(start + 2, scan_len);
                proof {
                    assert(scan@ =~= pre_scan.skip(start + 2));
                    lemma_char_index(scan@, '>');
                }
                match find_char(scan, '>') {
                    Some(end) if end < 32 => {
                        proof {
                            assert(char_index(scan@, '>') == end as int) by {
                                if char_index(scan@, '>') != end as int {
                                    assert(scan@[char_index(scan@, '>')] == '>');
                                }
                            }
                        }
                        let tag = scan.substring_char(0, end).to_owned();
                        out.push(tag);
                        proof {
                            assert(out.deep_view() =~= pre_out + seq![scan@.take(end as int)]);
                            assert((pre_out + seq![scan@.take(end as int)]) + closing_tags(scan@)
                                =~= pre_out + (seq![scan@.take(end as int)] + closing_tags(scan@)));
                        }
                    },
                    r => {
                        proof {
                            match r {
                                Some(end) => {
                                    assert(char_index(scan@, '>') == end as int) by {
                                        if char_index(scan@, '>') != end as int {
                                            assert(scan@[char_index(scan@, '>')] == '>');
                                        }
                                    }
                                },
                                None => {
                                    assert(char_index(scan@, '>') == -1) by {
                                        if char_index(scan@, '>') >= 0 {
                                            assert(scan@[char_index(scan@, '>')] == '>');
                                        }
                                    }
                                },
                            }
                            assert(Seq::<Seq<char>>::empty() + closing_tags(scan@) =~= closing_tags(
                                scan@,
                            ));
                        }
                    },
                }
            },
        }
    }
}

/// The tag additions of the trusting cleaner, before the document's own
/// closing tags.
pub open spec fn trusted_tags() -> Seq<Seq<char>> {
    seq![
        seq!['i'],
        seq!['s', 'c', 'r', 'i', 'p', 't'],
        seq!['s', 't', 'y', 'l', 'e'],
        seq!['t', 'e', 'm', 'p', 'l', 'a', 't', 'e'],
        seq!['s', 'l', 'o', 't'],
    ]
}

/// Clean HTML produced by the site's own rendering pipeline: very trusting
/// about tags, and additionally allowing every closing-tag name that appears
/// in the document itself.
pub fn sanitize_html_trusted(html: &str) -> (r: String)
    ensures
        r@ == ammonia_cleaned(
            trusted_tags() + closing_tags(html@),
            trusted_tag_attributes(),
            base_generic_attribute_prefixes(),
            trusted_generic_attributes(),
            trusted_allowed_classes(),
            true,
            html@,
        ),
{
    let mut p = trusted_policy();
    let mut found = collect_closing_tags(html);
    let ghost p_tags = p.tags.deep_view();
    let ghost f_tags = found.deep_view();
    p.tags.append(&mut found);
    proof {
        assert(p.tags.deep_view() =~= p_tags + f_tags);
    }
    ammonia_clean_with(&p, html)
}

/// The attribute additions of the trusting cleaner.
pub open spec fn trusted_tag_attributes() -> Seq<(Seq<char>, Seq<char>)> {
    base_tag_attributes() + seq![
        (seq!['h', '1'], seq!['i', 'd']),
        (seq!['h', '2'], seq!['i', 'd']),
        (seq!['h', '3'], seq!['i', 'd']),
        (seq!['h', '4'], seq!['i', 'd']),
        (seq!['h', '5'], seq!['i', 'd']),
        (seq!['h', '6'], seq!['i', 'd']),
        (seq!['t', 'e', 'm', 'p', 'l', 'a', 't', 'e'], seq!['s', 'h', 'a', 'd', 'o', 'w', 'r', 'o', 'o', 't', 'm', 'o', 'd', 'e']),
        (seq!['t', 'e', 'm', 'p', 'l', 'a', 't', 'e'], seq!['n', 'a', 'm', 'e']),
        (seq!['t', 'e', 'm', 'p', 'l', 'a', 't', 'e'], seq!['m', 'o', 'd', 'e']),
    ]
}

/// The generic attribute additions of the trusting cleaner.
pub open spec fn trusted_generic_attributes() -> Seq<Seq<char>> {
    seq![
        seq!['s', 't', 'y', 'l', 'e'],
        seq!['a', 'r', 'i', 'a', '-', 'l', 'a', 'b', 'e', 'l', 'l', 'e', 'd', 'b', 'y'],
        seq!['a', 'r', 'i', 'a', '-', 'l', 'a', 'b', 'e', 'l'],
        seq!['a', 'r', 'i', 'a', '-', 'r', 'o', 'l', 'e'],
    ]
}

/// The class additions of the trusting cleaner.
pub open spec fn trusted_allowed_classes() -> Seq<(Seq<char>, Seq<char>)> {
    seq![
        (seq!['a'], seq!['h', 'e', 'a', 'd', 'i', 'n', 'g', '-', 'a', 'n', 'c', 'h', 'o', 'r']),
        (seq!['a'], seq!['h', 'e', 'a', 'd', 'i', 'n', 'g', '-', 'a', 'n', 'c', 'h', 'o', 'r', '-', 'i', 'n', 'n', 'e', 'r']),
        (seq!['d', 'i', 'v'], seq!['f', 'o', 'o', 't', 'n', 'o', 't', 'e', '-', 'd', 'e', 'f', 'i', 'n', 'i', 't', 'i', 'o', 'n']),
        (seq!['d', 'i', 'v'], seq!['h', 'e', 'a', 'd', 'i', 'n', 'g', '-', 'w', 'r', 'a', 'p', 'p', 'e', 'r']),
        (seq!['d', 'i', 'v'], seq!['h', '1']),
        (seq!['d', 'i', 'v'], seq!['h', '2']),
        (seq!['d', 'i', 'v'], seq!['h', '3']),
        (seq!['d', 'i', 'v'], seq!['h', '4']),
        (seq!['d', 'i', 'v'], seq!['h', '5']),
        (seq!['d', 'i', 'v'], seq!['h', '6']),
        (seq!['s', 'u', 'p'], seq!['f', 'o', 'o', 't', 'n', 'o', 't', 'e', '-', 'd', 'e', 'f', 'i', 'n', 'i', 't', 'i', 'o', 'n', '-', 'l', 'a', 'b', 'e', 'l']),
        (seq!['s', 'u', 'p'], seq!['f', 'o', 'o', 't', 'n', 'o', 't', 'e', '-', 'd', 'e', 'f', 'i', 'n', 'i', 't', 'i', 'o', 'n', '-', 'r', 'e', 'f', 'e', 'r', 'e', 'n', 'c', 'e']),
    ]
}

fn trusted_policy() -> (p: HtmlPolicy)
    ensures
        p.tags.deep_view() == trusted_tags(),
        pair_views(p.tag_attributes@) == trusted_tag_attributes(),
        p.generic_attribute_prefixes.deep_view() == base_generic_attribute_prefixes(),
        p.generic_attributes.deep_view() == trusted_generic_attributes(),
        pair_views(p.allowed_classes@) == trusted_allowed_classes(),
        p.keep_all_content == true,
{
    let mut tags: Vec<String> = Vec::new();
    tags.push("i".to_owned());
    tags.push("script".to_owned());
    tags.push("style".to_owned());
    tags.push("template".to_owned());
    tags.push("slot".to_owned());
    let mut tag_attributes: Vec<(String, String)> = Vec::new();
    tag_attributes.push(("i".to_owned(), "part".to_owned()));
    tag_attributes.push(("i".to_owned(), "tag".to_owned()));
    tag_attributes.push(("h1".to_owned(), "id".to_owned()));
    tag_attributes.push(("h2".to_owned(), "id".to_owned()));
    tag_attributes.push(("h3".to_owned(), "id".to_owned()));
    tag_attributes.push(("h4".to_owned(), "id".to_owned()));
    tag_attributes.push(("h5".to_owned(), "id".to_owned()));
    tag_attributes.push(("h6".to_owned(), "id".to_owned()));
    tag_attributes.push(("template".to_owned(), "shadowrootmode".to_owned()));
    tag_attributes.push(("template".to_owned(), "name".to_owned()));
    tag_attributes.push(("template".to_owned(), "mode".to_owned()));
    let mut generic_attribute_prefixes: Vec<String> = Vec::new();
    generic_attribute_prefixes.push("data-".to_owned());
    let mut generic_attributes: Vec<String> = Vec::new();
    generic_attributes.push("style".to_owned());
    generic_attributes.push("aria-labelledby".to_owned());
    generic_attributes.push("aria-label".to_owned());
    generic_attributes.push("aria-role".to_owned());
    let mut allowed_classes: Vec<(String, String)> = Vec::new();
    allowed_classes.push(("a".to_owned(), "heading-anchor".to_owned()));
    allowed_classes.push(("a".to_owned(), "heading-anchor-inner".to_owned()));
    allowed_classes.push(("div".to_owned(), "footnote-definition".to_owned()));
    allowed_classes.push(("div".to_owned(), "heading-wrapper".to_owned()));
    allowed_classes.push(("div".to_owned(), "h1".to_owned()));
    allowed_classes.push(("div".to_owned(), "h2".to_owned()));
    allowed_classes.push(("div".to_owned(), "h3".to_owned()));
    allowed_classes.push(("div".to_owned(), "h4".to_owned()));
    allowed_classes.push(("div".to_owned(), "h5".to_owned()));
    allowed_classes.push(("div".to_owned(), "h6".to_owned()));
    allowed_classes.push(("sup".to_owned(), "footnote-definition-label".to_owned()));
    allowed_classes.push(("sup".to_owned(), "footnote-definition-reference".to_owned()));
    let p = HtmlPolicy {
        tags,
        tag_attributes,
        generic_attribute_prefixes,
        generic_attributes,
        allowed_classes,
        keep_all_content: true,
    };
    proof {
        reveal_strlit("i");
        reveal_strlit("script");
        reveal_strlit("style");
        reveal_strlit("template");
        reveal_strlit("slot");
        reveal_strlit("part");
        reveal_strlit("tag");
        reveal_strlit("h1");
        reveal_strlit("h2");
        reveal_strlit("h3");
        reveal_strlit("h4");
        reveal_strlit("h5");
        reveal_strlit("h6");
        reveal_strlit("id");
        reveal_strlit("shadowrootmode");
        reveal_strlit("name");
        reveal_strlit("mode");
        reveal_strlit("data-");
        reveal_strlit("aria-labelledby");
        reveal_strlit("aria-label");
        reveal_strlit("aria-role");
        reveal_strlit("a");
        reveal_strlit("div");
        reveal_strlit("sup");
        reveal_strlit("heading-anchor");
        reveal_strlit("heading-anchor-inner");
        reveal_strlit("footnote-definition");
        reveal_strlit("heading-wrapper");
        reveal_strlit("footnote-definition-label");
        reveal_strlit("footnote-definition-reference");
        assert(p.tags.deep_view() =~~= trusted_tags());
        assert(pair_views(p.tag_attributes@) =~~= trusted_tag_attributes());
        assert(p.generic_attribute_prefixes.deep_view() =~~= base_generic_attribute_prefixes());
        assert(p.generic_attributes.deep_view() =~~= trusted_generic_attributes());
        assert(pair_views(p.allowed_classes@) =~~= trusted_allowed_classes());
    }
    p
}

/// What parsing a URL yields: `None` when the text is no URL, otherwise the
/// parsed URL's scheme and its normalised serialisation.
pub uninterp spec fn url_parsed(s: Seq<char>) -> Option<(Seq<char>, Seq<char>)>;

/// Relies on `url::Url::parse` (re-exported by the sanitiser crate) and on
/// `Url::scheme` and the `Display` serialisation of the parsed URL: parsing
/// either fails or yields a URL whose lowercased scheme and normalised
/// serialisation are functions of the input text alone.
#[verifier::external_body]
fn parse_url(link: &str) -> (r: Option<(String, String)>)
    ensures
        r is Some <==> url_parsed(link@) is Some,
        r matches Some(p) ==> url_parsed(link@) matches Some(q) && p.0@ == q.0 && p.1@ == q.1,
{
    match ammonia::Url::parse(link) {
        Ok(u) => Some((u.scheme().to_string(), u.to_string())),
        Err(_) => None,
    }
}

/// The replacement page shown for a link that is not a valid http(s) URL.
pub open spec fn invalid_link_page(link: Seq<char>) -> Seq<char> {
    percent_encoded(
        "data:text/html;charset=utf8,<h1>Invalid link: <code>"@ + clean_texted(link)
            + "</code></h1>"@,
    )
}

/// Make a link target safe: a link that parses as an http or https URL is
/// replaced by its normalised form, anything else by a small error page.
pub fn sanitize_link(link: &str) -> (r: String)
    ensures
        match url_parsed(link@) {
            Some(p) => if p.0 == "http"@ || p.0 == "https"@ {
                r@ == p.1
            } else {
                r@ == invalid_link_page(link@)
            },
            None => r@ == invalid_link_page(link@),
        },
{
    let parsed = parse_url(link);
    match parsed {
        Some((scheme, normalized)) => {
            if crate::text::str_eq(scheme.as_str(), "http") || crate::text::str_eq(
                scheme.as_str(),
                "https",
            ) {
                normalized
            } else {
                invalid_link_fallback(link)
            }
        },
        None => invalid_link_fallback(link),
    }
}

fn invalid_link_fallback(link: &str) -> (r: String)
    ensures
        r@ == invalid_link_page(link@),
{
    let mut page = "data:text/html;charset=utf8,<h1>Invalid link: <code>".to_owned();
    let cleaned = sanitize_text(link);
    page.append(cleaned.as_str());
    page.append("</code></h1>");
    proof {
        assert(page@ =~= "data:text/html;charset=utf8,<h1>Invalid link: <code>"@ + clean_texted(
            link@,
        ) + "</code></h1>"@);
    }
    percent_encode(page.as_str())
}

} // verus!
