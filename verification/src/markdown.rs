//! Decisions of the markdown renderer that do not touch the event stream:
//! link-target resolution against a base URL, recovery of broken link
//! references, the `##label##url` shortcut-link encoding, and heading
//! identifiers.

use vstd::prelude::*;

use crate::sanitize::percent_encode;
use crate::sanitize::percent_encoded;
use crate::text::find_substring;
use crate::text::is_substring_at;
use crate::text::push_char;
use crate::text::str_contains;
use crate::text::str_starts_with;
use crate::text::substring_index;

verus! {

broadcast use vstd::string::group_string_axioms;

/// Where a heading gets its self-link.
#[derive(Copy, Clone, Debug, PartialEq, Eq, Structural)]
pub enum HeadingAnchorMode {
    /// Headings carry no link to themselves.
    NoAnchor,
    /// The whole heading becomes a link.
    HeadingIsLink,
    /// A link follows the heading inside a wrapper.
    LinkAfterHeading,
    /// A link stands as the heading's last child.
    LinkInHeading,
}

/// Choices for the markdown-to-HTML rendering.
pub struct Options {
    pub soft_breaks_as_hard: bool,
    pub heading_generate_ids: bool,
    pub embeds: bool,
    pub heading_anchor_links: HeadingAnchorMode,
    pub base_url: Option<String>,
}

impl Default for Options {
    /// Plain rendering: no hard breaks, no generated ids, no embeds, no
    /// anchors, no base URL.
    fn default() -> (r: Self)
        ensures
            !r.soft_breaks_as_hard,
            !r.heading_generate_ids,
            !r.embeds,
            r.heading_anchor_links == HeadingAnchorMode::NoAnchor,
            r.base_url is None,
    {
        Options {
            soft_breaks_as_hard: false,
            heading_generate_ids: false,
            embeds: false,
            heading_anchor_links: HeadingAnchorMode::NoAnchor,
            base_url: None,
        }
    }
}

/// The view of an optional string slice.
pub open spec fn opt_str_view(o: Option<&str>) -> Option<Seq<char>> {
    match o {
        Some(s) => Some(s@),
        None => None,
    }
}

/// What a link target resolves to under an optional base URL: absolute
/// targets, fragments and full URLs stand as they are; anything else is the
/// base and the target joined, percent-encoded.
pub open spec fn resolved_href(base: Option<Seq<char>>, dest: Seq<char>) -> Seq<char> {
    match base {
        Option::None => dest,
        Option::Some(b) => {
            if is_substring_at(dest, "/"@, 0) || is_substring_at(dest, "#"@, 0) || (exists|i: int|
                is_substring_at(dest, "://"@, i)) {
                dest
            } else {
                percent_encoded(b + dest)
            }
        },
    }
}

/// Resolve one link target against the optional base URL.
pub fn resolve_href(base: Option<&str>, dest: &str) -> (r: String)
    ensures
        r@ == resolved_href(opt_str_view(base), dest@),
{
    match base {
        None => dest.to_owned(),
        Some(b) => {
            let absolute = str_starts_with(dest, "/") || str_starts_with(dest, "#") || str_contains(
                dest,
                "://",
            );
            if absolute {
                dest.to_owned()
            } else {
                let mut joined = b.to_owned();
                joined.append(dest);
                percent_encode(joined.as_str())
            }
        },
    }
}

/// The label and target packed into a `##label##url` shortcut link, if the
/// target is one.
pub open spec fn shortcut_parts(u: Seq<char>) -> Option<(Seq<char>, Seq<char>)> {
    if u.len() >= 2 && u[0] == '#' && u[1] == '#' {
        let rest = u.skip(2);
        let i = substring_index(rest, seq!['#', '#']);
        if i < 0 {
            Option::None
        } else {
            Some((rest.take(i), rest.skip(i + 2)))
        }
    } else {
        Option::None
    }
}

/// Unpack a `##label##url` shortcut link into its label and real target.
pub fn rewrite_shortcut_link(url: &str) -> (r: Option<(String, String)>)
    ensures
        r is Some <==> shortcut_parts(url@) is Some,
        r matches Some(p) ==> shortcut_parts(url@) matches Some(q) && p.0@ == q.0 && p.1@ == q.1,
{
    proof {
        reveal_strlit("##");
        assert("##"@ =~= seq!['#', '#']);
    }
    let n = url.unicode_len();
    if n < 2 || !(url.get_char(0) == '#' && url.get_char(1) == '#') {
        return None;
    }
    let rest = url.substring_char(2, n);
    proof {
        assert(rest@ =~= url@.skip(2));
    }
    match find_substring(rest, "##") {
        None => None,
        Some(i) => {
            proof {
                crate::text::lemma_substring_index(rest@, seq!['#', '#']);
            }
            let label = rest.substring_char(0, i).to_owned();
            let rn = rest.unicode_len();
            let target = rest.substring_char(i + 2, rn).to_owned();
            proof {
                assert(label@ =~= rest@.take(i as int));
                assert(target@ =~= rest@.skip(i as int + 2));
            }
            Some((label, target))
        },
    }
}

/// The kinds of link references the parser reports as broken.
#[derive(Copy, Clone, Debug, PartialEq, Eq, Structural)]
pub enum BrokenLinkKind {
    /// `[name][reference]`
    Reference,
    /// `[name][]`
    Collapsed,
    /// `[reference]`
    Shortcut,
    /// Anything else; left untouched.
    Other,
}

/// How a broken link reference is recovered, if at all: the target and the
/// title.  `before` and `after` are the characters around the reference's
/// span in the document; an extra surrounding bracket pair makes it a
/// wiki-style link.  A `rust:` prefix points the link at the documentation
/// site.  A shortcut packs its label into the target as `##label##url`.
pub open spec fn broken_link_resolution(
    kind: BrokenLinkKind,
    before: Option<char>,
    after: Option<char>,
    reference: Seq<char>,
) -> Option<(Seq<char>, Seq<char>)> {
    if kind == BrokenLinkKind::Other {
        Option::None
    } else {
        let wiki = before == Some('[') && after == Some(']');
        if wiki {
            if kind == BrokenLinkKind::Shortcut {
                Some((seq!['#', '#'] + reference + seq!['#', '#'] + reference, reference))
            } else {
                Some((reference, reference))
            }
        } else if is_substring_at(reference, "rust:"@, 0) {
            let path = reference.skip(5);
            let url = "https://docs.rs/"@ + path + "?go_to_first=true"@;
            if kind == BrokenLinkKind::Shortcut {
                Some((seq!['#', '#'] + path + seq!['#', '#'] + url, path))
            } else {
                Some((url, path))
            }
        } else {
            Option::None
        }
    }
}

/// Recover one broken link reference, as [`broken_link_resolution`] says.
pub fn resolve_broken_link(
    kind: BrokenLinkKind,
    before: Option<char>,
    after: Option<char>,
    reference: &str,
) -> (r: Option<(String, String)>)
    ensures
        r is Some <==> broken_link_resolution(kind, before, after, reference@) is Some,
        r matches Some(p) ==> broken_link_resolution(kind, before, after, reference@) matches Some(
            q,
        ) && p.0@ == q.0 && p.1@ == q.1,
{
    if kind == BrokenLinkKind::Other {
        return None;
    }
    let wiki = before == Some('[') && after == Some(']');
    if wiki {
        if kind == BrokenLinkKind::Shortcut {
            let mut target = "##".to_owned();
            target.append(reference);
            target.append("##");
            target.append(reference);
            proof {
                reveal_strlit("##");
                assert(target@ =~= seq!['#', '#'] + reference@ + seq!['#', '#'] + reference@);
            }
            Some((target, reference.to_owned()))
        } else {
            Some((reference.to_owned(), reference.to_owned()))
        }
    } else if str_starts_with(reference, "rust:") {
        proof {
            reveal_strlit("rust:");
        }
        let n = reference.unicode_len();
        let path = reference.substring_char(5, n);
        proof {
            assert(path@ =~= reference@.skip(5));
        }
        let mut url = "https://docs.rs/".to_owned();
        url.append(path);
        url.append("?go_to_first=true");
        proof {
            assert(url@ =~= "https://docs.rs/"@ + reference@.skip(5) + "?go_to_first=true"@);
        }
        if kind == BrokenLinkKind::Shortcut {
            let mut target = "##".to_owned();
            target.append(path);
            target.append("##");
            target.append(url.as_str());
            proof {
                reveal_strlit("##");
                assert(target@ =~= seq!['#', '#'] + reference@.skip(5) + seq!['#', '#'] + url@);
            }
            Some((target, path.to_owned()))
        } else {
            Some((url, path.to_owned()))
        }
    } else {
        None
    }
}


/// The blockquote flavours that carry an alert class.
#[derive(Copy, Clone, Debug, PartialEq, Eq, Structural)]
pub enum AlertKind {
    Note,
    Tip,
    Important,
    Warning,
    Caution,
}

/// The class attribute written on a blockquote of the given flavour.
pub fn blockquote_class(kind: Option<AlertKind>) -> (r: &'static str)
    ensures
        kind is None ==> r@ == ""@,
        kind == Some(AlertKind::Note) ==> r@ == " class=\"markdown-alert-note\""@,
        kind == Some(AlertKind::Tip) ==> r@ == " class=\"markdown-alert-tip\""@,
        kind == Some(AlertKind::Important) ==> r@ == " class=\"markdown-alert-important\""@,
        kind == Some(AlertKind::Warning) ==> r@ == " class=\"markdown-alert-warning\""@,
        kind == Some(AlertKind::Caution) ==> r@ == " class=\"markdown-alert-caution\""@,
{
    match kind {
        None => "",
        Some(AlertKind::Note) => " class=\"markdown-alert-note\"",
        Some(AlertKind::Tip) => " class=\"markdown-alert-tip\"",
        Some(AlertKind::Important) => " class=\"markdown-alert-important\"",
        Some(AlertKind::Warning) => " class=\"markdown-alert-warning\"",
        Some(AlertKind::Caution) => " class=\"markdown-alert-caution\"",
    }
}

/// How a table column is aligned.
#[derive(Copy, Clone, Debug, PartialEq, Eq, Structural)]
pub enum ColumnAlignment {
    Unspecified,
    Left,
    Center,
    Right,
}

/// What follows the opened table-cell tag for the given column alignment.
pub fn table_cell_alignment(alignment: Option<ColumnAlignment>) -> (r: &'static str)
    ensures
        alignment == Some(ColumnAlignment::Left) ==> r@ == " style=\"text-align: left\">"@,
        alignment == Some(ColumnAlignment::Center) ==> r@ == " style=\"text-align: center\">"@,
        alignment == Some(ColumnAlignment::Right) ==> r@ == " style=\"text-align: right\">"@,
        alignment is None || alignment == Some(ColumnAlignment::Unspecified) ==> r@ == ">"@,
{
    match alignment {
        Some(ColumnAlignment::Left) => " style=\"text-align: left\">",
        Some(ColumnAlignment::Center) => " style=\"text-align: center\">",
        Some(ColumnAlignment::Right) => " style=\"text-align: right\">",
        _ => ">",
    }
}

/// Footnote numbering in order of first appearance: each name keeps the
/// number it got when first seen, and a new name gets the next number.
pub struct FootnoteNumbers {
    entries: Vec<(String, usize)>,
}

/// The number already assigned to `name`, if any.
pub open spec fn assigned_number(entries: Seq<(Seq<char>, usize)>, name: Seq<char>) -> Option<
    usize,
>
    decreases entries.len(),
{
    if entries.len() == 0 {
        Option::None
    } else if entries[0].0 == name {
        Some(entries[0].1)
    } else {
        assigned_number(entries.drop_first(), name)
    }
}

impl FootnoteNumbers {
    /// The names seen so far with their numbers, in order of first
    /// appearance.
    pub closed spec fn entries_view(self) -> Seq<(Seq<char>, usize)> {
        Seq::new(self.entries@.len(), |i: int| (self.entries@[i].0@, self.entries@[i].1))
    }

    /// Numbers are assigned in order, starting from one.
    pub closed spec fn wf(self) -> bool {
        forall|i: int|
            0 <= i < self.entries@.len() ==> #[trigger] self.entries@[i].1 == i + 1
    }

    /// No footnotes seen yet.
    pub fn new() -> (r: Self)
        ensures
            r.entries_view() == Seq::<(Seq<char>, usize)>::empty(),
            r.wf(),
    {
        let r = FootnoteNumbers { entries: Vec::new() };
        proof {
            assert(r.entries_view() =~= Seq::<(Seq<char>, usize)>::empty());
        }
        r
    }

    /// The number of `name`: the one it already has, or the next free one.
    pub fn number_for(&mut self, name: &str) -> (r: usize)
        requires
            old(self).wf(),
            old(self).entries_view().len() < usize::MAX,
        ensures
            final(self).wf(),
            match assigned_number(old(self).entries_view(), name@) {
                Some(n) => r == n && final(self).entries_view() == old(self).entries_view(),
                Option::None => r == old(self).entries_view().len() + 1
                    && final(self).entries_view() == old(self).entries_view().push((name@, r)),
            },
    {
        let ghost pre = self.entries_view();
        proof {
            lemma_assigned_number_is_search(pre, name@);
        }
        let count = self.entries.len();
        let mut i: usize = 0;
        while i < count
            invariant
                i <= count,
                count == self.entries@.len(),
                pre == self.entries_view(),
                self.wf(),
                forall|j: int| 0 <= j < i ==> pre[j].0 != name@,
            decreases count - i,
        {
            if crate::text::str_eq(self.entries[i].0.as_str(), name) {
                proof {
                    assert(pre[i as int].0 == name@);
                    lemma_assigned_number_is_search(pre, name@);
                    match assigned_number(pre, name@) {
                        Some(n) => {
                            let j = choose|j: int|
                                0 <= j < pre.len() && pre[j].0 == name@ && pre[j].1 == n && (
                                forall|k: int| 0 <= k < j ==> pre[k].0 != name@);
                            assert(j == i as int);
                            assert(n == pre[i as int].1);
                        },
                        Option::None => {
                            assert(pre[i as int].0 != name@);
                        },
                    }
                    assert(pre[i as int].1 == self.entries@[i as int].1);
                }
                return self.entries[i].1;
            }
            i = i + 1;
        }
        proof {
            lemma_assigned_number_is_search(pre, name@);
            match assigned_number(pre, name@) {
                Some(n) => {
                    let j = choose|j: int|
                        0 <= j < pre.len() && pre[j].0 == name@ && pre[j].1 == n && (forall|
                            k: int,
                        | 0 <= k < j ==> pre[k].0 != name@);
                    assert(pre[j].0 != name@);
                },
                Option::None => {},
            }
        }
        let number = count + 1;
        let ghost old_entries = self.entries@;
        self.entries.push((name.to_owned(), number));
        proof {
            assert(self.entries_view() =~= pre.push((name@, number)));
            assert forall|k: int|
                0 <= k < self.entries@.len() implies #[trigger] self.entries@[k].1 == k + 1 by {
                if k < old_entries.len() {
                    assert(self.entries@[k] == old_entries[k]);
                    assert(old_entries[k].1 == k + 1);
                }
            }
        }
        number
    }
}

/// `assigned_number` finds exactly the first entry with the name.
proof fn lemma_assigned_number_is_search(entries: Seq<(Seq<char>, usize)>, name: Seq<char>)
    ensures
        assigned_number(entries, name) is None ==> forall|j: int|
            0 <= j < entries.len() ==> entries[j].0 != name,
        assigned_number(entries, name) matches Some(n) ==> exists|j: int|
            0 <= j < entries.len() && entries[j].0 == name && entries[j].1 == n && (forall|k: int|
                0 <= k < j ==> entries[k].0 != name),
    decreases entries.len(),
{
    if entries.len() > 0 && entries[0].0 != name {
        let t = entries.drop_first();
        lemma_assigned_number_is_search(t, name);
        assert(forall|j: int| 0 <= j < t.len() ==> #[trigger] t[j] == entries[j + 1]);
        match assigned_number(entries, name) {
            Some(n) => {
                let j = choose|j: int|
                    0 <= j < t.len() && t[j].0 == name && t[j].1 == n && (forall|k: int|
                        0 <= k < j ==> t[k].0 != name);
                assert(entries[j + 1].0 == name && entries[j + 1].1 == n);
                assert(forall|k: int| 0 <= k < j + 1 ==> entries[k].0 != name) by {
                    assert(forall|k: int| 1 <= k < j + 1 ==> entries[k] == t[k - 1]);
                }
            },
            Option::None => {
                assert forall|j: int| 0 <= j < entries.len() implies entries[j].0 != name by {
                    if j > 0 {
                        assert(t[j - 1].0 != name);
                        assert(entries[j] == t[j - 1]);
                    }
                }
            },
        }
    }
}


/// Replacement for one character in quoted HTML attribute text.
pub open spec fn attr_escape(c: char) -> Seq<char> {
    if c == '&' {
        seq!['&', 'a', 'm', 'p', ';']
    } else if c == '<' {
        seq!['&', 'l', 't', ';']
    } else if c == '>' {
        seq!['&', 'g', 't', ';']
    } else if c == '"' {
        seq!['&', 'q', 'u', 'o', 't', ';']
    } else if c == '\'' {
        seq!['&', '#', '3', '9', ';']
    } else {
        seq![c]
    }
}

/// `s` with every character escaped by [`attr_escape`].
pub open spec fn attr_escaped(s: Seq<char>) -> Seq<char>
    decreases s.len(),
{
    if s.len() == 0 {
        Seq::empty()
    } else {
        attr_escaped(s.drop_last()) + attr_escape(s.last())
    }
}

/// Escape text for a quoted HTML attribute.
pub fn escape_html_attr(text: &str) -> (r: String)
    ensures
        r@ == attr_escaped(text@),
{
    let n = text.unicode_len();
    let mut out = String::new();
    let mut i: usize = 0;
    while i < n
        invariant
            n == text@.len(),
            i <= n,
            out@ == attr_escaped(text@.subrange(0, i as int)),
        decreases n - i,
    {
        let c = text.get_char(i);
        let ghost pre = out@;
        match c {
            '&' => out.append("&amp;"),
            '<' => out.append("&lt;"),
            '>' => out.append("&gt;"),
            '"' => out.append("&quot;"),
            '\'' => out.append("&#39;"),
            _ => push_char(&mut out, c),
        }
        proof {
            reveal_strlit("&amp;");
            reveal_strlit("&lt;");
            reveal_strlit("&gt;");
            reveal_strlit("&quot;");
            reveal_strlit("&#39;");
            assert(out@ =~= pre + attr_escape(c));
            assert(text@.subrange(0, i + 1).drop_last() =~= text@.subrange(0, i as int));
            assert(text@.subrange(0, i + 1).last() == c);
        }
        i = i + 1;
    }
    proof {
        assert(text@.subrange(0, n as int) =~= text@);
    }
    out
}

/// Replacement for one character in HTML body text: only the three
/// characters that are special there.
pub open spec fn body_escape(c: char) -> Seq<char> {
    if c == '&' {
        seq!['&', 'a', 'm', 'p', ';']
    } else if c == '<' {
        seq!['&', 'l', 't', ';']
    } else if c == '>' {
        seq!['&', 'g', 't', ';']
    } else {
        seq![c]
    }
}

/// `s` with every character escaped by [`body_escape`].
pub open spec fn body_escaped(s: Seq<char>) -> Seq<char>
    decreases s.len(),
{
    if s.len() == 0 {
        Seq::empty()
    } else {
        body_escaped(s.drop_last()) + body_escape(s.last())
    }
}

/// Escape text for an HTML body position.
pub fn escape_html_body(text: &str) -> (r: String)
    ensures
        r@ == body_escaped(text@),
{
    let n = text.unicode_len();
    let mut out = String::new();
    let mut i: usize = 0;
    while i < n
        invariant
            n == text@.len(),
            i <= n,
            out@ == body_escaped(text@.subrange(0, i as int)),
        decreases n - i,
    {
        let c = text.get_char(i);
        let ghost pre = out@;
        match c {
            '&' => out.append("&amp;"),
            '<' => out.append("&lt;"),
            '>' => out.append("&gt;"),
            _ => push_char(&mut out, c),
        }
        proof {
            reveal_strlit("&amp;");
            reveal_strlit("&lt;");
            reveal_strlit("&gt;");
            assert(out@ =~= pre + body_escape(c));
            assert(text@.subrange(0, i + 1).drop_last() =~= text@.subrange(0, i as int));
            assert(text@.subrange(0, i + 1).last() == c);
        }
        i = i + 1;
    }
    proof {
        assert(text@.subrange(0, n as int) =~= text@);
    }
    out
}

/// Relies on std's `char::encode_utf8`: exactly the UTF-8 bytes of the
/// character.
#[verifier::external_body]
fn utf8_bytes(c: char) -> (r: Vec<u8>)
    ensures
        r@ == vstd::utf8::encode_scalar(c as u32),
{
    let mut buf = [0u8; 4];
    c.encode_utf8(&mut buf).as_bytes().to_vec()
}

/// The printable ASCII characters that may stand in a link target
/// unescaped.
pub open spec fn href_safe_ascii(c: char) -> bool {
    let v = c as u32;
    0x21 <= v < 0x7f && c != '"' && c != '&' && c != '\'' && c != '<' && c != '>' && c != '['
        && c != '\\' && c != ']' && c != '`' && c != '{' && c != '|' && c != '}'
}

/// One byte as a percent escape with uppercase hexadecimal digits.
pub open spec fn percent_byte(b: u8) -> Seq<char> {
    seq![
        '%',
        crate::sanitize::hex_digit_upper((b >> 4) as nat),
        crate::sanitize::hex_digit_upper((b & 0xf) as nat),
    ]
}

/// Every byte of `bs` as a percent escape.
pub open spec fn percent_bytes(bs: Seq<u8>) -> Seq<char>
    decreases bs.len(),
{
    if bs.len() == 0 {
        Seq::empty()
    } else {
        percent_bytes(bs.drop_last()) + percent_byte(bs.last())
    }
}

/// Replacement for one character in a link target: safe ASCII stands,
/// the ampersand and apostrophe become entities, and everything else is
/// percent-escaped byte by byte.
pub open spec fn href_escape(c: char) -> Seq<char> {
    if (c as u32) < 0x80 {
        if href_safe_ascii(c) {
            seq![c]
        } else if c == '&' {
            seq!['&', 'a', 'm', 'p', ';']
        } else if c == '\'' {
            seq!['&', '#', 'x', '2', '7', ';']
        } else {
            percent_byte((c as u32) as u8)
        }
    } else {
        percent_bytes(vstd::utf8::encode_scalar(c as u32))
    }
}

/// `s` with every character escaped by [`href_escape`].
pub open spec fn href_escaped(s: Seq<char>) -> Seq<char>
    decreases s.len(),
{
    if s.len() == 0 {
        Seq::empty()
    } else {
        href_escaped(s.drop_last()) + href_escape(s.last())
    }
}

fn append_percent_byte(out: &mut String, b: u8)
    ensures
        final(out)@ == old(out)@ + percent_byte(b),
{
    proof {
        assert((b >> 4) < 16 && (b & 0xf) < 16) by (bit_vector);
    }
    push_char(out, '%');
    push_char(out, crate::sanitize::hex_digit_upper_exec((b >> 4) as u32));
    push_char(out, crate::sanitize::hex_digit_upper_exec((b & 0xf) as u32));
    proof {
        assert(out@ =~= old(out)@ + percent_byte(b));
    }
}

/// Escape a link target for an HTML attribute.
pub fn escape_href_text(text: &str) -> (r: String)
    ensures
        r@ == href_escaped(text@),
{
    let n = text.unicode_len();
    let mut out = String::new();
    let mut i: usize = 0;
    while i < n
        invariant
            n == text@.len(),
            i <= n,
            out@ == href_escaped(text@.subrange(0, i as int)),
        decreases n - i,
    {
        let c = text.get_char(i);
        let ghost pre = out@;
        let v = c as u32;
        if v < 0x80 {
            let safe = 0x21 <= v && v < 0x7f && c != '"' && c != '&' && c != '\'' && c != '<' && c
                != '>' && c != '[' && c != '\\' && c != ']' && c != '`' && c != '{' && c != '|'
                && c != '}';
            if safe {
                push_char(&mut out, c);
            } else if c == '&' {
                out.append("&amp;");
                proof {
                    reveal_strlit("&amp;");
                }
            } else if c == '\'' {
                out.append("&#x27;");
                proof {
                    reveal_strlit("&#x27;");
                }
            } else {
                append_percent_byte(&mut out, v as u8);
            }
        } else {
            let bs = utf8_bytes(c);
            let m = bs.len();
            let mut j: usize = 0;
            while j < m
                invariant
                    j <= m,
                    m == bs@.len(),
                    pre == out@.subrange(0, pre.len() as int),
                    out@ == pre + percent_bytes(bs@.subrange(0, j as int)),
                decreases m - j,
            {
                let ghost mid = out@;
                append_percent_byte(&mut out, bs[j]);
                proof {
                    assert(bs@.subrange(0, j + 1).drop_last() =~= bs@.subrange(0, j as int));
                    assert(bs@.subrange(0, j + 1).last() == bs@[j as int]);
                    assert(out@ =~= pre + percent_bytes(bs@.subrange(0, j + 1)));
                }
                j = j + 1;
            }
            proof {
                assert(bs@.subrange(0, m as int) =~= bs@);
            }
        }
        proof {
            assert(out@ =~= pre + href_escape(c));
            assert(text@.subrange(0, i + 1).drop_last() =~= text@.subrange(0, i as int));
            assert(text@.subrange(0, i + 1).last() == c);
        }
        i = i + 1;
    }
    proof {
        assert(text@.subrange(0, n as int) =~= text@);
    }
    out
}

/// What lowercasing yields; the result depends on the characters alone.
pub uninterp spec fn lowercase_of(s: Seq<char>) -> Seq<char>;

/// Relies on `str::to_lowercase`: the result depends on the characters alone.
#[verifier::external_body]
fn to_lowercase(s: &str) -> (r: String)
    ensures
        r@ == lowercase_of(s@),
{
    s.to_lowercase()
}

/// One character of a heading identifier: whitespace becomes a dash.
pub open spec fn slug_char(c: char) -> char {
    if crate::text::white(c) {
        '-'
    } else {
        c
    }
}

/// The identifier generated for a heading: its text lowercased, with every
/// whitespace character turned into a dash.
pub open spec fn heading_slug_of(text: Seq<char>) -> Seq<char> {
    Seq::new(lowercase_of(text).len(), |i: int| slug_char(lowercase_of(text)[i]))
}

/// The identifier generated for a heading without an explicit one.
pub fn heading_slug(text: &str) -> (r: String)
    ensures
        r@ == heading_slug_of(text@),
{
    let lowered = to_lowercase(text);
    let l = lowered.as_str();
    let n = l.unicode_len();
    let mut out = String::new();
    let mut i: usize = 0;
    while i < n
        invariant
            i <= n,
            n == l@.len(),
            l@ == lowercase_of(text@),
            out@.len() == i,
            forall|j: int| 0 <= j < i ==> out@[j] == slug_char(l@[j]),
        decreases n - i,
    {
        let c = l.get_char(i);
        if crate::text::is_whitespace_char(c) {
            push_char(&mut out, '-');
        } else {
            push_char(&mut out, c);
        }
        i = i + 1;
    }
    proof {
        assert(out@ =~= heading_slug_of(text@));
    }
    out
}

} // verus!
