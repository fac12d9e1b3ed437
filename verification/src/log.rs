//! Log-line presentation: turning ANSI-coloured terminal output into HTML.
//!
//! The input is first stripped of any markup of its own, then every ANSI
//! `ESC [ ... <final>` control sequence becomes a `<span class='ansi-...'>`
//! (the reset sequence `ESC [ 0 m` closes every open span), and every span
//! still open at the end is closed.

use vstd::prelude::*;

use crate::sanitize::ammonia_stripped;
use crate::sanitize::sanitize_html_to_text;
use crate::text::push_char;

verus! {

broadcast use vstd::string::group_string_axioms;

/// A parameter byte of an ANSI control sequence.
pub open spec fn is_param_char(c: char) -> bool {
    0x30 <= (c as u32) <= 0x3f
}

/// An intermediate byte of an ANSI control sequence.
pub open spec fn is_interm_char(c: char) -> bool {
    0x20 <= (c as u32) <= 0x2f
}

/// A final byte of an ANSI control sequence.
pub open spec fn is_final_char(c: char) -> bool {
    0x40 <= (c as u32) <= 0x7e
}

/// Length of the unbroken run of parameter bytes at the head of `s`.
pub open spec fn param_run(s: Seq<char>) -> nat
    decreases s.len(),
{
    if s.len() == 0 {
        0
    } else if !is_param_char(s[0]) {
        0
    } else {
        1 + param_run(s.drop_first())
    }
}

/// Length of the unbroken run of intermediate bytes at the head of `s`.
pub open spec fn interm_run(s: Seq<char>) -> nat
    decreases s.len(),
{
    if s.len() == 0 {
        0
    } else if !is_interm_char(s[0]) {
        0
    } else {
        1 + interm_run(s.drop_first())
    }
}

/// `param_run` counts exactly the leading parameter bytes.
pub proof fn lemma_param_run(s: Seq<char>)
    ensures
        param_run(s) <= s.len(),
        forall|j: int| 0 <= j < param_run(s) ==> is_param_char(s[j]),
        param_run(s) < s.len() ==> !is_param_char(s[param_run(s) as int]),
    decreases s.len(),
{
    if s.len() > 0 && is_param_char(s[0]) {
        let t = s.drop_first();
        lemma_param_run(t);
        assert(forall|j: int| 0 <= j < t.len() ==> #[trigger] t[j] == s[j + 1]);
        assert forall|j: int| 0 <= j < param_run(s) implies is_param_char(s[j]) by {
            if j > 0 {
                assert(is_param_char(t[j - 1]));
            }
        }
    }
}

/// `interm_run` counts exactly the leading intermediate bytes.
pub proof fn lemma_interm_run(s: Seq<char>)
    ensures
        interm_run(s) <= s.len(),
        forall|j: int| 0 <= j < interm_run(s) ==> is_interm_char(s[j]),
        interm_run(s) < s.len() ==> !is_interm_char(s[interm_run(s) as int]),
    decreases s.len(),
{
    if s.len() > 0 && is_interm_char(s[0]) {
        let t = s.drop_first();
        lemma_interm_run(t);
        assert(forall|j: int| 0 <= j < t.len() ==> #[trigger] t[j] == s[j + 1]);
        assert forall|j: int| 0 <= j < interm_run(s) implies is_interm_char(s[j]) by {
            if j > 0 {
                assert(is_interm_char(t[j - 1]));
            }
        }
    }
}

/// `count` closing span tags.
pub open spec fn close_spans(count: nat) -> Seq<char>
    decreases count,
{
    if count == 0 {
        Seq::empty()
    } else {
        close_spans((count - 1) as nat) + seq!['<', '/', 's', 'p', 'a', 'n', '>']
    }
}

/// The opening span tag written for one ANSI control sequence.
pub open spec fn open_span(params: Seq<char>, interm: Seq<char>, end: char) -> Seq<char> {
    seq!['<', 's', 'p', 'a', 'n', ' ', 'c', 'l', 'a', 's', 's', '=', '\'', 'a', 'n', 's', 'i', '-']
        + params + interm + seq![end] + seq!['\'', '>']
}

/// The HTML for the text `s` with `count` spans currently open: ANSI control
/// sequences become spans, a reset closes all open spans, a malformed
/// sequence introducer passes through, and the end closes what stays open.
pub open spec fn ansi_converted(s: Seq<char>, count: nat) -> Seq<char>
    decreases s.len(),
    via ansi_converted_decreases
{
    if s.len() == 0 {
        close_spans(count)
    } else if s.len() >= 2 && s[0] == '\u{1b}' && s[1] == '[' {
        let rest = s.skip(2);
        let np = param_run(rest);
        let rest2 = rest.skip(np as int);
        let ni = interm_run(rest2);
        let rest3 = rest2.skip(ni as int);
        if rest3.len() > 0 && is_final_char(rest3[0]) {
            let params = rest.take(np as int);
            let interm = rest2.take(ni as int);
            let end = rest3[0];
            let tail = rest3.skip(1);
            if params == seq!['0'] && interm == Seq::<char>::empty() && end == 'm' {
                close_spans(count) + ansi_converted(tail, 0)
            } else {
                open_span(params, interm, end) + ansi_converted(tail, (count + 1) as nat)
            }
        } else {
            seq!['\u{1b}', '['] + ansi_converted(rest, count)
        }
    } else {
        seq![s[0]] + ansi_converted(s.drop_first(), count)
    }
}

#[via_fn]
proof fn ansi_converted_decreases(s: Seq<char>, count: nat) {
    if s.len() >= 2 && s[0] == '\u{1b}' && s[1] == '[' {
        let rest = s.skip(2);
        lemma_param_run(rest);
        lemma_interm_run(rest.skip(param_run(rest) as int));
    }
}

fn is_param_char_exec(c: char) -> (r: bool)
    ensures
        r == is_param_char(c),
{
    let v = c as u32;
    0x30 <= v && v <= 0x3f
}

fn is_interm_char_exec(c: char) -> (r: bool)
    ensures
        r == is_interm_char(c),
{
    let v = c as u32;
    0x20 <= v && v <= 0x2f
}

fn is_final_char_exec(c: char) -> (r: bool)
    ensures
        r == is_final_char(c),
{
    let v = c as u32;
    0x40 <= v && v <= 0x7e
}

/// Count the parameter bytes of `s` from position `from` on.
fn scan_params(s: &str, from: usize) -> (r: usize)
    requires
        from <= s@.len(),
        s@.len() <= usize::MAX,
    ensures
        r as nat == param_run(s@.skip(from as int)),
        from + r <= s@.len(),
{
    let ghost suffix = s@.skip(from as int);
    let n = s.unicode_len();
    let mut j: usize = from;
    while j < n
        invariant
            from <= j <= n,
            n == s@.len(),
            suffix == s@.skip(from as int),
            forall|k: int| 0 <= k < j - from ==> is_param_char(suffix[k]),
        decreases n - j,
    {
        let c = s.get_char(j);
        proof {
            assert(suffix[j - from] == s@[j as int]);
        }
        if !is_param_char_exec(c) {
            proof {
                lemma_param_run(suffix);
            }
            return j - from;
        }
        j = j + 1;
    }
    proof {
        lemma_param_run(suffix);
    }
    n - from
}

/// Count the intermediate bytes of `s` from position `from` on.
fn scan_interm(s: &str, from: usize) -> (r: usize)
    requires
        from <= s@.len(),
        s@.len() <= usize::MAX,
    ensures
        r as nat == interm_run(s@.skip(from as int)),
        from + r <= s@.len(),
{
    let ghost suffix = s@.skip(from as int);
    let n = s.unicode_len();
    let mut j: usize = from;
    while j < n
        invariant
            from <= j <= n,
            n == s@.len(),
            suffix == s@.skip(from as int),
            forall|k: int| 0 <= k < j - from ==> is_interm_char(suffix[k]),
        decreases n - j,
    {
        let c = s.get_char(j);
        proof {
            assert(suffix[j - from] == s@[j as int]);
        }
        if !is_interm_char_exec(c) {
            proof {
                lemma_interm_run(suffix);
            }
            return j - from;
        }
        j = j + 1;
    }
    proof {
        lemma_interm_run(suffix);
    }
    n - from
}

/// Append `count` closing span tags to `out`.
fn append_close_spans(out: &mut String, count: usize)
    ensures
        final(out)@ == old(out)@ + close_spans(count as nat),
{
    let ghost target = old(out)@ + close_spans(count as nat);
    let mut left: usize = count;
    while left > 0
        invariant
            out@ + close_spans(left as nat) == target,
        decreases left,
    {
        let ghost mid = out@;
        out.append("</span>");
        proof {
            reveal_strlit("</span>");
            assert(out@ =~= mid + seq!['<', '/', 's', 'p', 'a', 'n', '>']);
            lemma_close_spans_commute((left - 1) as nat);
            assert(out@ + close_spans((left - 1) as nat) =~= mid + close_spans(left as nat));
        }
        left = left - 1;
    }
    proof {
        assert(out@ + Seq::<char>::empty() =~= out@);
    }
}

/// One more closing tag commutes over a block of closing tags.
proof fn lemma_close_spans_commute(count: nat)
    ensures
        close_spans(count) + seq!['<', '/', 's', 'p', 'a', 'n', '>'] == seq![
            '<',
            '/',
            's',
            'p',
            'a',
            'n',
            '>',
        ] + close_spans(count),
    decreases count,
{
    if count > 0 {
        lemma_close_spans_commute((count - 1) as nat);
        assert(close_spans(count) + seq!['<', '/', 's', 'p', 'a', 'n', '>'] =~= seq![
            '<',
            '/',
            's',
            'p',
            'a',
            'n',
            '>',
        ] + close_spans(count));
    }
}

/// Render one log line as HTML: strip any markup, then translate ANSI
/// colour sequences into spans.
#[verifier::rlimit(100)]
pub fn ansi_to_html(msg: &str) -> (r: String)
    ensures
        r@ == ansi_converted(ammonia_stripped(msg@), 0),
{
    let stripped = sanitize_html_to_text(msg);
    let s = stripped.as_str();
    let n = s.unicode_len();
    let mut out = String::new();
    let mut count: usize = 0;
    let mut i: usize = 0;
    proof {
        assert(s@.skip(0) =~= s@);
        assert(Seq::<char>::empty() + ansi_converted(s@, 0) =~= ansi_converted(s@, 0));
    }
    while i < n
        invariant
            i <= n,
            count <= i,
            n == s@.len(),
            s@ == ammonia_stripped(msg@),
            ansi_converted(s@, 0) == out@ + ansi_converted(s@.skip(i as int), count as nat),
        decreases n - i,
    {
        let ghost rem = s@.skip(i as int);
        let ghost count0 = count as nat;
        let ghost pre = out@;
        let c = s.get_char(i);
        proof {
            assert(rem[0] == s@[i as int]);
            if i + 1 < n {
                assert(rem[1] == s@[i + 1]);
            }
        }
        if c == '\u{1b}' && i + 1 < n && s.get_char(i + 1) == '[' {
            let ghost rest = rem.skip(2);
            proof {
                assert(rest =~= s@.skip(i + 2));
            }
            let np = scan_params(s, i + 2);
            let ghost rest2 = rest.skip(np as int);
            proof {
                assert(rest2 =~= s@.skip(i + 2 + np));
            }
            let ni = scan_interm(s, i + 2 + np);
            let ghost rest3 = rest2.skip(ni as int);
            proof {
                assert(rest3 =~= s@.skip(i + 2 + np + ni));
            }
            let endpos = i + 2 + np + ni;
            if endpos < n && is_final_char_exec(s.get_char(endpos)) {
                let end = s.get_char(endpos);
                let ghost params = rest.take(np as int);
                let ghost interm = rest2.take(ni as int);
                let ghost tail = rest3.skip(1);
                proof {
                    assert(rest3[0] == s@[endpos as int]);
                    assert(tail =~= s@.skip(endpos + 1));
                    assert(params =~= s@.subrange(i + 2, i + 2 + np));
                    assert(interm =~= s@.subrange(i + 2 + np, i + 2 + np + ni));
                }
                let is_reset = np == 1 && ni == 0 && s.get_char(i + 2) == '0' && end == 'm';
                proof {
                    if np == 1 {
                        assert(params[0] == s@[i + 2]);
                        if s@[i + 2] == '0' {
                            assert(params =~= seq!['0']);
                        } else {
                            assert(params != seq!['0']);
                        }
                    } else {
                        assert(params.len() != 1);
                        assert(params != seq!['0']);
                    }
                    if ni == 0 {
                        assert(interm =~= Seq::<char>::empty());
                    } else {
                        assert(interm.len() != 0);
                    }
                }
                if is_reset {
                    append_close_spans(&mut out, count);
                    count = 0;
                    proof {
                        assert(pre + (close_spans(count0) + ansi_converted(tail, 0)) =~= (pre
                            + close_spans(count0)) + ansi_converted(tail, 0));
                    }
                } else {
                    out.append("<span class='ansi-");
                    let piece = s.substring_char(i + 2, endpos);
                    out.append(piece);
                    push_char(&mut out, end);
                    out.append("'>");
                    count = count + 1;
                    proof {
                        reveal_strlit("<span class='ansi-");
                        reveal_strlit("'>");
                        assert(piece@ =~= params + interm);
                        assert(out@ =~= pre + open_span(params, interm, end));
                        assert(pre + (open_span(params, interm, end) + ansi_converted(
                            tail,
                            count0 + 1,
                        )) =~= (pre + open_span(params, interm, end)) + ansi_converted(
                            tail,
                            count0 + 1,
                        ));
                    }
                }
                i = endpos + 1;
            } else {
                push_char(&mut out, '\u{1b}');
                push_char(&mut out, '[');
                proof {
                    assert(out@ =~= pre + seq!['\u{1b}', '[']);
                    assert(pre + (seq!['\u{1b}', '['] + ansi_converted(rest, count0)) =~= (pre
                        + seq!['\u{1b}', '[']) + ansi_converted(rest, count0));
                }
                i = i + 2;
            }
        } else {
            push_char(&mut out, c);
            proof {
                assert(out@ =~= pre + seq![c]);
                assert(rem.drop_first() =~= s@.skip(i + 1));
                assert(pre + (seq![c] + ansi_converted(rem.drop_first(), count0)) =~= (pre + seq![
                    c,
                ]) + ansi_converted(rem.drop_first(), count0));
            }
            i = i + 1;
        }
    }
    proof {
        assert(s@.skip(n as int) =~= Seq::<char>::empty());
    }
    append_close_spans(&mut out, count);
    out
}

} // verus!
