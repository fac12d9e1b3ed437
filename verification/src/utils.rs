//! Small helpers shared by the runtime: text consumption and the
//! indented, numbered rendering of an error with its chain of causes.

pub mod parse;
pub mod parse_mut;

use vstd::prelude::*;

use crate::text::char_index;
use crate::text::dec_digits;
use crate::text::find_char;
use crate::text::left_padded;
use crate::text::lemma_char_index;
use crate::text::pad_left;
use crate::text::u64_to_dec;

verus! {

broadcast use vstd::string::group_string_axioms;

/// `n` spaces.
pub open spec fn spaces(n: nat) -> Seq<char> {
    Seq::new(n, |i: int| ' ')
}

/// Every line of `s` after the first, each on a new line behind `indent`
/// spaces.
pub open spec fn indented_tail(s: Seq<char>, indent: nat) -> Seq<char>
    decreases s.len(),
    via indented_tail_decreases
{
    let i = char_index(s, '\n');
    if i < 0 {
        seq!['\n'] + spaces(indent) + s
    } else {
        seq!['\n'] + spaces(indent) + s.take(i) + indented_tail(s.skip(i + 1), indent)
    }
}

#[via_fn]
proof fn indented_tail_decreases(s: Seq<char>, indent: nat) {
    lemma_char_index(s, '\n');
}

/// `s` with its first line behind the right-aligned `prefix` and every
/// further line behind `indent` spaces.
pub open spec fn indented_text(s: Seq<char>, indent: nat, prefix: Seq<char>) -> Seq<char> {
    let i = char_index(s, '\n');
    if i < 0 {
        left_padded(prefix, indent, ' ') + s
    } else {
        left_padded(prefix, indent, ' ') + s.take(i) + indented_tail(s.skip(i + 1), indent)
    }
}

/// The numbered cause block: each cause on a new line under its number.
pub open spec fn causes_block(causes: Seq<Seq<char>>, n: nat) -> Seq<char>
    decreases causes.len(),
{
    if causes.len() == 0 {
        Seq::empty()
    } else {
        seq!['\n'] + indented_text(causes[0], 7, dec_digits(n) + seq![':', ' ']) + causes_block(
            causes.drop_first(),
            n + 1,
        )
    }
}

/// The full report: the message alone, or the message, a header, and the
/// numbered causes.
pub open spec fn error_report(msg: Seq<char>, causes: Seq<Seq<char>>) -> Seq<char> {
    if causes.len() == 0 {
        msg
    } else {
        msg + "\n\nCaused by:"@ + causes_block(causes, 0)
    }
}

/// Append `s` to `out` with its first line behind the right-aligned
/// `prefix` and every further line indented.
fn append_indented(out: &mut String, s: &str, prefix: &str, indent: usize)
    ensures
        final(out)@ == old(out)@ + indented_text(s@, indent as nat, prefix@),
{
    let ghost target = old(out)@ + indented_text(s@, indent as nat, prefix@);
    let padded = pad_left(prefix, indent, ' ');
    out.append(padded.as_str());
    let sp = pad_left("", indent, ' ');
    proof {
        reveal_strlit("");
        assert(sp@ =~= spaces(indent as nat));
    }
    let n = s.unicode_len();
    let first_break = find_char(s, '\n');
    let mut rest: &str = s;
    match first_break {
        None => {
            out.append(s);
            proof {
                assert(out@ =~= target);
            }
            return ;
        },
        Some(i) => {
            out.append(s.substring_char(0, i));
            rest = s.substring_char(i + 1, n);
            proof {
                assert(rest@ =~= s@.skip(i + 1));
                assert(out@ + indented_tail(rest@, indent as nat) =~= target);
            }
        },
    }
    loop
        invariant
            sp@ == spaces(indent as nat),
            target == old(out)@ + indented_text(s@, indent as nat, prefix@),
            out@ + indented_tail(rest@, indent as nat) == target,
        decreases rest@.len(),
    {
        let ghost pre = out@;
        out.append("\n");
        out.append(sp.as_str());
        proof {
            reveal_strlit("\n");
        }
        let rn = rest.unicode_len();
        match find_char(rest, '\n') {
            None => {
                out.append(rest);
                proof {
                    assert(out@ =~= pre + indented_tail(rest@, indent as nat));
                    assert(out@ =~= target);
                }
                return ;
            },
            Some(j) => {
                out.append(rest.substring_char(0, j));
                let next = rest.substring_char(j + 1, rn);
                proof {
                    assert(next@ =~= rest@.skip(j + 1));
                    assert(out@ + indented_tail(next@, indent as nat) =~= pre + indented_tail(
                        rest@,
                        indent as nat,
                    ));
                }
                rest = next;
            },
        }
    }
}

/// Render an error report: the message, then its chain of causes, each
/// numbered and indented as `Caused by:` entries.
pub fn format_error(message: &str, causes: &Vec<String>) -> (r: String)
    ensures
        r@ == error_report(message@, causes.deep_view()),
{
    let ghost dv = causes.deep_view();
    let mut out = message.to_owned();
    if causes.len() == 0 {
        return out;
    }
    out.append("\n\nCaused by:");
    let count = causes.len();
    let mut n: usize = 0;
    proof {
        assert(dv.skip(0) =~= dv);
    }
    while n < count
        invariant
            n <= count,
            count == causes@.len(),
            dv == causes.deep_view(),
            count >= 1,
            out@ + causes_block(dv.skip(n as int), n as nat) == error_report(message@, dv),
        decreases count - n,
    {
        let ghost pre = out@;
        let ghost remaining = dv.skip(n as int);
        out.append("\n");
        let mut prefix = u64_to_dec(n as u64);
        prefix.append(": ");
        proof {
            reveal_strlit("\n");
            reveal_strlit(": ");
            assert(prefix@ =~= dec_digits(n as nat) + seq![':', ' ']);
            assert(remaining[0] == dv[n as int]);
            assert(dv[n as int] == causes@[n as int]@);
        }
        append_indented(&mut out, causes[n].as_str(), prefix.as_str(), 7);
        proof {
            assert(remaining.drop_first() =~= dv.skip(n + 1));
            assert(out@ + causes_block(dv.skip(n + 1), (n + 1) as nat) =~= pre + causes_block(
                remaining,
                n as nat,
            ));
        }
        n = n + 1;
    }
    proof {
        assert(dv.skip(count as int) =~= Seq::<Seq<char>>::empty());
        assert(out@ + Seq::<char>::empty() =~= out@);
    }
    out
}

/// The same report as [`format_error`], as a value to display.
pub fn format_error_disp(message: &str, causes: &Vec<String>) -> (r: String)
    ensures
        r@ == error_report(message@, causes.deep_view()),
{
    format_error(message, causes)
}

} // verus!
