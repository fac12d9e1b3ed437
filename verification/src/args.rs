//! Command-line argument parsing.
//!
//! Arguments after the program name are read left to right: `-name` and
//! `-name=value` are flags while flag mode is on, `--` switches flag mode
//! off, and everything else is positional.  A flag listed as taking a
//! parameter consumes the following argument when it has no inline
//! `=value`.  The full recognition is pinned down by [`spec_tokenize`].

use vstd::prelude::*;

use crate::text::char_index;
use crate::text::find_char;
use crate::text::lemma_char_index;
use crate::text::str_eq;

verus! {

broadcast use vstd::string::group_string_axioms;

/// Errors from command-line argument parsing.
#[derive(Debug, Clone, PartialEq, Eq)]
pub enum ArgError {
    /// A boolean flag was given a value other than true/yes/false/no.
    InvalidBool(String),
    /// A flag that takes a parameter stood last, with nothing after it.
    MissingArg(String),
}

/// Parse a boolean flag; true is `-c` or `-c=true`/`-c=yes`, false is
/// `-c=false`/`-c=no`, anything else is rejected.
pub fn parse_flag_optional_bool(value: Option<&str>) -> (r: Result<bool, ArgError>)
    ensures
        value is None ==> r == Ok::<bool, ArgError>(true),
        value matches Some(s) ==> {
            &&& (s@ == "false"@ || s@ == "no"@) ==> r == Ok::<bool, ArgError>(false)
            &&& (s@ == "true"@ || s@ == "yes"@) ==> r == Ok::<bool, ArgError>(true)
            &&& !(s@ == "false"@ || s@ == "no"@ || s@ == "true"@ || s@ == "yes"@) ==> (
            r matches Err(ArgError::InvalidBool(t)) && t@ == s@)
        },
{
    proof {
        reveal_strlit("false");
        reveal_strlit("no");
        reveal_strlit("true");
        reveal_strlit("yes");
        assert("false"@.len() == 5);
        assert("no"@.len() == 2);
        assert("true"@.len() == 4);
        assert("yes"@.len() == 3);
    }
    match value {
        None => Ok(true),
        Some(s) => {
            if str_eq(s, "false") || str_eq(s, "no") {
                Ok(false)
            } else if str_eq(s, "true") || str_eq(s, "yes") {
                Ok(true)
            } else {
                Err(ArgError::InvalidBool(s.to_owned()))
            }
        },
    }
}

/// Parse a required parameter of the flag `flag`: the inline `=value` if one
/// was given, otherwise the next argument, otherwise an error naming the flag.
pub fn parse_param(flag: &str, next: Option<String>, inline: Option<&str>) -> (r: Result<
    String,
    ArgError,
>)
    ensures
        inline matches Some(v) ==> (r matches Ok(s) && s@ == v@),
        inline is None ==> (next matches Some(a) ==> (r matches Ok(s) && s == a)),
        inline is None && next is None ==> (r matches Err(ArgError::MissingArg(f)) && f@ == flag@),
{
    match inline {
        Some(v) => Ok(v.to_owned()),
        None => match next {
            Some(a) => Ok(a),
            None => Err(ArgError::MissingArg(flag.to_owned())),
        },
    }
}

/// One recognised command-line item.
#[derive(Debug, Clone, PartialEq, Eq)]
pub enum ArgItem {
    /// A flag, with its inline or consumed parameter if it had one.
    Flag { name: String, value: Option<String> },
    /// A positional argument and its position among the positionals.
    Positional { index: usize, value: String },
}

/// Spec-level shape of one recognised item.
pub ghost enum ArgToken {
    Flag { name: Seq<char>, value: Option<Seq<char>> },
    Positional { index: nat, value: Seq<char> },
}

impl View for ArgItem {
    type V = ArgToken;

    open spec fn view(&self) -> ArgToken {
        match self {
            ArgItem::Flag { name, value } => ArgToken::Flag {
                name: name@,
                value: match value {
                    Some(v) => Some(v@),
                    None => None,
                },
            },
            ArgItem::Positional { index, value } => ArgToken::Positional {
                index: *index as nat,
                value: value@,
            },
        }
    }
}

impl DeepView for ArgItem {
    type V = ArgToken;

    open spec fn deep_view(&self) -> ArgToken {
        self.view()
    }
}

/// The program name and the recognised items, in order.
#[derive(Debug, Clone, PartialEq, Eq)]
pub struct ParsedArgs {
    pub arg0: String,
    pub items: Vec<ArgItem>,
}

/// Recognition of the arguments from position `i` on.  `in_flags` is flag
/// mode, `pos_index` the position of the next positional, `param_flags` the
/// names of flags that consume a following argument as their parameter.  An
/// `Err` carries the name of a parameter-taking flag that stood last.
pub open spec fn spec_tokenize(
    args: Seq<Seq<char>>,
    i: int,
    in_flags: bool,
    pos_index: nat,
    param_flags: Seq<Seq<char>>,
) -> Result<Seq<ArgToken>, Seq<char>>
    decreases args.len() - i,
    when i <= args.len()
{
    if i < 0 || i >= args.len() {
        Ok(Seq::empty())
    } else {
        let a = args[i];
        if in_flags && a.len() > 0 && a[0] == '-' {
            let body = a.skip(1);
            let eq = char_index(body, '=');
            let name = if eq >= 0 {
                body.take(eq)
            } else {
                body
            };
            let inline = if eq >= 0 {
                Some(body.skip(eq + 1))
            } else {
                Option::<Seq<char>>::None
            };
            if name == seq!['-'] && inline is None {
                spec_tokenize(args, i + 1, false, pos_index, param_flags)
            } else if inline is None && param_flags.contains(name) {
                if i + 1 < args.len() {
                    match spec_tokenize(args, i + 2, true, pos_index, param_flags) {
                        Ok(rest) => Ok(
                            seq![ArgToken::Flag { name, value: Some(args[i + 1]) }] + rest,
                        ),
                        Err(e) => Err(e),
                    }
                } else {
                    Err(name)
                }
            } else {
                match spec_tokenize(args, i + 1, true, pos_index, param_flags) {
                    Ok(rest) => Ok(seq![ArgToken::Flag { name, value: inline }] + rest),
                    Err(e) => Err(e),
                }
            }
        } else {
            match spec_tokenize(args, i + 1, in_flags, pos_index + 1, param_flags) {
                Ok(rest) => Ok(seq![ArgToken::Positional { index: pos_index, value: a }] + rest),
                Err(e) => Err(e),
            }
        }
    }
}

/// Whether some element of `v` equals `s`, character for character.
pub fn contains_str(v: &Vec<String>, s: &str) -> (r: bool)
    ensures
        r == v.deep_view().contains(s@),
{
    let n = v.len();
    let mut i: usize = 0;
    while i < n
        invariant
            n == v@.len(),
            i <= n,
            forall|j: int| 0 <= j < i ==> v.deep_view()[j] != s@,
        decreases n - i,
    {
        if str_eq(v[i].as_str(), s) {
            proof {
                assert(v.deep_view()[i as int] == s@);
            }
            return true;
        }
        i = i + 1;
    }
    false
}

/// Read the whole command line: the program name (or "unknown" when even
/// that is absent), then every flag and positional as [`spec_tokenize`]
/// recognises them.
pub fn parse_args(args: Vec<String>, param_flags: &Vec<String>) -> (r: Result<
    ParsedArgs,
    ArgError,
>)
    ensures
        args@.len() == 0 ==> (r matches Ok(p) && p.arg0@ == "unknown"@ && p.items@.len() == 0),
        args@.len() > 0 ==> match spec_tokenize(
            args.deep_view(),
            1,
            true,
            0,
            param_flags.deep_view(),
        ) {
            Ok(toks) => (r matches Ok(p) && p.arg0 == args@[0] && p.items.deep_view() == toks),
            Err(name) => (r matches Err(ArgError::MissingArg(f)) && f@ == name),
        },
{
    let n = args.len();
    if n == 0 {
        return Ok(ParsedArgs { arg0: "unknown".to_owned(), items: Vec::new() });
    }
    let ghost dv = args.deep_view();
    let ghost pf = param_flags.deep_view();
    let arg0 = args[0].clone();
    let mut items: Vec<ArgItem> = Vec::new();
    let mut i: usize = 1;
    let mut in_flags = true;
    let mut pos_index: usize = 0;
    proof {
        assert(dv.len() == n);
    }
    while i < n
        invariant
            1 <= i <= n,
            pos_index < i,
            n == args@.len(),
            dv == args.deep_view(),
            pf == param_flags.deep_view(),
            dv.len() == n,
            spec_tokenize(dv, 1, true, 0, pf) == (match spec_tokenize(
                dv,
                i as int,
                in_flags,
                pos_index as nat,
                pf,
            ) {
                Ok(rest) => Ok::<Seq<ArgToken>, Seq<char>>(items.deep_view() + rest),
                Err(e) => Err::<Seq<ArgToken>, Seq<char>>(e),
            }),
        decreases n - i,
    {
        let arg = &args[i];
        proof {
            assert(dv[i as int] == args@[i as int]@);
        }
        let arg_len = arg.as_str().unicode_len();
        if in_flags && arg_len > 0 && arg.as_str().get_char(0) == '-' {
            let body = arg.as_str().substring_char(1, arg_len);
            proof {
                assert(body@ =~= dv[i as int].skip(1));
                lemma_char_index(body@, '=');
            }
            let eq = find_char(body, '=');
            let ghost spec_eq = char_index(body@, '=');
            proof {
                match eq {
                    Some(k) => {
                        assert(spec_eq == k as int);
                    },
                    None => {
                        assert(spec_eq == -1) by {
                            if spec_eq >= 0 {
                                assert(body@[spec_eq] == '=');
                            }
                        }
                    },
                }
            }
            let body_len = body.unicode_len();
            let (name, inline): (&str, Option<&str>) = match eq {
                Some(k) => (body.substring_char(0, k), Some(body.substring_char(k + 1, body_len))),
                None => (body, None),
            };
            proof {
                if spec_eq >= 0 {
                    assert(name@ =~= body@.take(spec_eq));
                    assert(inline matches Some(v) && v@ =~= body@.skip(spec_eq + 1));
                }
            }
            let is_end_of_flags = str_eq(name, "-") && inline.is_none();
            proof {
                reveal_strlit("-");
                assert("-"@ =~= seq!['-']);
            }
            if is_end_of_flags {
                in_flags = false;
                i = i + 1;
            } else if inline.is_none() && contains_str(param_flags, name) {
                if i + 1 < n {
                    let param = args[i + 1].clone();
                    let ghost pre = items.deep_view();
                    items.push(
                        ArgItem::Flag { name: name.to_owned(), value: Some(param) },
                    );
                    proof {
                        assert(dv[i as int + 1] == args@[i as int + 1]@);
                        assert(items.deep_view() =~= pre + seq![
                            ArgToken::Flag { name: name@, value: Some(dv[i as int + 1]) },
                        ]);
                        match spec_tokenize(dv, i + 2, true, pos_index as nat, pf) {
                            Ok(rest) => {
                                assert((pre + seq![
                                    ArgToken::Flag { name: name@, value: Some(dv[i as int + 1]) },
                                ]) + rest =~= pre + (seq![
                                    ArgToken::Flag { name: name@, value: Some(dv[i as int + 1]) },
                                ] + rest));
                            },
                            Err(_) => {},
                        }
                    }
                    i = i + 2;
                } else {
                    return Err(ArgError::MissingArg(name.to_owned()));
                }
            } else {
                let value: Option<String> = match inline {
                    Some(v) => Some(v.to_owned()),
                    None => None,
                };
                let ghost tok = ArgToken::Flag {
                    name: name@,
                    value: match inline {
                        Some(v) => Some(v@),
                        None => None,
                    },
                };
                let ghost pre = items.deep_view();
                items.push(ArgItem::Flag { name: name.to_owned(), value });
                proof {
                    assert(items.deep_view() =~= pre + seq![tok]);
                    match spec_tokenize(dv, i + 1, true, pos_index as nat, pf) {
                        Ok(rest) => {
                            assert((pre + seq![tok]) + rest =~= pre + (seq![tok] + rest));
                        },
                        Err(_) => {},
                    }
                }
                i = i + 1;
            }
        } else {
            let ghost tok = ArgToken::Positional { index: pos_index as nat, value: dv[i as int] };
            let ghost pre = items.deep_view();
            items.push(ArgItem::Positional { index: pos_index, value: args[i].clone() });
            proof {
                assert(items.deep_view() =~= pre + seq![tok]);
                match spec_tokenize(dv, i + 1, in_flags, pos_index as nat + 1, pf) {
                    Ok(rest) => {
                        assert((pre + seq![tok]) + rest =~= pre + (seq![tok] + rest));
                    },
                    Err(_) => {},
                }
            }
            pos_index = pos_index + 1;
            i = i + 1;
        }
    }
    proof {
        assert(spec_tokenize(dv, n as int, in_flags, pos_index as nat, pf) == Ok::<
            Seq<ArgToken>,
            Seq<char>,
        >(Seq::empty()));
        assert(items.deep_view() + Seq::<ArgToken>::empty() =~= items.deep_view());
    }
    Ok(ParsedArgs { arg0, items })
}

} // verus!
