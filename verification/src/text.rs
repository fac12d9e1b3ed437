//! Small verified string utilities: equality and search over `&str`,
//! decimal rendering of integers, and padding.

use vstd::prelude::*;

verus! {

/// Relies on std's `String::push`: appends exactly the one character.
#[verifier::external_body]
pub fn push_char(s: &mut String, c: char)
    ensures
        final(s)@ == old(s)@.push(c),
{
    s.push(c);
}

/// Relies on std's `String::from_iter`: the string of exactly these
/// characters.
#[verifier::external_body]
pub fn chars_to_string(v: &Vec<char>) -> (s: String)
    ensures
        s@ == v@,
{
    v.iter().collect()
}

/// Whether a character counts as whitespace; a fixed property of the
/// character alone.
pub uninterp spec fn white(c: char) -> bool;

/// Relies on std's `char::is_whitespace`: a fixed property of the character.
#[verifier::external_body]
pub fn is_whitespace_char(c: char) -> (r: bool)
    ensures
        r == white(c),
{
    c.is_whitespace()
}

/// The views of a sequence of string pairs.
pub open spec fn pair_views(s: Seq<(String, String)>) -> Seq<(Seq<char>, Seq<char>)> {
    s.map_values(|p: (String, String)| (p.0@, p.1@))
}

/// Character-wise equality of two string slices.
pub fn str_eq(a: &str, b: &str) -> (r: bool)
    ensures
        r == (a@ == b@),
{
    let n = a.unicode_len();
    let m = b.unicode_len();
    if n != m {
        proof {
            assert(a@ != b@) by {
                assert(a@.len() != b@.len());
            }
        }
        return false;
    }
    let mut i: usize = 0;
    while i < n
        invariant
            n == a@.len(),
            n == b@.len(),
            i <= n,
            forall|j: int| 0 <= j < i ==> a@[j] == b@[j],
        decreases n - i,
    {
        if a.get_char(i) != b.get_char(i) {
            return false;
        }
        i = i + 1;
    }
    proof {
        assert(a@ =~= b@);
    }
    true
}

/// Whether `p` occurs in `s` starting at position `i`.
pub open spec fn is_substring_at(s: Seq<char>, p: Seq<char>, i: int) -> bool {
    0 <= i && i + p.len() <= s.len() && s.subrange(i, i + p.len() as int) == p
}

/// First position where the character `c` occurs in `s`, if any.
pub fn find_char(s: &str, c: char) -> (r: Option<usize>)
    ensures
        r matches Some(i) ==> i < s@.len() && s@[i as int] == c && forall|j: int|
            0 <= j < i ==> s@[j] != c,
        r is None ==> forall|j: int| 0 <= j < s@.len() ==> s@[j] != c,
        r matches Some(i) ==> i as int == char_index(s@, c),
        r is None ==> char_index(s@, c) == -1,
{
    let n = s.unicode_len();
    let mut i: usize = 0;
    while i < n
        invariant
            n == s@.len(),
            i <= n,
            forall|j: int| 0 <= j < i ==> s@[j] != c,
        decreases n - i,
    {
        if s.get_char(i) == c {
            proof {
                lemma_char_index(s@, c);
                if char_index(s@, c) != i as int {
                    assert(s@[char_index(s@, c)] == c);
                }
            }
            return Some(i);
        }
        i = i + 1;
    }
    proof {
        lemma_char_index(s@, c);
        if char_index(s@, c) >= 0 {
            assert(s@[char_index(s@, c)] == c);
        }
    }
    None
}

/// Whether `s` starts with `p`.
pub fn str_starts_with(s: &str, p: &str) -> (r: bool)
    ensures
        r == is_substring_at(s@, p@, 0),
{
    let n = s.unicode_len();
    let m = p.unicode_len();
    if m > n {
        return false;
    }
    let mut i: usize = 0;
    while i < m
        invariant
            n == s@.len(),
            m == p@.len(),
            m <= n,
            i <= m,
            forall|j: int| 0 <= j < i ==> s@[j] == p@[j],
        decreases m - i,
    {
        if s.get_char(i) != p.get_char(i) {
            proof {
                assert(s@.subrange(0, p@.len() as int)[i as int] == s@[i as int]);
            }
            return false;
        }
        i = i + 1;
    }
    proof {
        assert(s@.subrange(0, p@.len() as int) =~= p@);
    }
    true
}

/// Whether `p` occurs in `s` at exactly the position `start`.
pub fn str_matches_at(s: &str, p: &str, start: usize) -> (r: bool)
    requires
        start + p@.len() <= s@.len(),
        s@.len() <= usize::MAX,
    ensures
        r == is_substring_at(s@, p@, start as int),
{
    let m = p.unicode_len();
    let mut i: usize = 0;
    while i < m
        invariant
            m == p@.len(),
            start + m <= s@.len(),
            s@.len() <= usize::MAX,
            i <= m,
            forall|j: int| 0 <= j < i ==> s@[start + j] == p@[j],
        decreases m - i,
    {
        if s.get_char(start + i) != p.get_char(i) {
            proof {
                assert(!is_substring_at(s@, p@, start as int)) by {
                    if is_substring_at(s@, p@, start as int) {
                        assert(s@.subrange(start as int, start + p@.len() as int)[i as int]
                            == s@[start + i]);
                    }
                }
            }
            return false;
        }
        i = i + 1;
    }
    proof {
        assert(s@.subrange(start as int, start + p@.len() as int) =~= p@);
    }
    true
}

/// Whether `p` occurs anywhere in `s`.
pub fn str_contains(s: &str, p: &str) -> (r: bool)
    ensures
        r == exists|i: int| is_substring_at(s@, p@, i),
{
    let n = s.unicode_len();
    let m = p.unicode_len();
    if m > n {
        return false;
    }
    if m == 0 {
        proof {
            assert(s@.subrange(0, 0) =~= p@);
            assert(is_substring_at(s@, p@, 0));
        }
        return true;
    }
    let mut start: usize = 0;
    while start <= n - m
        invariant
            n == s@.len(),
            m == p@.len(),
            1 <= m <= n,
            start <= n - m + 1,
            forall|i: int| 0 <= i < start ==> !is_substring_at(s@, p@, i),
        decreases n - start,
    {
        if str_matches_at(s, p, start) {
            return true;
        }
        start = start + 1;
    }
    proof {
        assert(forall|i: int| is_substring_at(s@, p@, i) ==> 0 <= i < start);
    }
    false
}

/// Index of the first occurrence of `c` in `s`, or -1 when absent.
pub open spec fn char_index(s: Seq<char>, c: char) -> int
    decreases s.len(),
{
    if s.len() == 0 {
        -1
    } else if s[0] == c {
        0
    } else {
        let r = char_index(s.drop_first(), c);
        if r < 0 {
            -1
        } else {
            r + 1
        }
    }
}

/// `char_index` really is the first occurrence.
pub proof fn lemma_char_index(s: Seq<char>, c: char)
    ensures
        char_index(s, c) == -1 ==> forall|j: int| 0 <= j < s.len() ==> s[j] != c,
        char_index(s, c) >= 0 ==> 0 <= char_index(s, c) < s.len() && s[char_index(s, c)] == c
            && forall|j: int| 0 <= j < char_index(s, c) ==> s[j] != c,
    decreases s.len(),
{
    if s.len() > 0 && s[0] != c {
        let t = s.drop_first();
        lemma_char_index(t, c);
        assert(forall|j: int| 0 <= j < t.len() ==> #[trigger] t[j] == s[j + 1]);
        if char_index(s, c) == -1 {
            assert(char_index(t, c) == -1);
            assert forall|j: int| 0 <= j < s.len() implies s[j] != c by {
                if j > 0 {
                    assert(t[j - 1] == s[j]);
                    assert(t[j - 1] != c);
                }
            }
        } else {
            let ci = char_index(s, c);
            assert(ci == char_index(t, c) + 1);
            assert(s[ci] == t[ci - 1]);
            assert forall|j: int| 0 <= j < ci implies s[j] != c by {
                if j > 0 {
                    assert(t[j - 1] != c);
                    assert(s[j] == t[j - 1]);
                }
            }
        }
    }
}

/// Index of the first occurrence of `p` in `s`, or -1 when absent.
pub open spec fn substring_index(s: Seq<char>, p: Seq<char>) -> int
    decreases s.len(),
{
    if p.len() > s.len() {
        -1
    } else if s.subrange(0, p.len() as int) == p {
        0
    } else if s.len() == p.len() {
        -1
    } else {
        let r = substring_index(s.drop_first(), p);
        if r < 0 {
            -1
        } else {
            r + 1
        }
    }
}

/// `substring_index` really is the first occurrence.
pub proof fn lemma_substring_index(s: Seq<char>, p: Seq<char>)
    requires
        p.len() >= 1,
    ensures
        substring_index(s, p) == -1 ==> forall|i: int| !is_substring_at(s, p, i),
        substring_index(s, p) >= 0 ==> is_substring_at(s, p, substring_index(s, p)) && forall|
            i: int,
        |
            0 <= i < substring_index(s, p) ==> !is_substring_at(s, p, i),
    decreases s.len(),
{
    if p.len() > s.len() {
    } else if s.subrange(0, p.len() as int) == p {
    } else {
        assert(!is_substring_at(s, p, 0));
        if s.len() == p.len() {
            assert(forall|i: int| i != 0 ==> !is_substring_at(s, p, i));
        } else {
            let t = s.drop_first();
            lemma_substring_index(t, p);
            assert forall|j: int| 0 <= j implies is_substring_at(s, p, j + 1) == is_substring_at(
                t,
                p,
                j,
            ) by {
                if j + 1 + p.len() <= s.len() {
                    assert(t.subrange(j, j + p.len() as int) =~= s.subrange(
                        j + 1,
                        j + 1 + p.len() as int,
                    ));
                }
            }
            let r = substring_index(t, p);
            if r < 0 {
                assert forall|i: int| !is_substring_at(s, p, i) by {
                    if i >= 1 {
                        assert(!is_substring_at(t, p, i - 1));
                    }
                }
            } else {
                assert(is_substring_at(t, p, r));
                assert(is_substring_at(s, p, r + 1));
                assert forall|i: int| 0 <= i < r + 1 implies !is_substring_at(s, p, i) by {
                    if i >= 1 {
                        assert(!is_substring_at(t, p, i - 1));
                    }
                }
            }
        }
    }
}

/// First position where `p` occurs in `s`, if any.
pub fn find_substring(s: &str, p: &str) -> (r: Option<usize>)
    requires
        p@.len() >= 1,
    ensures
        r matches Some(i) ==> i as int == substring_index(s@, p@),
        r is None ==> substring_index(s@, p@) == -1,
{
    proof {
        lemma_substring_index(s@, p@);
    }
    let n = s.unicode_len();
    let m = p.unicode_len();
    if m > n {
        return None;
    }
    let mut start: usize = 0;
    while start <= n - m
        invariant
            n == s@.len(),
            m == p@.len(),
            1 <= m <= n,
            start <= n - m + 1,
            forall|i: int| 0 <= i < start ==> !is_substring_at(s@, p@, i),
        decreases n - start,
    {
        if str_matches_at(s, p, start) {
            proof {
                lemma_substring_index(s@, p@);
            }
            return Some(start);
        }
        start = start + 1;
    }
    proof {
        lemma_substring_index(s@, p@);
        assert(forall|i: int| is_substring_at(s@, p@, i) ==> 0 <= i < start);
    }
    None
}

/// The decimal digit character for `n` (for `n < 10`).
pub open spec fn dec_digit_char(n: nat) -> char {
    if n == 0 {
        '0'
    } else if n == 1 {
        '1'
    } else if n == 2 {
        '2'
    } else if n == 3 {
        '3'
    } else if n == 4 {
        '4'
    } else if n == 5 {
        '5'
    } else if n == 6 {
        '6'
    } else if n == 7 {
        '7'
    } else if n == 8 {
        '8'
    } else {
        '9'
    }
}

/// The decimal rendering of `n`, without sign or padding.
pub open spec fn dec_digits(n: nat) -> Seq<char>
    decreases n,
{
    if n < 10 {
        seq![dec_digit_char(n)]
    } else {
        dec_digits(n / 10).push(dec_digit_char(n % 10))
    }
}

/// The decimal rendering of a possibly negative number.
pub open spec fn dec_int(n: int) -> Seq<char> {
    if n < 0 {
        seq!['-'] + dec_digits((-n) as nat)
    } else {
        dec_digits(n as nat)
    }
}

fn dec_digit_char_exec(n: u64) -> (c: char)
    requires
        n < 10,
    ensures
        c == dec_digit_char(n as nat),
{
    match n {
        0 => '0',
        1 => '1',
        2 => '2',
        3 => '3',
        4 => '4',
        5 => '5',
        6 => '6',
        7 => '7',
        8 => '8',
        _ => '9',
    }
}

/// Render `n` in decimal.
pub fn u64_to_dec(n: u64) -> (s: String)
    ensures
        s@ == dec_digits(n as nat),
{
    let mut digits: Vec<char> = Vec::new();
    let first = dec_digit_char_exec(n % 10);
    digits.push(first);
    let mut m: u64 = n / 10;
    proof {
        assert(digits@.reverse() =~= seq![first]);
    }
    while m > 0
        invariant
            m == 0 ==> dec_digits(n as nat) == digits@.reverse(),
            m > 0 ==> dec_digits(n as nat) == dec_digits(m as nat) + digits@.reverse(),
        decreases m,
    {
        let d = dec_digit_char_exec(m % 10);
        let ghost pre = digits@;
        digits.push(d);
        proof {
            assert(digits@.reverse() =~= seq![d] + pre.reverse());
        }
        m = m / 10;
        proof {
            if m == 0 {
                assert(dec_digits(n as nat) =~= digits@.reverse());
            } else {
                assert((dec_digits(m as nat) + seq![d]) + pre.reverse() =~= dec_digits(m as nat) + (
                seq![d] + pre.reverse()));
            }
        }
    }
    let mut out = String::new();
    let mut i: usize = digits.len();
    while i > 0
        invariant
            i <= digits@.len(),
            out@ == digits@.subrange(i as int, digits@.len() as int).reverse(),
        decreases i,
    {
        i = i - 1;
        let ghost pre = out@;
        push_char(&mut out, digits[i]);
        proof {
            assert(out@ =~= digits@.subrange(i as int, digits@.len() as int).reverse());
        }
    }
    proof {
        assert(digits@.subrange(0, digits@.len() as int) =~= digits@);
        assert(out@ =~= dec_digits(n as nat));
    }
    out
}

/// Render `n` in decimal with a leading minus sign when negative.
pub fn i64_to_dec(n: i64) -> (s: String)
    ensures
        s@ == dec_int(n as int),
{
    if n >= 0 {
        let s = u64_to_dec(n as u64);
        s
    } else {
        let m: u64 = (-(n as i128)) as u64;
        let digits = u64_to_dec(m);
        let mut out = String::new();
        push_char(&mut out, '-');
        out.append(digits.as_str());
        proof {
            assert(out@ =~= dec_int(n as int));
        }
        out
    }
}

/// `s` left-padded with `fill` up to width `w`.
pub open spec fn left_padded(s: Seq<char>, w: nat, fill: char) -> Seq<char> {
    if s.len() >= w {
        s
    } else {
        Seq::new((w - s.len()) as nat, |i: int| fill) + s
    }
}

/// Render `n` in decimal, zero-padded to at least `width` characters.
pub fn u64_to_dec_pad(n: u64, width: usize) -> (s: String)
    ensures
        s@ == left_padded(dec_digits(n as nat), width as nat, '0'),
{
    let digits = u64_to_dec(n);
    pad_left(digits.as_str(), width, '0')
}

/// Left-pad `s` with `fill` up to width `w`.
pub fn pad_left(s: &str, w: usize, fill: char) -> (r: String)
    ensures
        r@ == left_padded(s@, w as nat, fill),
{
    let n = s.unicode_len();
    let mut out = String::new();
    if n < w {
        let mut i: usize = 0;
        while i < w - n
            invariant
                n < w,
                i <= w - n,
                n == s@.len(),
                out@ =~= Seq::new(i as nat, |j: int| fill),
            decreases w - n - i,
        {
            let ghost pre = out@;
            push_char(&mut out, fill);
            proof {
                assert(out@ =~= Seq::new((i + 1) as nat, |j: int| fill));
            }
            i = i + 1;
        }
    }
    out.append(s);
    proof {
        assert(out@ =~= left_padded(s@, w as nat, fill));
    }
    out
}

} // verus!
