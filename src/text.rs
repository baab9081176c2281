//! Character-level helpers: whitespace, trimming, comment markers, decimals.

use vstd::prelude::*;

verus! {

/// Whitespace in the sense of the Unicode `White_Space` property.
pub open spec fn ws(c: char) -> bool {
    let u = c as u32;
    (0x9 <= u && u <= 0xd) || u == 0x20 || u == 0x85 || u == 0xa0 || u == 0x1680 || (0x2000 <= u
        && u <= 0x200a) || u == 0x2028 || u == 0x2029 || u == 0x202f || u == 0x205f || u == 0x3000
}

/// Number of whitespace characters at the start of `s`.
pub open spec fn lead_ws(s: Seq<char>) -> nat
    decreases s.len(),
{
    if s.len() > 0 && ws(s[0]) {
        1 + lead_ws(s.drop_first())
    } else {
        0
    }
}

/// Number of whitespace characters at the end of `s`.
pub open spec fn trail_ws(s: Seq<char>) -> nat
    decreases s.len(),
{
    if s.len() > 0 && ws(s.last()) {
        1 + trail_ws(s.drop_last())
    } else {
        0
    }
}

pub open spec fn trim_start(s: Seq<char>) -> Seq<char> {
    s.skip(lead_ws(s) as int)
}

pub open spec fn trim_end(s: Seq<char>) -> Seq<char> {
    s.take(s.len() - trail_ws(s))
}

pub open spec fn contains_ws(s: Seq<char>) -> bool {
    exists|i: int| 0 <= i < s.len() && ws(#[trigger] s[i])
}

/// `t` starts with three copies of `c`.
pub open spec fn tripled(t: Seq<char>, c: char) -> bool {
    t.len() >= 3 && t[0] == c && t[1] == c && t[2] == c
}

pub open spec fn strip_one_space(s: Seq<char>) -> Seq<char> {
    if s.len() > 0 && s[0] == ' ' {
        s.skip(1)
    } else {
        s
    }
}

/// The content of a documentation comment line: the line without its
/// leading whitespace, its `///` or `###` marker and at most one space.
/// `None` for a line of code.
pub open spec fn classify(line: Seq<char>) -> Option<Seq<char>> {
    let t = trim_start(line);
    if tripled(t, '/') || tripled(t, '#') {
        Some(strip_one_space(t.skip(3)))
    } else {
        None
    }
}

pub open spec fn digit_char(d: int) -> char {
    if d == 0 { '0' }
    else if d == 1 { '1' }
    else if d == 2 { '2' }
    else if d == 3 { '3' }
    else if d == 4 { '4' }
    else if d == 5 { '5' }
    else if d == 6 { '6' }
    else if d == 7 { '7' }
    else if d == 8 { '8' }
    else { '9' }
}

/// The decimal digits of `n`, without leading zeros.
pub open spec fn decimal(n: nat) -> Seq<char>
    decreases n,
{
    if n < 10 {
        seq![digit_char(n as int)]
    } else {
        decimal(n / 10).push(digit_char((n % 10) as int))
    }
}

pub fn is_whitespace(c: char) -> (r: bool)
    ensures
        r == ws(c),
{
    let u = c as u32;
    (0x9 <= u && u <= 0xd) || u == 0x20 || u == 0x85 || u == 0xa0 || u == 0x1680 || (0x2000 <= u
        && u <= 0x200a) || u == 0x2028 || u == 0x2029 || u == 0x202f || u == 0x205f || u == 0x3000
}

/// Index of the first character of `s` that is not whitespace.
pub fn leading_whitespace(s: &str) -> (r: usize)
    ensures
        r == lead_ws(s@),
        r <= s@.len(),
{
    let n = s.unicode_len();
    let mut i: usize = 0;
    assert(s@.skip(0) =~= s@);
    while i < n
        invariant
            n == s@.len(),
            i <= n,
            lead_ws(s@) == i + lead_ws(s@.skip(i as int)),
        decreases n - i,
    {
        if !is_whitespace(s.get_char(i)) {
            return i;
        }
        assert(s@.skip(i as int).drop_first() =~= s@.skip(i + 1));
        i = i + 1;
    }
    i
}

/// Length of `s` without its trailing whitespace.
pub fn trimmed_end_len(s: &str) -> (r: usize)
    ensures
        r as int == s@.len() - trail_ws(s@),
        r <= s@.len(),
{
    let n = s.unicode_len();
    let mut e: usize = n;
    assert(s@.take(n as int) =~= s@);
    while e > 0
        invariant
            n == s@.len(),
            e <= n,
            trail_ws(s@) == (n - e) + trail_ws(s@.take(e as int)),
        decreases e,
    {
        if !is_whitespace(s.get_char(e - 1)) {
            return e;
        }
        assert(s@.take(e as int).drop_last() =~= s@.take(e - 1));
        e = e - 1;
    }
    e
}

/// Whether `s` holds a whitespace character.
pub fn has_whitespace(s: &str) -> (r: bool)
    ensures
        r == contains_ws(s@),
{
    let n = s.unicode_len();
    let mut i: usize = 0;
    while i < n
        invariant
            n == s@.len(),
            i <= n,
            forall|j: int| 0 <= j < i ==> !ws(#[trigger] s@[j]),
        decreases n - i,
    {
        if is_whitespace(s.get_char(i)) {
            return true;
        }
        i = i + 1;
    }
    false
}

/// The content of a documentation comment line, or `None` for code.
pub fn comment_content(line: &str) -> (r: Option<String>)
    ensures
        r matches Some(c) ==> classify(line@) == Some(c@),
        r is None ==> classify(line@) is None,
{
    let n = line.unicode_len();
    let i = leading_whitespace(line);
    let ghost t = trim_start(line@);
    if n - i < 3 {
        return None;
    }
    let c0 = line.get_char(i);
    let c1 = line.get_char(i + 1);
    let c2 = line.get_char(i + 2);
    assert(t[0] == c0 && t[1] == c1 && t[2] == c2);
    if !((c0 == '/' && c1 == '/' && c2 == '/') || (c0 == '#' && c1 == '#' && c2 == '#')) {
        return None;
    }
    let mut j = i + 3;
    if j < n && line.get_char(j) == ' ' {
        j = j + 1;
    }
    let r = String::from_str(line.substring_char(j, n));
    assert(r@ =~= strip_one_space(t.skip(3)));
    Some(r)
}

fn digit_str(d: usize) -> (r: &'static str)
    requires
        d < 10,
    ensures
        r@ == seq![digit_char(d as int)],
{
    let digits = "0123456789";
    proof {
        reveal_strlit("0123456789");
    }
    let r = digits.substring_char(d, d + 1);
    assert(r@ =~= seq![digit_char(d as int)]);
    r
}

/// `n` written in decimal.
pub fn decimal_string(n: usize) -> (r: String)
    ensures
        r@ == decimal(n as nat),
    decreases n,
{
    if n < 10 {
        String::from_str(digit_str(n))
    } else {
        let mut s = decimal_string(n / 10);
        s.append(digit_str(n % 10));
        s
    }
}

} // verus!
