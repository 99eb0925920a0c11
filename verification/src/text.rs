//! Characters and character sequences: the conversions between `String` and
//! `Vec<char>`, character classes, and searches that the scanners build on.

use vstd::prelude::*;

verus! {

/// `String::push` of the standard library: appends one character at the end
/// of the string and leaves the characters before it as they were.
pub assume_specification[ String::push ](s: &mut String, ch: char)
    ensures
        final(s)@ == old(s)@.push(ch),
;

pub open spec fn lower(ch: char) -> bool {
    'a' <= ch <= 'z'
}

pub open spec fn upper(ch: char) -> bool {
    'A' <= ch <= 'Z'
}

pub open spec fn alphabet(ch: char) -> bool {
    lower(ch) || upper(ch)
}

pub open spec fn digit(ch: char) -> bool {
    '0' <= ch <= '9'
}

/// A character that may start a variable name.
pub open spec fn name_head(ch: char) -> bool {
    alphabet(ch) || ch == '_'
}

/// A character that may continue a variable name.
pub open spec fn name_tail(ch: char) -> bool {
    alphabet(ch) || digit(ch) || ch == '_'
}

pub fn is_lower(ch: char) -> (b: bool)
    ensures
        b == lower(ch),
{
    'a' <= ch && ch <= 'z'
}

pub fn is_upper(ch: char) -> (b: bool)
    ensures
        b == upper(ch),
{
    'A' <= ch && ch <= 'Z'
}

pub fn is_alphabet(ch: char) -> (b: bool)
    ensures
        b == alphabet(ch),
{
    is_lower(ch) || is_upper(ch)
}

pub fn is_number(ch: char) -> (b: bool)
    ensures
        b == digit(ch),
{
    '0' <= ch && ch <= '9'
}

/// The characters of `s`, in order.
pub fn to_chars(s: &str) -> (out: Vec<char>)
    ensures
        out@ == s@,
{
    let mut out: Vec<char> = Vec::new();
    for c in it: s.chars()
        invariant
            out@ == it.seq().take(it.index@),
    {
        out.push(c);
    }
    out
}

/// The string made of `v[from..to]`.
pub fn substring(v: &Vec<char>, from: usize, to: usize) -> (out: String)
    requires
        from <= to <= v.len(),
    ensures
        out@ == v@.subrange(from as int, to as int),
{
    let mut out = String::new();
    let mut i: usize = from;
    while i < to
        invariant
            from <= i <= to <= v.len(),
            out@ == v@.subrange(from as int, i as int),
        decreases to - i,
    {
        out.push(v[i]);
        i += 1;
        assert(out@ =~= v@.subrange(from as int, i as int));
    }
    out
}

/// The string made of all of `v`.
pub fn from_chars(v: &Vec<char>) -> (out: String)
    ensures
        out@ == v@,
{
    let out = substring(v, 0, v.len());
    assert(v@.subrange(0, v.len() as int) =~= v@);
    out
}

/// Whether two strings hold the same characters.
pub fn str_is(a: &str, b: &str) -> (same: bool)
    ensures
        same == (a@ == b@),
{
    let x = to_chars(a);
    let y = to_chars(b);
    chars_eq(&x, &y)
}

/// Whether two character vectors hold the same characters.
pub fn chars_eq(x: &Vec<char>, y: &Vec<char>) -> (same: bool)
    ensures
        same == (x@ == y@),
{
    if x.len() != y.len() {
        return false;
    }
    let mut i: usize = 0;
    while i < x.len()
        invariant
            i <= x.len(),
            x.len() == y.len(),
            forall|k: int| 0 <= k < i ==> x@[k] == y@[k],
        decreases x.len() - i,
    {
        if x[i] != y[i] {
            return false;
        }
        i += 1;
    }
    assert(x@ =~= y@);
    true
}

/// Whether `v[at..]` begins with `pat`.
pub fn starts_at(v: &Vec<char>, at: usize, end: usize, pat: &Vec<char>) -> (b: bool)
    requires
        at <= end <= v.len(),
    ensures
        b == pat@.is_prefix_of(v@.subrange(at as int, end as int)),
{
    if pat.len() > end - at {
        return false;
    }
    let mut i: usize = 0;
    while i < pat.len()
        invariant
            i <= pat.len() <= end - at,
            at <= end <= v.len(),
            forall|k: int| 0 <= k < i ==> pat@[k] == v@[at + k],
        decreases pat.len() - i,
    {
        if pat[i] != v[at + i] {
            assert(v@.subrange(at as int, end as int)[i as int] == v@[at + i]);
            return false;
        }
        i += 1;
    }
    assert(pat@ =~= v@.subrange(at as int, end as int).subrange(0, pat@.len() as int));
    true
}

/// Finds the first occurrence of `ch` in `v`.
pub fn find_char(v: &Vec<char>, ch: char) -> (r: Option<usize>)
    ensures
        match r {
            Some(i) => i < v.len() && v@[i as int] == ch && forall|k: int|
                0 <= k < i ==> v@[k] != ch,
            None => !v@.contains(ch),
        },
{
    let mut i: usize = 0;
    while i < v.len()
        invariant
            i <= v.len(),
            forall|k: int| 0 <= k < i ==> v@[k] != ch,
        decreases v.len() - i,
    {
        if v[i] == ch {
            return Some(i);
        }
        i += 1;
    }
    None
}

/// The decimal digits of a natural number, most significant first.
pub open spec fn digits(n: nat) -> Seq<char>
    decreases n,
{
    if n < 10 {
        seq![digit_char(n)]
    } else {
        digits(n / 10).push(digit_char(n % 10))
    }
}

/// The character of one decimal digit.
pub open spec fn digit_char(d: nat) -> char {
    if d == 0 {
        '0'
    } else if d == 1 {
        '1'
    } else if d == 2 {
        '2'
    } else if d == 3 {
        '3'
    } else if d == 4 {
        '4'
    } else if d == 5 {
        '5'
    } else if d == 6 {
        '6'
    } else if d == 7 {
        '7'
    } else if d == 8 {
        '8'
    } else {
        '9'
    }
}

/// The decimal notation of an integer: a minus sign for a negative number,
/// then its digits without leading zeros.
pub open spec fn decimal(n: int) -> Seq<char> {
    if n < 0 {
        seq!['-'] + digits((-n) as nat)
    } else {
        digits(n as nat)
    }
}

fn digit_to_char(d: u64) -> (c: char)
    requires
        d < 10,
    ensures
        c == digit_char(d as nat),
{
    if d == 0 {
        '0'
    } else if d == 1 {
        '1'
    } else if d == 2 {
        '2'
    } else if d == 3 {
        '3'
    } else if d == 4 {
        '4'
    } else if d == 5 {
        '5'
    } else if d == 6 {
        '6'
    } else if d == 7 {
        '7'
    } else if d == 8 {
        '8'
    } else {
        '9'
    }
}

fn push_digits(out: &mut Vec<char>, n: u64)
    ensures
        final(out)@ == old(out)@ + digits(n as nat),
    decreases n,
{
    if n < 10 {
        out.push(digit_to_char(n));
        assert(out@ =~= old(out)@ + digits(n as nat));
    } else {
        push_digits(out, n / 10);
        out.push(digit_to_char(n % 10));
        assert(out@ =~= old(out)@ + digits(n as nat));
    }
}

/// Writes a natural number in decimal notation.
pub fn u64_to_string(n: u64) -> (out: String)
    ensures
        out@ == decimal(n as int),
{
    let mut v: Vec<char> = Vec::new();
    push_digits(&mut v, n);
    assert(v@ =~= digits(n as nat));
    from_chars(&v)
}

/// Writes an integer in decimal notation.
pub fn i64_to_string(n: i64) -> (out: String)
    ensures
        out@ == decimal(n as int),
{
    let mut v: Vec<char> = Vec::new();
    if n < 0 {
        v.push('-');
        let m: u64 = if n == i64::MIN {
            9223372036854775808u64
        } else {
            (-n) as u64
        };
        push_digits(&mut v, m);
        assert(v@ =~= seq!['-'] + digits((-n) as nat));
    } else {
        push_digits(&mut v, n as u64);
        assert(v@ =~= digits(n as nat));
    }
    from_chars(&v)
}

/// The number that a run of decimal digits denotes; the empty run denotes 0.
pub open spec fn digits_value(s: Seq<char>) -> nat
    decreases s.len(),
{
    if s.len() == 0 {
        0
    } else {
        digits_value(s.drop_last()) * 10 + (s.last() as nat - '0' as nat) as nat
    }
}

/// Whether every character of `s` is a decimal digit.
pub open spec fn all_digits(s: Seq<char>) -> bool {
    forall|i: int| 0 <= i < s.len() ==> digit(#[trigger] s[i])
}

/// The strings of `parts` written one after another with `sep` between them.
pub open spec fn join(parts: Seq<Seq<char>>, sep: Seq<char>) -> Seq<char>
    decreases parts.len(),
{
    if parts.len() == 0 {
        Seq::empty()
    } else if parts.len() == 1 {
        parts[0]
    } else {
        join(parts.drop_last(), sep) + sep + parts.last()
    }
}

/// The views of a vector of strings.
pub open spec fn views(v: Seq<String>) -> Seq<Seq<char>> {
    v.map_values(|s: String| s@)
}

/// Joins `parts[from..]` with `sep` between the parts.
pub fn join_from(parts: &Vec<String>, from: usize, sep: &str) -> (out: String)
    requires
        from <= parts.len(),
    ensures
        out@ == join(views(parts@).skip(from as int), sep@),
{
    let mut out = String::new();
    let mut i: usize = from;
    let ghost all = views(parts@);
    while i < parts.len()
        invariant
            from <= i <= parts.len(),
            all == views(parts@),
            out@ == join(all.subrange(from as int, i as int), sep@),
        decreases parts.len() - i,
    {
        if i > from {
            out.append(sep);
        }
        out.append(parts[i].as_str());
        proof {
            let before = all.subrange(from as int, i as int);
            let after = all.subrange(from as int, i + 1);
            assert(after.drop_last() =~= before);
            assert(after.last() == parts@[i as int]@);
            if i == from {
                assert(out@ =~= after[0]);
            } else {
                assert(out@ =~= join(before, sep@) + sep@ + after.last());
            }
        }
        i += 1;
    }
    assert(all.subrange(from as int, parts.len() as int) =~= all.skip(from as int));
    out
}

} // verus!
