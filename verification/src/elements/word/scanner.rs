//! Scanning inside the text of a subword.

use vstd::prelude::*;
use crate::feeder::scanner::CharClass;
use crate::feeder::scanner::name_length;
use crate::feeder::scanner::run_length;
use crate::text::to_chars;

verus! {

pub fn is_lower(ch: char) -> (b: bool)
    ensures
        b == crate::text::lower(ch),
{
    'a' <= ch && ch <= 'z'
}

pub fn is_upper(ch: char) -> (b: bool)
    ensures
        b == crate::text::upper(ch),
{
    'A' <= ch && ch <= 'Z'
}

pub fn is_alphabet(ch: char) -> (b: bool)
    ensures
        b == crate::text::alphabet(ch),
{
    is_lower(ch) || is_upper(ch)
}

pub fn is_number(ch: char) -> (b: bool)
    ensures
        b == crate::text::digit(ch),
{
    '0' <= ch && ch <= '9'
}

/// How many characters of the class stand in a row in `v` from `from` on.
pub fn run_in(v: &Vec<char>, from: usize, class: CharClass) -> (n: usize)
    requires
        from <= v.len(),
    ensures
        n == run_length(v@, from as int, class),
        from + n <= v.len(),
{
    let mut i: usize = from;
    while i < v.len() && class.contains(v[i])
        invariant
            from <= i <= v.len(),
            run_length(v@, from as int, class) == (i - from) + run_length(v@, i as int, class),
        decreases v.len() - i,
    {
        i += 1;
    }
    i - from
}

/// The length of the name with which `s` begins: a letter or `_`, then
/// letters, digits and `_`; 0 where `s` begins with no name.
pub fn name(s: &str) -> (n: usize)
    ensures
        n == name_length(s@),
        n <= s@.len(),
{
    let v = to_chars(s);
    if v.len() == 0 {
        return 0;
    }
    let head_ch = v[0];
    if !is_alphabet(head_ch) && head_ch != '_' {
        return 0;
    }
    1 + run_in(&v, 1, CharClass::NameTail)
}

} // verus!
