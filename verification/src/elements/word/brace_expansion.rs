//! Brace expansion: a word with `{a,b}` or `{1..3}` in it stands for several
//! words. It works on the subwords of the word before any other expansion, so
//! that quoted braces and commas take no part in it.

use vstd::prelude::*;
use crate::elements::subword::Subword;
use crate::elements::subword::SubwordView;
use crate::elements::subword::unquoted::UnquotedSubword;
use crate::elements::subword::join_texts;
use crate::elements::word::Word;
use crate::elements::word::WordView;
use crate::elements::word::concat_texts;
use crate::elements::word::subword_views;
use crate::text::all_digits;
use crate::text::digit;
use crate::text::digits;
use crate::text::digits_value;
use crate::text::to_chars;
use crate::text::from_chars;
use crate::text::u64_to_string;
use crate::elements::word::push_subword;
use vstd::arithmetic::div_mod::lemma_fundamental_div_mod;
use vstd::arithmetic::div_mod::lemma_mod_bound;

verus! {

/// Whether the subword is the unquoted symbol `c`.
pub open spec fn is_token(sw: SubwordView, c: char) -> bool {
    sw == SubwordView::Unquoted(seq![c])
}

/// The closing brace that matches an opening one, where the search stands at
/// `j` with `depth` braces open inside the group.
pub open spec fn group_end(subs: Seq<SubwordView>, j: int, depth: nat) -> Option<int>
    decreases subs.len() - j,
{
    if j < 0 || j >= subs.len() {
        None
    } else if is_token(subs[j], '{') {
        group_end(subs, j + 1, depth + 1)
    } else if is_token(subs[j], '}') {
        if depth == 0 {
            Some(j)
        } else {
            group_end(subs, j + 1, (depth - 1) as nat)
        }
    } else {
        group_end(subs, j + 1, depth)
    }
}

/// The commas in `subs[j..e]` that stand inside no inner braces, where
/// `depth` inner braces are open at `j`.
pub open spec fn commas(subs: Seq<SubwordView>, j: int, e: int, depth: nat) -> Seq<int>
    decreases e - j,
{
    if j < 0 || j >= e || j >= subs.len() {
        Seq::empty()
    } else if is_token(subs[j], ',') && depth == 0 {
        seq![j] + commas(subs, j + 1, e, 0)
    } else if is_token(subs[j], '{') {
        commas(subs, j + 1, e, depth + 1)
    } else if is_token(subs[j], '}') && depth > 0 {
        commas(subs, j + 1, e, (depth - 1) as nat)
    } else {
        commas(subs, j + 1, e, depth)
    }
}

/// The number that a text of an optional minus sign and one to eighteen
/// digits denotes.
pub open spec fn signed_value(s: Seq<char>) -> Option<int> {
    let negative = s.len() > 0 && s[0] == '-';
    let body = if negative {
        s.skip(1)
    } else {
        s
    };
    if 0 < body.len() <= 18 && all_digits(body) {
        Some(
            if negative {
                -(digits_value(body) as int)
            } else {
                digits_value(body) as int
            },
        )
    } else {
        None
    }
}

/// Whether a number is written with a zero in front of other digits.
pub open spec fn zero_led(s: Seq<char>) -> bool {
    let body = if s.len() > 0 && s[0] == '-' {
        s.skip(1)
    } else {
        s
    };
    body.len() > 1 && body[0] == '0'
}

/// The three parts of a range, `first..last` or `first..last..step`.
pub open spec fn range_parts(t: Seq<char>) -> Option<(Seq<char>, Seq<char>, Option<Seq<char>>)> {
    match t.index_of_first('.') {
        None => None,
        Some(p) => if p + 1 < t.len() && t[p + 1] == '.' {
            let rest = t.skip(p + 2);
            match rest.index_of_first('.') {
                None => Some((t.take(p), rest, None)),
                Some(q) => if q + 1 < rest.len() && rest[q + 1] == '.' {
                    Some((t.take(p), rest.take(q), Some(rest.skip(q + 2))))
                } else {
                    None
                },
            }
        } else {
            None
        },
    }
}

/// A range as numbers: where it begins, where it ends, the distance between
/// two of its numbers, and the width to which the numbers are filled with
/// zeros.
pub struct Range {
    pub first: int,
    pub last: int,
    pub step: int,
    pub width: nat,
}

/// The range that a text denotes. The step counts without its sign and is 1
/// where none is given; a step of 0 makes no range. The numbers are filled
/// with zeros to the width of the longer end where one end is written with a
/// zero in front.
pub open spec fn range_of(t: Seq<char>) -> Option<Range> {
    match range_parts(t) {
        None => None,
        Some((a, b, s)) => match (signed_value(a), signed_value(b)) {
            (Some(first), Some(last)) => {
                let width = if zero_led(a) || zero_led(b) {
                    if a.len() > b.len() {
                        a.len()
                    } else {
                        b.len()
                    }
                } else {
                    0
                };
                match s {
                    None => Some(Range { first, last, step: 1, width }),
                    Some(st) => match signed_value(st) {
                        Some(step) => if step == 0 {
                            None
                        } else {
                            Some(
                                Range {
                                    first,
                                    last,
                                    step: if step < 0 {
                                        -step
                                    } else {
                                        step
                                    },
                                    width,
                                },
                            )
                        },
                        None => None,
                    },
                }
            },
            _ => None,
        },
    }
}

/// A number written with zeros in front of its digits up to a given width;
/// the minus sign counts for the width.
pub open spec fn padded(n: int, width: nat) -> Seq<char> {
    let body = digits(
        (if n < 0 {
            -n
        } else {
            n
        }) as nat,
    );
    let sign: Seq<char> = if n < 0 {
        seq!['-']
    } else {
        Seq::empty()
    };
    let zeros: nat = if width > sign.len() + body.len() {
        (width - sign.len() - body.len()) as nat
    } else {
        0
    };
    sign + Seq::new(zeros, |i: int| '0') + body
}

impl Range {
    /// How many numbers the range holds.
    pub open spec fn count(self) -> nat {
        if self.step <= 0 {
            0
        } else if self.first <= self.last {
            ((self.last - self.first) / self.step + 1) as nat
        } else {
            ((self.first - self.last) / self.step + 1) as nat
        }
    }

    /// The `k`-th number of the range.
    pub open spec fn number(self, k: int) -> int {
        if self.first <= self.last {
            self.first + k * self.step
        } else {
            self.first - k * self.step
        }
    }

    /// The numbers of the range as they are written.
    pub open spec fn texts(self) -> Seq<Seq<char>> {
        Seq::new(self.count(), |k: int| padded(self.number(k), self.width))
    }
}

/// What stands between the `k`-th and the next of the delimiters `d` of the
/// group `i..=e`.
pub open spec fn alternative(subs: Seq<SubwordView>, i: int, e: int, d: Seq<int>, k: int) -> Seq<
    SubwordView,
> {
    if 0 <= k < d.len() - 1 && 0 <= i <= d[k] < d[k + 1] <= e < subs.len() {
        subs.subrange(d[k] + 1, d[k + 1])
    } else {
        Seq::empty()
    }
}

/// The choices that the group from the opening brace at `i` to the closing
/// one at `e` offers: the pieces between its commas, or the numbers of its
/// range. `None` where it has neither commas nor a range.
pub open spec fn choices(subs: Seq<SubwordView>, i: int, e: int) -> Option<Seq<Seq<SubwordView>>> {
    let c = commas(subs, i + 1, e, 0);
    if c.len() > 0 {
        let d = seq![i] + c + seq![e];
        Some(Seq::new((d.len() - 1) as nat, |k: int| alternative(subs, i, e, d, k)))
    } else if e == i + 2 && 0 <= i && e < subs.len() {
        match subs[i + 1] {
            SubwordView::Unquoted(t) => match range_of(t) {
                Some(r) => Some(r.texts().map_values(|v: Seq<char>| seq![SubwordView::Unquoted(v)])),
                None => None,
            },
            _ => None,
        }
    } else {
        None
    }
}

/// The first group at or after `i` that offers choices: the positions of its
/// braces.
pub open spec fn first_group(subs: Seq<SubwordView>, i: int) -> Option<(int, int)>
    decreases subs.len() - i,
{
    if i < 0 || i >= subs.len() {
        None
    } else {
        match (if is_token(subs[i], '{') {
            group_end(subs, i + 1, 0)
        } else {
            None
        }) {
            Some(e) => if choices(subs, i, e) is Some {
                Some((i, e))
            } else {
                first_group(subs, i + 1)
            },
            None => first_group(subs, i + 1),
        }
    }
}

proof fn lemma_group_end(subs: Seq<SubwordView>, j: int, depth: nat)
    requires
        0 <= j,
    ensures
        group_end(subs, j, depth) matches Some(e) ==> j <= e < subs.len() && is_token(subs[e], '}'),
    decreases subs.len() - j,
{
    if j < subs.len() {
        if is_token(subs[j], '{') {
            lemma_group_end(subs, j + 1, depth + 1);
        } else if is_token(subs[j], '}') {
            if depth > 0 {
                lemma_group_end(subs, j + 1, (depth - 1) as nat);
            }
        } else {
            lemma_group_end(subs, j + 1, depth);
        }
    }
}

/// Whether the positions in `c` lie in `j..e` and grow.
spec fn ordered_within(c: Seq<int>, j: int, e: int) -> bool {
    &&& forall|k: int| 0 <= k < c.len() ==> j <= #[trigger] c[k] < e
    &&& forall|a: int, b: int| 0 <= a < b < c.len() ==> c[a] < c[b]
}

proof fn lemma_commas(subs: Seq<SubwordView>, j: int, e: int, depth: nat)
    requires
        0 <= j,
    ensures
        ordered_within(commas(subs, j, e, depth), j, e),
    decreases e - j,
{
    let all = commas(subs, j, e, depth);
    if j < e && j < subs.len() {
        if is_token(subs[j], ',') && depth == 0 {
            lemma_commas(subs, j + 1, e, 0);
            let rest = commas(subs, j + 1, e, 0);
            assert(all == seq![j] + rest);
            assert forall|k: int| 0 <= k < all.len() implies j <= #[trigger] all[k] < e by {
                if k > 0 {
                    assert(all[k] == rest[k - 1]);
                }
            }
            assert forall|a: int, b: int| 0 <= a < b < all.len() implies all[a] < all[b] by {
                assert(all[b] == rest[b - 1]);
                if a > 0 {
                    assert(all[a] == rest[a - 1]);
                }
            }
        } else if is_token(subs[j], '{') {
            lemma_commas(subs, j + 1, e, depth + 1);
            assert(all == commas(subs, j + 1, e, depth + 1));
        } else if is_token(subs[j], '}') && depth > 0 {
            lemma_commas(subs, j + 1, e, (depth - 1) as nat);
            assert(all == commas(subs, j + 1, e, (depth - 1) as nat));
        } else {
            lemma_commas(subs, j + 1, e, depth);
            assert(all == commas(subs, j + 1, e, depth));
        }
    } else {
        assert(all.len() == 0);
    }
}

/// Every choice of a group is shorter than the group without its braces.
pub proof fn lemma_choice_length(subs: Seq<SubwordView>, i: int, e: int, k: int)
    requires
        0 <= i < e < subs.len(),
        choices(subs, i, e) is Some,
        0 <= k < choices(subs, i, e)->0.len(),
    ensures
        choices(subs, i, e)->0[k].len() <= e - i - 1,
{
    let c = commas(subs, i + 1, e, 0);
    if c.len() > 0 {
        lemma_commas(subs, i + 1, e, 0);
        let d = seq![i] + c + seq![e];
        if 0 < k {
            assert(d[k] == c[k - 1]);
        }
        if k < d.len() - 2 {
            assert(d[k + 1] == c[k]);
        }
    }
}

proof fn lemma_first_group(subs: Seq<SubwordView>, i: int)
    requires
        0 <= i,
    ensures
        first_group(subs, i) matches Some((a, e)) ==> i <= a < e < subs.len() && choices(subs, a, e)
            is Some && is_token(subs[a], '{') && group_end(subs, a + 1, 0) == Some(e),
    decreases subs.len() - i,
{
    if i < subs.len() {
        if is_token(subs[i], '{') {
            lemma_group_end(subs, i + 1, 0);
        }
        lemma_first_group(subs, i + 1);
    }
}

/// The words that a list of subwords stands for: the list itself where no
/// group offers choices; else, for each choice of the first such group in
/// turn, the words of the list with the choice in the place of the group.
pub open spec fn brace_expanded(subs: Seq<SubwordView>) -> Seq<Seq<SubwordView>>
    decreases subs.len(), 1nat, 0nat,
{
    match first_group(subs, 0) {
        None => seq![subs],
        Some((i, e)) => expanded_choices(subs, i, e, 0),
    }
}

/// The words for the choices from the `k`-th on of the group `i..=e`.
pub open spec fn expanded_choices(subs: Seq<SubwordView>, i: int, e: int, k: int) -> Seq<
    Seq<SubwordView>,
>
    decreases subs.len(), 0nat, (if choices(subs, i, e) is Some {
        choices(subs, i, e)->0.len() - k
    } else {
        0
    }),
{
    if 0 <= i < e < subs.len() && choices(subs, i, e) is Some && 0 <= k < choices(subs, i, e)->0.len() {
        let alt = choices(subs, i, e)->0[k];
        proof {
            lemma_choice_length(subs, i, e, k);
        }
        brace_expanded(subs.take(i) + alt + subs.skip(e + 1)) + expanded_choices(subs, i, e, k + 1)
    } else {
        Seq::empty()
    }
}

fn is_tok(sw: &Subword, c: char) -> (b: bool)
    ensures
        b == is_token(sw@, c),
{
    match sw {
        Subword::Unquoted(s) => {
            let v = to_chars(s.text.as_str());
            if v.len() == 1 && v[0] == c {
                assert(v@ =~= seq![c]);
                true
            } else {
                false
            }
        },
        _ => false,
    }
}

fn find_group_end(subs: &Vec<Subword>, from: usize) -> (r: Option<usize>)
    requires
        from <= subs.len(),
    ensures
        match group_end(subword_views(subs@), from as int, 0) {
            Some(e) => r == Some(e as usize) && from <= e < subs.len(),
            None => r is None,
        },
{
    let ghost v = subword_views(subs@);
    let mut j: usize = from;
    let mut depth: usize = 0;
    while j < subs.len()
        invariant
            from <= j <= subs.len(),
            depth <= j - from,
            v == subword_views(subs@),
            group_end(v, j as int, depth as nat) == group_end(v, from as int, 0),
        decreases subs.len() - j,
    {
        if is_tok(&subs[j], '{') {
            depth += 1;
        } else if is_tok(&subs[j], '}') {
            if depth == 0 {
                return Some(j);
            }
            depth -= 1;
        }
        j += 1;
    }
    None
}

/// The positions of the commas of the group `i..=e` that stand inside no
/// inner braces.
fn find_commas(subs: &Vec<Subword>, i: usize, e: usize) -> (r: Vec<usize>)
    requires
        i < e < subs.len(),
    ensures
        r@.map_values(|x: usize| x as int) == commas(subword_views(subs@), i + 1, e as int, 0),
{
    let ghost v = subword_views(subs@);
    let mut out: Vec<usize> = Vec::new();
    let mut j: usize = i + 1;
    let mut depth: usize = 0;
    assert(out@.map_values(|x: usize| x as int) =~= Seq::<int>::empty());
    while j < e
        invariant
            i < j <= e < subs.len(),
            depth <= j - i,
            v == subword_views(subs@),
            out@.map_values(|x: usize| x as int) + commas(v, j as int, e as int, depth as nat)
                == commas(v, i + 1, e as int, 0),
        decreases e - j,
    {
        let ghost before = out@.map_values(|x: usize| x as int);
        if is_tok(&subs[j], ',') && depth == 0 {
            out.push(j);
            assert(out@.map_values(|x: usize| x as int) =~= before.push(j as int));
            assert(before.push(j as int) + commas(v, j + 1, e as int, 0) =~= before + (seq![
                j as int,
            ] + commas(v, j + 1, e as int, 0)));
        } else if is_tok(&subs[j], '{') {
            depth += 1;
        } else if is_tok(&subs[j], '}') && depth > 0 {
            depth -= 1;
        }
        j += 1;
    }
    assert(out@.map_values(|x: usize| x as int) + Seq::<int>::empty() =~= out@.map_values(
        |x: usize| x as int,
    ));
    out
}

/// Reads a number of an optional minus sign and one to eighteen digits.
fn parse_signed(v: &Vec<char>, from: usize, to: usize) -> (r: Option<i64>)
    requires
        from <= to <= v.len(),
    ensures
        match signed_value(v@.subrange(from as int, to as int)) {
            Some(n) => r == Some(n as i64) && -1_000_000_000_000_000_000 < n
                < 1_000_000_000_000_000_000,
            None => r is None,
        },
{
    let ghost s = v@.subrange(from as int, to as int);
    let negative = from < to && v[from] == '-';
    let start: usize = if negative {
        from + 1
    } else {
        from
    };
    let ghost body = v@.subrange(start as int, to as int);
    proof {
        if negative {
            assert(s[0] == '-');
            assert(s.skip(1) =~= body);
        } else {
            if s.len() > 0 {
                assert(s[0] == v@[from as int]);
            }
            assert(s =~= body);
        }
    }
    if start == to || to - start > 18 {
        return None;
    }
    let mut n: i64 = 0;
    let mut i: usize = start;
    let mut bound: i64 = 1;
    assert(body.take(0).len() == 0);
    while i < to
        invariant
            start <= i <= to <= v.len(),
            to - start <= 18,
            body == v@.subrange(start as int, to as int),
            s == v@.subrange(from as int, to as int),
            all_digits(body.take(i - start)),
            digits_value(body.take(i - start)) == n,
            0 <= n < bound,
            bound == ten_to((i - start) as nat),
            bound <= 1_000_000_000_000_000_000,
            signed_value(s) == if all_digits(body) {
                Some(
                    if negative {
                        -(digits_value(body) as int)
                    } else {
                        digits_value(body) as int
                    },
                )
            } else {
                None
            },
        decreases to - i,
    {
        let c = v[i];
        let ghost upto = body.take(i - start + 1);
        assert(upto.drop_last() =~= body.take(i - start));
        assert(upto.last() == c);
        if !('0' <= c && c <= '9') {
            assert(!digit(body[i - start]));
            return None;
        }
        proof {
            lemma_ten_to_bound((i - start) as nat);
            lemma_ten_to_bound((i - start + 1) as nat);
        }
        let d: i64 = (c as u32 - '0' as u32) as i64;
        n = n * 10 + d;
        bound = bound * 10;
        assert forall|k: int| 0 <= k < upto.len() implies digit(#[trigger] upto[k]) by {
            if k < i - start {
                assert(upto[k] == body.take(i - start)[k]);
            }
        }
        i += 1;
    }
    assert(body.take(i - start) =~= body);
    if negative {
        Some(-n)
    } else {
        Some(n)
    }
}

/// Ten to the power `k`.
pub open spec fn ten_to(k: nat) -> nat
    decreases k,
{
    if k == 0 {
        1
    } else {
        10 * ten_to((k - 1) as nat)
    }
}

proof fn lemma_ten_to_grows(a: nat, b: nat)
    requires
        a <= b,
    ensures
        1 <= ten_to(a) <= ten_to(b),
    decreases b,
{
    if b > 0 {
        if a < b {
            lemma_ten_to_grows(a, (b - 1) as nat);
        } else {
            lemma_ten_to_grows((a - 1) as nat, (b - 1) as nat);
        }
    }
}

proof fn lemma_ten_to_bound(k: nat)
    ensures
        k <= 18 ==> 1 <= ten_to(k) <= 1_000_000_000_000_000_000,
        k <= 17 ==> ten_to(k) <= 100_000_000_000_000_000,
{
    reveal_with_fuel(ten_to, 19);
    assert(ten_to(17) == 100_000_000_000_000_000);
    assert(ten_to(18) == 1_000_000_000_000_000_000);
    if k <= 18 {
        lemma_ten_to_grows(k, 18);
    }
    if k <= 17 {
        lemma_ten_to_grows(k, 17);
    }
}

fn leads_with_zero(v: &Vec<char>, from: usize, to: usize) -> (b: bool)
    requires
        from <= to <= v.len(),
    ensures
        b == zero_led(v@.subrange(from as int, to as int)),
{
    let ghost s = v@.subrange(from as int, to as int);
    let start: usize = if from < to && v[from] == '-' {
        from + 1
    } else {
        from
    };
    proof {
        if from < to {
            assert(s[0] == v@[from as int]);
        }
        if start < to {
            if start > from {
                assert(s.skip(1)[0] == v@[start as int]);
            }
        }
    }
    to - start > 1 && v[start] == '0'
}

/// Finds the first `..` in `v[from..to]`.
fn find_dots(v: &Vec<char>, from: usize, to: usize) -> (r: Option<usize>)
    requires
        from <= to <= v.len(),
    ensures
        match v@.subrange(from as int, to as int).index_of_first('.') {
            Some(p) => if p + 1 < to - from && v@[from + p + 1] == '.' {
                r == Some((from + p) as usize)
            } else {
                r is None
            },
            None => r is None,
        },
        r matches Some(at) ==> from <= at && at + 2 <= to,
{
    let ghost s = v@.subrange(from as int, to as int);
    proof {
        s.index_of_first_ensures('.');
    }
    let mut i: usize = from;
    while i < to && v[i] != '.'
        invariant
            from <= i <= to <= v.len(),
            forall|k: int| from <= k < i ==> v@[k] != '.',
        decreases to - i,
    {
        i += 1;
    }
    if i == to {
        assert(!s.contains('.')) by {
            if s.contains('.') {
                let k = choose|k: int| 0 <= k < s.len() && s[k] == '.';
                assert(v@[from + k] == '.');
            }
        }
        return None;
    }
    proof {
        assert(s[i - from] == '.');
        assert(s.contains('.'));
        let p = s.index_of_first('.')->0;
        if p < i - from {
            assert(v@[from + p] == '.');
        }
        assert(p == i - from);
    }
    if i + 1 < to && v[i + 1] == '.' {
        Some(i)
    } else {
        None
    }
}

/// Reads a range: its first and last number, its step and its width.
fn read_range(text: &str) -> (r: Option<(i64, i64, i64, usize)>)
    ensures
        match range_of(text@) {
            Some(range) => r matches Some((first, last, step, width)) && first == range.first
                && last == range.last && step == range.step && width == range.width && 0 < step
                < 1_000_000_000_000_000_000 && -1_000_000_000_000_000_000 < first
                < 1_000_000_000_000_000_000 && -1_000_000_000_000_000_000 < last
                < 1_000_000_000_000_000_000,
            None => r is None,
        },
{
    let v = to_chars(text);
    let p = match find_dots(&v, 0, v.len()) {
        Some(p) => p,
        None => {
            assert(v@.subrange(0, v.len() as int) =~= v@);
            return None;
        },
    };
    proof {
        assert(v@.subrange(0, v.len() as int) =~= v@);
        assert(v@.take(p as int) =~= v@.subrange(0, p as int));
    }
    let ghost rest = v@.skip(p + 2);
    proof {
        assert(rest =~= v@.subrange(p + 2, v.len() as int));
        v@.index_of_first_ensures('.');
        rest.index_of_first_ensures('.');
        if rest.index_of_first('.') is Some {
            let q = rest.index_of_first('.')->0;
            if q + 1 < rest.len() {
                assert(rest[q + 1] == v@[p + 2 + q + 1]);
            }
        }
    }
    let (b_end, step_at): (usize, Option<usize>) = match rest_dots(&v, p + 2) {
        RestDots::Single => (v.len(), None),
        RestDots::Double(q) => (q, Some(q + 2)),
        RestDots::Broken => {
            return None;
        },
    };
    proof {
        assert(rest.take(b_end - p - 2) =~= v@.subrange(p + 2, b_end as int));
        if step_at is Some {
            assert(rest.skip(b_end - p - 2 + 2) =~= v@.subrange(b_end + 2, v.len() as int));
        } else {
            assert(rest =~= v@.subrange(p + 2, b_end as int));
        }
    }
    let first = match parse_signed(&v, 0, p) {
        Some(n) => n,
        None => {
            return None;
        },
    };
    let last = match parse_signed(&v, p + 2, b_end) {
        Some(n) => n,
        None => {
            return None;
        },
    };
    let width: usize = if leads_with_zero(&v, 0, p) || leads_with_zero(&v, p + 2, b_end) {
        if p > b_end - (p + 2) {
            p
        } else {
            b_end - (p + 2)
        }
    } else {
        0
    };
    match step_at {
        None => Some((first, last, 1, width)),
        Some(at) => match parse_signed(&v, at, v.len()) {
            Some(step) => {
                if step == 0 {
                    None
                } else if step < 0 {
                    Some((first, last, -step, width))
                } else {
                    Some((first, last, step, width))
                }
            },
            None => None,
        },
    }
}

/// What follows the last number of a range: nothing, a step behind `..`, or
/// a stray point.
enum RestDots {
    Single,
    Double(usize),
    Broken,
}

fn rest_dots(v: &Vec<char>, from: usize) -> (r: RestDots)
    requires
        from <= v.len(),
    ensures
        match v@.skip(from as int).index_of_first('.') {
            None => r is Single,
            Some(q) => if q + 1 < v@.len() - from && v@[from + q + 1] == '.' {
                r == RestDots::Double((from + q) as usize)
            } else {
                r is Broken
            },
        },
        r matches RestDots::Double(at) ==> from <= at && at + 2 <= v.len(),
{
    let ghost s = v@.skip(from as int);
    proof {
        assert(s =~= v@.subrange(from as int, v.len() as int));
        s.index_of_first_ensures('.');
    }
    if find_char_from(v, from, '.') {
        match find_dots(v, from, v.len()) {
            Some(at) => RestDots::Double(at),
            None => RestDots::Broken,
        }
    } else {
        RestDots::Single
    }
}

fn find_char_from(v: &Vec<char>, from: usize, c: char) -> (b: bool)
    requires
        from <= v.len(),
    ensures
        b == v@.skip(from as int).contains(c),
{
    let ghost s = v@.skip(from as int);
    let mut i: usize = from;
    while i < v.len()
        invariant
            from <= i <= v.len(),
            s == v@.skip(from as int),
            forall|k: int| from <= k < i ==> v@[k] != c,
        decreases v.len() - i,
    {
        if v[i] == c {
            assert(s[i - from] == c);
            return true;
        }
        i += 1;
    }
    assert(!s.contains(c)) by {
        if s.contains(c) {
            let k = choose|k: int| 0 <= k < s.len() && s[k] == c;
            assert(v@[from + k] == c);
        }
    }
    false
}

/// Writes a number with zeros in front up to the given width.
fn pad(n: i64, width: usize) -> (out: String)
    requires
        -1_000_000_000_000_000_000 < n < 1_000_000_000_000_000_000,
    ensures
        out@ == padded(n as int, width as nat),
{
    let magnitude: u64 = if n < 0 {
        (-n) as u64
    } else {
        n as u64
    };
    let body = to_chars(u64_to_string(magnitude).as_str());
    assert(crate::text::decimal(magnitude as int) == digits(magnitude as nat));
    let mut out: Vec<char> = Vec::new();
    if n < 0 {
        out.push('-');
    }
    let ghost sign = out@;
    let zeros: usize = if width > out.len() && width - out.len() > body.len() {
        width - out.len() - body.len()
    } else {
        0
    };
    let mut i: usize = 0;
    while i < zeros
        invariant
            i <= zeros,
            out@ == sign + Seq::new(i as nat, |k: int| '0'),
        decreases zeros - i,
    {
        out.push('0');
        i += 1;
        assert(out@ =~= sign + Seq::new(i as nat, |k: int| '0'));
    }
    let mut j: usize = 0;
    while j < body.len()
        invariant
            j <= body.len(),
            out@ == sign + Seq::new(zeros as nat, |k: int| '0') + body@.take(j as int),
        decreases body.len() - j,
    {
        out.push(body[j]);
        j += 1;
        assert(out@ =~= sign + Seq::new(zeros as nat, |k: int| '0') + body@.take(j as int));
    }
    assert(body@.take(j as int) =~= body@);
    from_chars(&out)
}

/// The views of a list of lists of subwords.
pub open spec fn lists_view(v: Seq<Vec<Subword>>) -> Seq<Seq<SubwordView>> {
    v.map_values(|l: Vec<Subword>| subword_views(l@))
}

/// The numbers of a range as subwords, each a choice of its own.
fn range_choices(first: i64, last: i64, step: i64, width: usize) -> (out: Vec<Vec<Subword>>)
    requires
        0 < step < 1_000_000_000_000_000_000,
        -1_000_000_000_000_000_000 < first < 1_000_000_000_000_000_000,
        -1_000_000_000_000_000_000 < last < 1_000_000_000_000_000_000,
    ensures
        lists_view(out@) == (Range {
            first: first as int,
            last: last as int,
            step: step as int,
            width: width as nat,
        }).texts().map_values(|v: Seq<char>| seq![SubwordView::Unquoted(v)]),
{
    let ghost r = Range { first: first as int, last: last as int, step: step as int, width: width as nat };
    let up = first <= last;
    let span: i64 = if up {
        last - first
    } else {
        first - last
    };
    let count: i64 = span / step + 1;
    proof {
        lemma_fundamental_div_mod(span as int, step as int);
        lemma_mod_bound(span as int, step as int);
        assert(0 <= span / step) by (nonlinear_arith)
            requires
                0 <= span,
                0 < step,
        ;
    }
    let mut out: Vec<Vec<Subword>> = Vec::new();
    let mut k: i64 = 0;
    let mut cur: i64 = first;
    while k < count
        invariant
            0 <= k <= count,
            count == span / step + 1,
            count == r.count(),
            0 < step < 1_000_000_000_000_000_000,
            0 <= span < 2_000_000_000_000_000_000,
            span == (if up {
                last - first
            } else {
                first - last
            }),
            up == (first <= last),
            r == (Range {
                first: first as int,
                last: last as int,
                step: step as int,
                width: width as nat,
            }),
            k < count ==> cur == r.number(k as int),
            k < count ==> (if up {
                first <= cur <= last
            } else {
                last <= cur <= first
            }),
            -1_000_000_000_000_000_000 < first < 1_000_000_000_000_000_000,
            -1_000_000_000_000_000_000 < last < 1_000_000_000_000_000_000,
            out@.len() == k,
            forall|j: int|
                0 <= j < k ==> subword_views((#[trigger] out@[j])@) == seq![
                    SubwordView::Unquoted(padded(r.number(j), r.width)),
                ],
        decreases count - k,
    {
        let mut one: Vec<Subword> = Vec::new();
        let text = pad(cur, width);
        one.push(Subword::Unquoted(UnquotedSubword { text }));
        assert(subword_views(one@) =~= seq![SubwordView::Unquoted(padded(r.number(k as int), r.width))]);
        out.push(one);
        k += 1;
        if k < count {
            proof {
                lemma_fundamental_div_mod(span as int, step as int);
                lemma_mod_bound(span as int, step as int);
                assert(k * step <= span) by (nonlinear_arith)
                    requires
                        k <= span / step,
                        0 < step,
                        span == step * (span / step) + span % step,
                        0 <= span % step,
                ;
                assert(k * step == (k - 1) * step + step) by (nonlinear_arith);
            }
            if up {
                cur = cur + step;
            } else {
                cur = cur - step;
            }
        }
    }
    assert(lists_view(out@) =~= r.texts().map_values(|v: Seq<char>| seq![SubwordView::Unquoted(v)]));
    out
}

/// A copy of `subs[from..to]`.
fn copy_range(subs: &Vec<Subword>, from: usize, to: usize) -> (out: Vec<Subword>)
    requires
        from <= to <= subs.len(),
    ensures
        subword_views(out@) == subword_views(subs@).subrange(from as int, to as int),
        out@.len() == to - from,
{
    let mut out: Vec<Subword> = Vec::new();
    let mut i: usize = from;
    while i < to
        invariant
            from <= i <= to <= subs.len(),
            out@.len() == i - from,
            forall|k: int| 0 <= k < i - from ==> (#[trigger] out@[k])@ == subs@[from + k]@,
        decreases to - i,
    {
        out.push(subs[i].duplicate());
        i += 1;
    }
    assert(subword_views(out@) =~= subword_views(subs@).subrange(from as int, to as int));
    out
}

/// The choices of the group `i..=e`.
fn get_choices(subs: &Vec<Subword>, i: usize, e: usize) -> (r: Option<Vec<Vec<Subword>>>)
    requires
        i < e < subs.len(),
    ensures
        match choices(subword_views(subs@), i as int, e as int) {
            Some(c) => r matches Some(out) && lists_view(out@) == c,
            None => r is None,
        },
{
    let ghost v = subword_views(subs@);
    let c = find_commas(subs, i, e);
    let ghost ci = c@.map_values(|x: usize| x as int);
    if c.len() > 0 {
        let ghost d = seq![i as int] + ci + seq![e as int];
        proof {
            lemma_commas(v, i + 1, e as int, 0);
        }
        let mut out: Vec<Vec<Subword>> = Vec::new();
        let mut k: usize = 0;
        let mut from: usize = i + 1;
        while k < c.len()
            invariant
                k <= c.len(),
                i < e < subs.len(),
                v == subword_views(subs@),
                ci == c@.map_values(|x: usize| x as int),
                ordered_within(ci, i + 1, e as int),
                d == seq![i as int] + ci + seq![e as int],
                from == d[k as int] + 1,
                out@.len() == k,
                forall|j: int|
                    0 <= j < k ==> subword_views((#[trigger] out@[j])@) == alternative(
                        v,
                        i as int,
                        e as int,
                        d,
                        j,
                    ),
            decreases c.len() - k,
        {
            let to: usize = c[k];
            proof {
                assert(ci[k as int] == c@[k as int]);
                assert(d[k + 1] == ci[k as int]);
                if k > 0 {
                    assert(d[k as int] == ci[k - 1]);
                    assert(ci[k - 1] < ci[k as int]);
                }
            }
            let piece = copy_range(subs, from, to);
            out.push(piece);
            from = to + 1;
            k += 1;
        }
        proof {
            assert(d[k + 1] == e);
            assert(d[k as int] == ci[k - 1]);
        }
        let piece = copy_range(subs, from, e);
        out.push(piece);
        assert(lists_view(out@) =~= Seq::new(
            (d.len() - 1) as nat,
            |k: int| alternative(v, i as int, e as int, d, k),
        ));
        return Some(out);
    }
    if e == i + 2 {
        match &subs[i + 1] {
            Subword::Unquoted(s) => match read_range(s.text.as_str()) {
                Some((first, last, step, width)) => Some(range_choices(first, last, step, width)),
                None => None,
            },
            _ => None,
        }
    } else {
        None
    }
}

/// The first group at or after `i` that offers choices, with its choices.
fn find_first_group(subs: &Vec<Subword>, i: usize) -> (r: Option<(usize, usize, Vec<Vec<Subword>>)>)
    requires
        i <= subs.len(),
    ensures
        match first_group(subword_views(subs@), i as int) {
            Some((a, e)) => r matches Some((x, y, c)) && x == a && y == e && lists_view(c@)
                == choices(subword_views(subs@), a, e)->0 && x < y < subs.len(),
            None => r is None,
        },
{
    let ghost v = subword_views(subs@);
    let mut j: usize = i;
    while j < subs.len()
        invariant
            i <= j <= subs.len(),
            v == subword_views(subs@),
            first_group(v, j as int) == first_group(v, i as int),
        decreases subs.len() - j,
    {
        if is_tok(&subs[j], '{') {
            if let Some(e) = find_group_end(subs, j + 1) {
                if let Some(c) = get_choices(subs, j, e) {
                    return Some((j, e, c));
                }
            }
        }
        j += 1;
    }
    None
}

/// Joins three lists of subwords.
fn splice(subs: &Vec<Subword>, i: usize, alt: &Vec<Subword>, e: usize) -> (out: Vec<Subword>)
    requires
        i < e < subs.len(),
    ensures
        subword_views(out@) == subword_views(subs@).take(i as int) + subword_views(alt@)
            + subword_views(subs@).skip(e + 1),
        out@.len() == i + alt@.len() + (subs@.len() - e - 1),
{
    let mut out = copy_range(subs, 0, i);
    let mut k: usize = 0;
    let ghost base = subword_views(out@);
    assert(base =~= subword_views(subs@).take(i as int));
    while k < alt.len()
        invariant
            k <= alt.len(),
            out@.len() == i + k,
            subword_views(out@) == base + subword_views(alt@).take(k as int),
        decreases alt.len() - k,
    {
        let ghost before = subword_views(out@);
        push_subword(&mut out, alt[k].duplicate());
        k += 1;
        assert(subword_views(out@) =~= base + subword_views(alt@).take(k as int));
    }
    assert(subword_views(alt@).take(k as int) =~= subword_views(alt@));
    let mut j: usize = e + 1;
    let ghost mid = subword_views(out@);
    while j < subs.len()
        invariant
            e < j <= subs.len(),
            out@.len() == i + alt@.len() + (j - e - 1),
            subword_views(out@) == mid + subword_views(subs@).subrange(e + 1, j as int),
        decreases subs.len() - j,
    {
        push_subword(&mut out, subs[j].duplicate());
        j += 1;
        assert(subword_views(out@) =~= mid + subword_views(subs@).subrange(e + 1, j as int));
    }
    assert(subword_views(subs@).subrange(e + 1, j as int) =~= subword_views(subs@).skip(e + 1));
    out
}

/// The lists of subwords that a list stands for after brace expansion.
pub fn expand(subs: &Vec<Subword>) -> (out: Vec<Vec<Subword>>)
    ensures
        lists_view(out@) == brace_expanded(subword_views(subs@)),
    decreases subs@.len(),
{
    let ghost v = subword_views(subs@);
    let mut out: Vec<Vec<Subword>> = Vec::new();
    match find_first_group(subs, 0) {
        None => {
            out.push(copy_range(subs, 0, subs.len()));
            assert(v.subrange(0, v.len() as int) =~= v);
            assert(lists_view(out@) =~= seq![v]);
            out
        },
        Some((i, e, alts)) => {
            let ghost c = choices(v, i as int, e as int)->0;
            proof {
                lemma_first_group(v, 0);
            }
            let mut k: usize = 0;
            assert(lists_view(out@) =~= Seq::<Seq<SubwordView>>::empty());
            while k < alts.len()
                invariant
                    k <= alts.len(),
                    i < e < subs.len(),
                    v == subword_views(subs@),
                    choices(v, i as int, e as int) == Some(c),
                    lists_view(alts@) == c,
                    lists_view(out@) + expanded_choices(v, i as int, e as int, k as int)
                        == expanded_choices(v, i as int, e as int, 0),
                decreases alts.len() - k,
            {
                proof {
                    lemma_choice_length(v, i as int, e as int, k as int);
                    assert(c[k as int] == subword_views(alts@[k as int]@));
                }
                let w = splice(subs, i, &alts[k], e);
                let mut more = expand(&w);
                let ghost done = lists_view(out@);
                let ghost added = lists_view(more@);
                let mut m: usize = 0;
                let mut rest: Vec<Vec<Subword>> = Vec::new();
                std::mem::swap(&mut rest, &mut more);
                append_lists(&mut out, rest);
                assert(done + added + expanded_choices(v, i as int, e as int, k + 1) =~= done + (
                added + expanded_choices(v, i as int, e as int, k + 1)));
                k += 1;
            }
            assert(lists_view(out@) + Seq::<Seq<SubwordView>>::empty() =~= lists_view(out@));
            out
        },
    }
}

/// Moves the lists of `more` to the end of `out`.
fn append_lists(out: &mut Vec<Vec<Subword>>, more: Vec<Vec<Subword>>)
    ensures
        lists_view(final(out)@) == lists_view(old(out)@) + lists_view(more@),
{
    let mut more = more;
    let ghost all = lists_view(more@);
    let ghost base = lists_view(out@);
    let mut taken: Vec<Vec<Subword>> = Vec::new();
    // The lists are taken from the end and put back in order.
    while more.len() > 0
        invariant
            lists_view(more@) + lists_view(taken@).reverse() == all,
        decreases more.len(),
    {
        let ghost m = lists_view(more@);
        let ghost t = lists_view(taken@);
        let last = more.pop().unwrap();
        taken.push(last);
        assert(lists_view(more@) =~= m.drop_last());
        assert(lists_view(taken@) =~= t.push(m.last()));
        assert(lists_view(more@) + lists_view(taken@).reverse() =~= m + t.reverse());
    }
    assert(lists_view(taken@).reverse() =~= all);
    while taken.len() > 0
        invariant
            lists_view(out@) + lists_view(taken@).reverse() == base + all,
        decreases taken.len(),
    {
        let ghost o = lists_view(out@);
        let ghost t = lists_view(taken@);
        let last = taken.pop().unwrap();
        out.push(last);
        assert(lists_view(taken@) =~= t.drop_last());
        assert(lists_view(out@) =~= o.push(t.last()));
        assert(lists_view(out@) + lists_view(taken@).reverse() =~= o + t.reverse());
    }
    assert(lists_view(taken@).reverse() =~= Seq::<Seq<SubwordView>>::empty());
    assert(lists_view(out@) + Seq::<Seq<SubwordView>>::empty() =~= lists_view(out@));
}

/// The words that a word stands for after brace expansion.
pub fn eval(word: &Word) -> (out: Vec<Word>)
    ensures
        out@.len() == brace_expanded(word@.subwords).len(),
        forall|k: int|
            0 <= k < out@.len() ==> (#[trigger] out@[k])@ == (WordView {
                text: concat_texts(brace_expanded(word@.subwords)[k]),
                subwords: brace_expanded(word@.subwords)[k],
            }),
{
    let mut lists = expand(&word.subwords);
    let ghost all = lists_view(lists@);
    let mut rev: Vec<Word> = Vec::new();
    while lists.len() > 0
        invariant
            lists_view(lists@) == all.take(lists@.len() as int),
            lists@.len() + rev@.len() == all.len(),
            forall|k: int|
                0 <= k < rev@.len() ==> (#[trigger] rev@[k])@ == (WordView {
                    text: concat_texts(all[all.len() - 1 - k]),
                    subwords: all[all.len() - 1 - k],
                }),
        decreases lists.len(),
    {
        let ghost before = lists_view(lists@);
        let subwords = lists.pop().unwrap();
        assert(lists_view(lists@) =~= before.drop_last());
        assert(before.last() == subword_views(subwords@));
        let text = join_texts(&subwords);
        rev.push(Word { text, subwords });
        assert(lists_view(lists@) =~= all.take(lists@.len() as int));
    }
    let mut out: Vec<Word> = Vec::new();
    while rev.len() > 0
        invariant
            out@.len() + rev@.len() == all.len(),
            forall|k: int|
                0 <= k < rev@.len() ==> (#[trigger] rev@[k])@ == (WordView {
                    text: concat_texts(all[all.len() - 1 - k]),
                    subwords: all[all.len() - 1 - k],
                }),
            forall|k: int|
                0 <= k < out@.len() ==> (#[trigger] out@[k])@ == (WordView {
                    text: concat_texts(all[k]),
                    subwords: all[k],
                }),
        decreases rev.len(),
    {
        let w = rev.pop().unwrap();
        out.push(w);
    }
    out
}

} // verus!
