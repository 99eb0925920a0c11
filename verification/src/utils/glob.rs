//! Pathname expansion, as far as it is a decision: what becomes of a pattern
//! once the file system has been searched. The search is for the caller.

use vstd::prelude::*;
use crate::text::to_chars;
use crate::text::from_chars;
use crate::text::views;

verus! {

/// Whether `a` stands before `b` in the order of the dictionary, or is `b`:
/// at the first place where they differ `a` has the smaller character, or `a`
/// is a beginning of `b`.
pub open spec fn text_le(a: Seq<char>, b: Seq<char>) -> bool
    decreases a.len(),
{
    if a.len() == 0 {
        true
    } else if b.len() == 0 {
        false
    } else if a[0] != b[0] {
        a[0] < b[0]
    } else {
        text_le(a.drop_first(), b.drop_first())
    }
}

pub proof fn lemma_le_total(a: Seq<char>, b: Seq<char>)
    ensures
        text_le(a, b) || text_le(b, a),
    decreases a.len(),
{
    if a.len() > 0 && b.len() > 0 && a[0] == b[0] {
        lemma_le_total(a.drop_first(), b.drop_first());
    }
}

pub proof fn lemma_le_transitive(a: Seq<char>, b: Seq<char>, c: Seq<char>)
    requires
        text_le(a, b),
        text_le(b, c),
    ensures
        text_le(a, c),
    decreases a.len(),
{
    if a.len() > 0 && b.len() > 0 && c.len() > 0 {
        if a[0] == b[0] && b[0] == c[0] {
            lemma_le_transitive(a.drop_first(), b.drop_first(), c.drop_first());
        }
    }
}

/// Whether the texts stand in the order of the dictionary.
pub open spec fn sorted(s: Seq<Seq<char>>) -> bool {
    forall|i: int, j: int| 0 <= i <= j < s.len() ==> text_le(#[trigger] s[i], #[trigger] s[j])
}

/// Compares two texts in the order of the dictionary.
pub fn le(a: &Vec<char>, b: &Vec<char>) -> (r: bool)
    ensures
        r == text_le(a@, b@),
{
    let mut i: usize = 0;
    proof {
        assert(a@.skip(0) =~= a@);
        assert(b@.skip(0) =~= b@);
    }
    while i < a.len() && i < b.len()
        invariant
            i <= a.len(),
            i <= b.len(),
            text_le(a@, b@) == text_le(a@.skip(i as int), b@.skip(i as int)),
        decreases a.len() - i,
    {
        proof {
            assert(a@.skip(i as int)[0] == a@[i as int]);
            assert(b@.skip(i as int)[0] == b@[i as int]);
            assert(a@.skip(i as int).drop_first() =~= a@.skip(i + 1));
            assert(b@.skip(i as int).drop_first() =~= b@.skip(i + 1));
        }
        if a[i] != b[i] {
            return a[i] < b[i];
        }
        i += 1;
    }
    i == a.len()
}

/// Puts the paths in the order of the dictionary.
pub fn sort_paths(paths: &Vec<String>) -> (out: Vec<String>)
    ensures
        sorted(views(out@)),
        views(out@).to_multiset() == views(paths@).to_multiset(),
        out@.len() == paths@.len(),
{
    let mut work: Vec<Vec<char>> = Vec::new();
    let mut i: usize = 0;
    while i < paths.len()
        invariant
            i <= paths.len(),
            work@.len() == i,
            forall|k: int| 0 <= k < i ==> (#[trigger] work@[k])@ == paths@[k]@,
        decreases paths.len() - i,
    {
        work.push(to_chars(paths[i].as_str()));
        i += 1;
    }
    let ghost all = views(paths@);
    assert(chars_views(work@) =~= all);
    let mut out: Vec<String> = Vec::new();
    assert(views(out@) =~= Seq::<Seq<char>>::empty());
    proof {
        assert(views(out@) + chars_views(work@) =~= all);
    }
    while work.len() > 0
        invariant
            sorted(views(out@)),
            forall|x: int, y: int|
                0 <= x < out@.len() && 0 <= y < work@.len() ==> text_le(
                    #[trigger] views(out@)[x],
                    #[trigger] chars_views(work@)[y],
                ),
            (views(out@) + chars_views(work@)).to_multiset() == all.to_multiset(),
            out@.len() + work@.len() == paths@.len(),
        decreases work.len(),
    {
        let mut least: usize = 0;
        let mut k: usize = 1;
        proof {
            lemma_le_total(work@[0]@, work@[0]@);
        }
        while k < work.len()
            invariant
                1 <= k <= work.len(),
                least < k,
                forall|j: int| 0 <= j < k ==> text_le(work@[least as int]@, #[trigger] work@[j]@),
            decreases work.len() - k,
        {
            if !le(&work[least], &work[k]) {
                proof {
                    lemma_le_total(work@[least as int]@, work@[k as int]@);
                    assert forall|j: int| 0 <= j < k + 1 implies text_le(
                        work@[k as int]@,
                        #[trigger] work@[j]@,
                    ) by {
                        if j < k {
                            lemma_le_transitive(work@[k as int]@, work@[least as int]@, work@[j]@);
                        } else {
                            lemma_le_total(work@[k as int]@, work@[k as int]@);
                        }
                    }
                }
                least = k;
            } else {
                proof {
                    lemma_le_total(work@[least as int]@, work@[least as int]@);
                }
            }
            k += 1;
        }
        let ghost w0 = chars_views(work@);
        let ghost o0 = views(out@);
        let taken = work.remove(least);
        let text = from_chars(&taken);
        out.push(text);
        proof {
            assert(chars_views(work@) =~= w0.remove(least as int));
            assert(views(out@) =~= o0.push(w0[least as int]));
            w0.to_multiset_ensures();
            o0.to_multiset_ensures();
            vstd::seq_lib::lemma_multiset_commutative(o0, w0);
            vstd::seq_lib::lemma_multiset_commutative(views(out@), chars_views(work@));
            assert(w0.to_multiset().count(w0[least as int]) > 0) by {
                assert(w0.contains(w0[least as int]));
            }
            assert((views(out@) + chars_views(work@)).to_multiset() =~= (o0 + w0).to_multiset());
            assert forall|x: int, y: int| 0 <= x <= y < out@.len() implies text_le(
                #[trigger] views(out@)[x],
                #[trigger] views(out@)[y],
            ) by {
                if y == out@.len() - 1 {
                    if x < y {
                        assert(views(out@)[x] == o0[x]);
                    } else {
                        lemma_le_total(w0[least as int], w0[least as int]);
                    }
                } else {
                    assert(views(out@)[x] == o0[x]);
                    assert(views(out@)[y] == o0[y]);
                }
            }
            assert forall|x: int, y: int|
                0 <= x < out@.len() && 0 <= y < work@.len() implies text_le(
                #[trigger] views(out@)[x],
                #[trigger] chars_views(work@)[y],
            ) by {
                let yy = if y < least {
                    y
                } else {
                    y + 1
                };
                assert(chars_views(work@)[y] == w0[yy]);
                if x < out@.len() - 1 {
                    assert(views(out@)[x] == o0[x]);
                }
            }
        }
    }
    proof {
        assert(views(out@) + chars_views(work@) =~= views(out@));
    }
    out
}

/// The views of a list of character vectors.
pub open spec fn chars_views(v: Seq<Vec<char>>) -> Seq<Seq<char>> {
    v.map_values(|w: Vec<char>| w@)
}

/// A pattern as it is handed on where nothing matches it: `\*` stands for
/// `*` and `\\` for a backslash.
pub open spec fn literal_pattern(s: Seq<char>) -> Seq<char>
    decreases s.len(),
{
    if s.len() == 0 {
        s
    } else if s.len() >= 2 && s[0] == '\\' && (s[1] == '*' || s[1] == '\\') {
        seq![s[1]] + literal_pattern(s.skip(2))
    } else {
        seq![s[0]] + literal_pattern(s.skip(1))
    }
}

/// What a pattern expands to once the file system gave `matches` for it: the
/// matches in the order of the dictionary. Where there are none, it is the
/// pattern itself, or with `nullglob` nothing at all.
pub fn expand(text: &String, matches: &Vec<String>, nullglob: bool) -> (out: Vec<String>)
    ensures
        matches@.len() == 0 && nullglob ==> out@.len() == 0,
        matches@.len() == 0 && !nullglob ==> views(out@) == seq![literal_pattern(text@)],
        matches@.len() > 0 ==> sorted(views(out@)) && views(out@).to_multiset() == views(
            matches@,
        ).to_multiset(),
{
    if matches.len() > 0 {
        return sort_paths(matches);
    }
    if nullglob {
        return Vec::new();
    }
    let v = to_chars(text.as_str());
    let mut lit: Vec<char> = Vec::new();
    let mut i: usize = 0;
    proof {
        assert(v@.skip(0) =~= v@);
    }
    while i < v.len()
        invariant
            i <= v.len(),
            lit@ + literal_pattern(v@.skip(i as int)) == literal_pattern(v@),
        decreases v.len() - i,
    {
        let ghost rest = v@.skip(i as int);
        let ghost before = lit@;
        assert(rest[0] == v@[i as int]);
        if i + 1 < v.len() && v[i] == '\\' && (v[i + 1] == '*' || v[i + 1] == '\\') {
            assert(rest[1] == v@[i + 1]);
            lit.push(v[i + 1]);
            assert(rest.skip(2) =~= v@.skip(i + 2));
            assert(lit@ + literal_pattern(v@.skip(i + 2)) =~= before + (seq![rest[1]]
                + literal_pattern(rest.skip(2))));
            i += 2;
        } else {
            if i + 1 < v.len() {
                assert(rest[1] == v@[i + 1]);
            }
            lit.push(v[i]);
            assert(rest.skip(1) =~= v@.skip(i + 1));
            assert(lit@ + literal_pattern(v@.skip(i + 1)) =~= before + (seq![rest[0]]
                + literal_pattern(rest.skip(1))));
            i += 1;
        }
    }
    assert(lit@ + Seq::<char>::empty() =~= lit@);
    let mut out: Vec<String> = Vec::new();
    out.push(from_chars(&lit));
    assert(views(out@) =~= seq![literal_pattern(text@)]);
    out
}

/// Where the members of a bracket expression begin, which opens at the
/// start of `p`: behind the bracket, and behind a `!` or `^` that follows it.
pub open spec fn class_start(p: Seq<char>) -> int {
    if p.len() >= 2 && (p[1] == '!' || p[1] == '^') {
        2
    } else {
        1
    }
}

/// The first closing bracket at or after `k`.
pub open spec fn closing(p: Seq<char>, k: int) -> Option<int>
    decreases p.len() - k,
{
    if k < 0 || k >= p.len() {
        None
    } else if p[k] == ']' {
        Some(k)
    } else {
        closing(p, k + 1)
    }
}

pub proof fn lemma_closing_bound(p: Seq<char>, k: int)
    requires
        0 <= k,
    ensures
        closing(p, k) matches Some(e) ==> k <= e < p.len() && p[e] == ']',
    decreases p.len() - k,
{
    if k < p.len() && p[k] != ']' {
        lemma_closing_bound(p, k + 1);
    }
}

/// The bracket that closes the bracket expression at the start of `p`. A
/// closing bracket that is the first member is a member.
pub open spec fn class_end(p: Seq<char>) -> Option<int> {
    closing(p, class_start(p) + 1)
}

/// Whether `c` is one of the members `p[k..e]`: a member is a character, or
/// a range of characters written with a `-` between its ends.
pub open spec fn class_has(p: Seq<char>, k: int, e: int, c: char) -> bool
    decreases e - k,
{
    if k < 0 || k >= e || e > p.len() {
        false
    } else if k + 2 < e && p[k + 1] == '-' {
        (p[k] <= c && c <= p[k + 2]) || class_has(p, k + 3, e, c)
    } else {
        p[k] == c || class_has(p, k + 1, e, c)
    }
}

/// Whether the bracket expression at the start of `p`, which closes at `e`,
/// matches `c`: `c` is a member, or is none where the members begin with `!`
/// or `^`.
pub open spec fn in_class(p: Seq<char>, e: int, c: char) -> bool {
    class_has(p, class_start(p), e, c) == (class_start(p) == 1)
}

/// Whether the pattern `p` matches all of the text `t`. A `*` matches any
/// text, a `?` any character, a bracket expression each of its members, a
/// backslash with a character that character, and any other character
/// itself. A bracket that is never closed stands for itself.
pub open spec fn glob_matches(p: Seq<char>, t: Seq<char>) -> bool
    decreases p.len(), t.len(),
{
    if p.len() == 0 {
        t.len() == 0
    } else if p[0] == '*' {
        glob_matches(p.skip(1), t) || (t.len() > 0 && glob_matches(p, t.skip(1)))
    } else if t.len() == 0 {
        false
    } else if p[0] == '?' {
        glob_matches(p.skip(1), t.skip(1))
    } else if p[0] == '\\' && p.len() >= 2 {
        t[0] == p[1] && glob_matches(p.skip(2), t.skip(1))
    } else if p[0] == '[' && class_end(p) is Some {
        proof {
            lemma_closing_bound(p, class_start(p) + 1);
        }
        in_class(p, class_end(p)->0, t[0]) && glob_matches(p.skip(class_end(p)->0 + 1), t.skip(1))
    } else {
        t[0] == p[0] && glob_matches(p.skip(1), t.skip(1))
    }
}

fn find_closing(p: &Vec<char>, from: usize) -> (r: Option<usize>)
    ensures
        match closing(p@, from as int) {
            Some(e) => r == Some(e as usize) && from <= e < p@.len() && p@[e] == ']',
            None => r is None,
        },
{
    let mut k: usize = from;
    while k < p.len()
        invariant
            from <= k,
            closing(p@, k as int) == closing(p@, from as int),
        decreases p.len() - k,
    {
        if p[k] == ']' {
            return Some(k);
        }
        k += 1;
    }
    None
}

fn member(p: &Vec<char>, from: usize, e: usize, c: char) -> (b: bool)
    requires
        from <= e <= p@.len(),
    ensures
        b == class_has(p@, from as int, e as int, c),
{
    let mut k: usize = from;
    while k < e
        invariant
            from <= k,
            e <= p@.len(),
            class_has(p@, k as int, e as int, c) == class_has(p@, from as int, e as int, c),
        decreases e - k,
    {
        if e - k > 2 && p[k + 1] == '-' {
            if p[k] <= c && c <= p[k + 2] {
                return true;
            }
            k += 3;
        } else {
            if p[k] == c {
                return true;
            }
            k += 1;
        }
    }
    false
}

/// Whether the pattern `p[pi..]` matches the text `t[ti..]`.
fn matches_from(p: &Vec<char>, pi: usize, t: &Vec<char>, ti: usize) -> (b: bool)
    requires
        pi <= p@.len(),
        ti <= t@.len(),
    ensures
        b == glob_matches(p@.skip(pi as int), t@.skip(ti as int)),
    decreases p@.len() - pi, t@.len() - ti,
{
    let ghost ps = p@.skip(pi as int);
    let ghost ts = t@.skip(ti as int);
    if pi == p.len() {
        return ti == t.len();
    }
    let c = p[pi];
    assert(ps[0] == c);
    proof {
        assert(ps.skip(1) =~= p@.skip(pi + 1));
        if ti < t.len() {
            assert(ts.skip(1) =~= t@.skip(ti + 1));
            assert(ts[0] == t@[ti as int]);
        }
    }
    if c == '*' {
        if matches_from(p, pi + 1, t, ti) {
            return true;
        }
        return ti < t.len() && matches_from(p, pi, t, ti + 1);
    }
    if ti == t.len() {
        return false;
    }
    if c == '?' {
        return matches_from(p, pi + 1, t, ti + 1);
    }
    if c == '\\' && p.len() - pi >= 2 {
        proof {
            assert(ps[1] == p@[pi + 1]);
            assert(ps.skip(2) =~= p@.skip(pi + 2));
        }
        return t[ti] == p[pi + 1] && matches_from(p, pi + 2, t, ti + 1);
    }
    if c == '[' {
        let negated = p.len() - pi >= 2 && (p[pi + 1] == '!' || p[pi + 1] == '^');
        let start: usize = if negated {
            pi + 2
        } else {
            pi + 1
        };
        proof {
            if p@.len() - pi >= 2 {
                assert(ps[1] == p@[pi + 1]);
            }
            assert(class_start(ps) == start - pi);
        }
        if start < p.len() {
            let found = find_closing(p, start + 1);
            proof {
                lemma_closing_skip(p@, pi as int, start + 1 - pi);
            }
            if let Some(e) = found {
                let inside = member(p, start, e, t[ti]);
                proof {
                    lemma_class_skip(p@, pi as int, start - pi, e - pi, t@[ti as int]);
                    assert(ps.skip(e - pi + 1) =~= p@.skip(e + 1));
                }
                return (inside == !negated) && matches_from(p, e + 1, t, ti + 1);
            }
        } else {
            proof {
                assert(closing(ps, class_start(ps) + 1) is None);
            }
        }
    }
    t[ti] == c && matches_from(p, pi + 1, t, ti + 1)
}

proof fn lemma_closing_skip(p: Seq<char>, at: int, k: int)
    requires
        0 <= at <= p.len(),
        0 <= k,
    ensures
        closing(p.skip(at), k) == match closing(p, at + k) {
            Some(e) => Some(e - at),
            None => None,
        },
    decreases p.len() - at - k,
{
    let q = p.skip(at);
    if k < q.len() {
        assert(q[k] == p[at + k]);
        if q[k] != ']' {
            lemma_closing_skip(p, at, k + 1);
        }
    }
}

proof fn lemma_class_skip(p: Seq<char>, at: int, k: int, e: int, c: char)
    requires
        0 <= at,
        0 <= k,
        at + e <= p.len(),
    ensures
        class_has(p.skip(at), k, e, c) == class_has(p, at + k, at + e, c),
    decreases e - k,
{
    let q = p.skip(at);
    if k < e {
        assert(q[k] == p[at + k]);
        if k + 2 < e {
            assert(q[k + 1] == p[at + k + 1]);
            assert(q[k + 2] == p[at + k + 2]);
            if q[k + 1] == '-' {
                lemma_class_skip(p, at, k + 3, e, c);
            } else {
                lemma_class_skip(p, at, k + 1, e, c);
            }
        } else {
            lemma_class_skip(p, at, k + 1, e, c);
        }
    }
}

/// Whether the pattern matches all of the text.
pub fn pattern_matches(pattern: &str, text: &str) -> (b: bool)
    ensures
        b == glob_matches(pattern@, text@),
{
    let p = to_chars(pattern);
    let t = to_chars(text);
    proof {
        assert(p@.skip(0) =~= p@);
        assert(t@.skip(0) =~= t@);
    }
    matches_from(&p, 0, &t, 0)
}

} // verus!
