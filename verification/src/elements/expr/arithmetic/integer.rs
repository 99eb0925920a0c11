//! Integer arithmetic: the operators on 64-bit signed numbers and the
//! reading of integer literals in any base from 2 to 64.

use vstd::prelude::*;
use crate::elements::expr::arithmetic::elem::ArithElem;
use crate::shell::ShellCore;
use crate::text::decimal;
use crate::text::digit;
use crate::text::find_char;
use crate::text::i64_to_string;
use crate::text::str_is;
use crate::text::to_chars;
use crate::text::chars_eq;
use crate::text::substring;
use vstd::arithmetic::div_mod::lemma_mul_mod_noop_general;

verus! {

/// What a unary operator makes of a number; `None` for a name that is no
/// unary operator. Negation wraps round at the ends of the 64-bit range.
pub open spec fn unary_value(op: Seq<char>, num: i64) -> Option<i64> {
    if op == "+"@ {
        Some(num)
    } else if op == "-"@ {
        Some(0i64.wrapping_sub(num))
    } else if op == "!"@ {
        Some(
            if num == 0 {
                1i64
            } else {
                0i64
            },
        )
    } else if op == "~"@ {
        Some(!num)
    } else {
        None
    }
}

/// Applies a unary operator to `num` and pushes the result.
pub fn unary_calc(op: &str, num: i64, stack: &mut Vec<ArithElem>) -> (r: Result<(), String>)
    ensures
        match unary_value(op@, num) {
            Some(v) => r is Ok && final(stack)@ == old(stack)@.push(ArithElem::Integer(v)),
            None => r matches Err(msg) && msg@ == "unknown unary operator"@ && final(stack)@ == old(
                stack,
            )@,
        },
{
    let v: i64 = if str_is(op, "+") {
        num
    } else if str_is(op, "-") {
        0i64.wrapping_sub(num)
    } else if str_is(op, "!") {
        if num == 0 {
            1
        } else {
            0
        }
    } else if str_is(op, "~") {
        !num
    } else {
        return Err(String::from_str("unknown unary operator"));
    };
    stack.push(ArithElem::Integer(v));
    Ok(())
}

pub open spec fn magnitude(x: int) -> int {
    if x < 0 {
        -x
    } else {
        x
    }
}

/// The quotient of a division that rounds toward zero.
pub open spec fn quotient(x: int, d: int) -> int
    recommends
        d != 0,
{
    let q = magnitude(x) / magnitude(d);
    if (x < 0) != (d < 0) {
        -q
    } else {
        q
    }
}

/// The remainder that goes with `quotient`; it has the sign of the dividend.
pub open spec fn remainder(x: int, d: int) -> int
    recommends
        d != 0,
{
    let m = magnitude(x) % magnitude(d);
    if x < 0 {
        -m
    } else {
        m
    }
}

/// The number in the 64-bit signed range that differs from `x` by a multiple
/// of 2^64.
pub open spec fn wrap(x: int) -> i64 {
    let m = x % 0x1_0000_0000_0000_0000;
    if m > i64::MAX {
        (m - 0x1_0000_0000_0000_0000) as i64
    } else {
        m as i64
    }
}

/// `base` to the power `exp`.
pub open spec fn power(base: int, exp: nat) -> int
    decreases exp,
{
    if exp == 0 {
        1
    } else {
        base * power(base, (exp - 1) as nat)
    }
}

pub open spec fn truth(b: bool) -> i64 {
    if b {
        1
    } else {
        0
    }
}

/// What a binary operator makes of two numbers. Sums, differences, products
/// and powers wrap round at the ends of the 64-bit range; a shift by a
/// negative count gives 0, and of any other count only the last six bits
/// count. `None` where the operation has no value: a division by zero, a
/// negative exponent, a name that is no operator.
pub open spec fn binary_value(op: Seq<char>, left: i64, right: i64) -> Option<i64> {
    if op == "+"@ {
        Some(left.wrapping_add(right))
    } else if op == "-"@ {
        Some(left.wrapping_sub(right))
    } else if op == "*"@ {
        Some(left.wrapping_mul(right))
    } else if op == "&"@ {
        Some(left & right)
    } else if op == "^"@ {
        Some(left ^ right)
    } else if op == "|"@ {
        Some(left | right)
    } else if op == "&&"@ {
        Some(truth(left != 0 && right != 0))
    } else if op == "||"@ {
        Some(truth(left != 0 || right != 0))
    } else if op == "<<"@ {
        Some(
            if right < 0 {
                0i64
            } else {
                left << ((right % 64) as u32)
            },
        )
    } else if op == ">>"@ {
        Some(
            if right < 0 {
                0i64
            } else {
                left >> ((right % 64) as u32)
            },
        )
    } else if op == "<="@ {
        Some(truth(left <= right))
    } else if op == ">="@ {
        Some(truth(left >= right))
    } else if op == "<"@ {
        Some(truth(left < right))
    } else if op == ">"@ {
        Some(truth(left > right))
    } else if op == "=="@ {
        Some(truth(left == right))
    } else if op == "!="@ {
        Some(truth(left != right))
    } else if op == "%"@ {
        if right == 0 {
            None
        } else {
            Some(wrap(remainder(left as int, right as int)))
        }
    } else if op == "/"@ {
        if right == 0 {
            None
        } else {
            Some(wrap(quotient(left as int, right as int)))
        }
    } else if op == "**"@ {
        if right < 0 {
            None
        } else {
            Some(wrap(power(left as int, right as nat)))
        }
    } else {
        None
    }
}

/// The message that goes with an operation without a value.
pub open spec fn binary_error(op: Seq<char>, right: i64) -> Seq<char> {
    if (op == "%"@ || op == "/"@) && right == 0 {
        "divided by 0"@
    } else if op == "**"@ && right < 0 {
        "exponent less than 0 (error token is \""@ + decimal(right as int) + "\")"@
    } else {
        "unknown binary operator"@
    }
}

proof fn lemma_wrap_congruent(x: int)
    ensures
        (wrap(x) as int) % 0x1_0000_0000_0000_0000 == x % 0x1_0000_0000_0000_0000,
{
}

proof fn lemma_wrap_product(a: int, a2: int, b: int, b2: int)
    requires
        a % 0x1_0000_0000_0000_0000 == a2 % 0x1_0000_0000_0000_0000,
        b % 0x1_0000_0000_0000_0000 == b2 % 0x1_0000_0000_0000_0000,
    ensures
        (a * b) % 0x1_0000_0000_0000_0000 == (a2 * b2) % 0x1_0000_0000_0000_0000,
        wrap(a * b) == wrap(a2 * b2),
{
    lemma_mul_mod_noop_general(a, b, 0x1_0000_0000_0000_0000);
    lemma_mul_mod_noop_general(a2, b2, 0x1_0000_0000_0000_0000);
}

proof fn lemma_power_congruent(a: int, a2: int, k: nat)
    requires
        a % 0x1_0000_0000_0000_0000 == a2 % 0x1_0000_0000_0000_0000,
    ensures
        power(a, k) % 0x1_0000_0000_0000_0000 == power(a2, k) % 0x1_0000_0000_0000_0000,
    decreases k,
{
    if k > 0 {
        lemma_power_congruent(a, a2, (k - 1) as nat);
        lemma_wrap_product(a, a2, power(a, (k - 1) as nat), power(a2, (k - 1) as nat));
    }
}

proof fn lemma_power_square(b: int, k: nat)
    ensures
        power(b * b, k) == power(b, 2 * k),
    decreases k,
{
    if k > 0 {
        lemma_power_square(b, (k - 1) as nat);
        assert(power(b, 2 * k) == b * power(b, (2 * k - 1) as nat));
        assert(power(b, (2 * k - 1) as nat) == b * power(b, (2 * k - 2) as nat));
        assert(power(b * b, k) == (b * b) * power(b * b, (k - 1) as nat));
        assert((b * b) * power(b, (2 * k - 2) as nat) == b * (b * power(b, (2 * k - 2) as nat)))
            by (nonlinear_arith);
    }
}

/// `base` to the power `exp`, wrapped into the 64-bit range, by repeated
/// squaring.
fn wrapping_power(base: i64, exp: i64) -> (r: i64)
    requires
        exp >= 0,
    ensures
        r == wrap(power(base as int, exp as nat)),
{
    let mut acc: i64 = 1;
    let mut b: i64 = base;
    let mut e: i64 = exp;
    assert(1 * power(base as int, exp as nat) == power(base as int, exp as nat));
    while e > 0
        invariant
            e >= 0,
            wrap(acc * power(b as int, e as nat)) == wrap(power(base as int, exp as nat)),
        decreases e,
    {
        let ghost k: nat = (e / 2) as nat;
        let ghost acc0 = acc as int;
        let ghost b0 = b as int;
        let odd = e % 2 == 1;
        if odd {
            acc = acc.wrapping_mul(b);
        }
        b = b.wrapping_mul(b);
        e = e / 2;
        proof {
            lemma_power_square(b0, k);
            lemma_wrap_congruent(b0 * b0);
            lemma_power_congruent(b as int, b0 * b0, k);
            if odd {
                assert(power(b0, (2 * k + 1) as nat) == b0 * power(b0, 2 * k));
                lemma_wrap_congruent(acc0 * b0);
                lemma_wrap_product(acc as int, acc0 * b0, power(b as int, k), power(b0 * b0, k));
                assert((acc0 * b0) * power(b0 * b0, k) == acc0 * (b0 * power(b0, 2 * k)))
                    by (nonlinear_arith)
                    requires
                        power(b0 * b0, k) == power(b0, 2 * k),
                ;
            } else {
                lemma_wrap_product(acc as int, acc0, power(b as int, k), power(b0 * b0, k));
            }
        }
    }
    assert(acc * power(b as int, 0) == acc as int);
    acc
}

fn wrapping_quotient(left: i64, right: i64) -> (r: i64)
    requires
        right != 0,
    ensures
        r == wrap(quotient(left as int, right as int)),
{
    match left.checked_div(right) {
        Some(v) => v,
        None => i64::MIN,
    }
}

fn wrapping_remainder(left: i64, right: i64) -> (r: i64)
    requires
        right != 0,
    ensures
        r == wrap(remainder(left as int, right as int)),
{
    match left.checked_rem(right) {
        Some(v) => v,
        None => 0,
    }
}

fn shift_left(left: i64, right: i64) -> (r: i64)
    requires
        right >= 0,
    ensures
        r == left << ((right % 64) as u32),
{
    let k: u32 = (right % 64) as u32;
    left << k
}

fn shift_right(left: i64, right: i64) -> (r: i64)
    requires
        right >= 0,
    ensures
        r == left >> ((right % 64) as u32),
{
    let k: u32 = (right % 64) as u32;
    left >> k
}

/// Whether the characters `o` are those of `lit`.
fn is_lit(o: &Vec<char>, lit: &str) -> (b: bool)
    ensures
        b == (o@ == lit@),
{
    let l = to_chars(lit);
    chars_eq(o, &l)
}

/// The value of a binary operation on integers, or the message that says why
/// it has none.
pub fn binary_operation(op: &str, left: i64, right: i64) -> (r: Result<i64, String>)
    ensures
        match binary_value(op@, left, right) {
            Some(v) => r == Ok::<i64, String>(v),
            None => r matches Err(msg) && msg@ == binary_error(op@, right),
        },
{
    let o = to_chars(op);
    if is_lit(&o, "+") {
        Ok(left.wrapping_add(right))
    } else if is_lit(&o, "-") {
        Ok(left.wrapping_sub(right))
    } else if is_lit(&o, "*") {
        Ok(left.wrapping_mul(right))
    } else if is_lit(&o, "&") {
        Ok(left & right)
    } else if is_lit(&o, "^") {
        Ok(left ^ right)
    } else if is_lit(&o, "|") {
        Ok(left | right)
    } else if is_lit(&o, "&&") {
        Ok(if left != 0 && right != 0 { 1 } else { 0 })
    } else if is_lit(&o, "||") {
        Ok(if left != 0 || right != 0 { 1 } else { 0 })
    } else if is_lit(&o, "<<") {
        if right < 0 {
            Ok(0)
        } else {
            Ok(shift_left(left, right))
        }
    } else if is_lit(&o, ">>") {
        if right < 0 {
            Ok(0)
        } else {
            Ok(shift_right(left, right))
        }
    } else if is_lit(&o, "<=") {
        Ok(if left <= right { 1 } else { 0 })
    } else if is_lit(&o, ">=") {
        Ok(if left >= right { 1 } else { 0 })
    } else if is_lit(&o, "<") {
        Ok(if left < right { 1 } else { 0 })
    } else if is_lit(&o, ">") {
        Ok(if left > right { 1 } else { 0 })
    } else if is_lit(&o, "==") {
        Ok(if left == right { 1 } else { 0 })
    } else if is_lit(&o, "!=") {
        Ok(if left != right { 1 } else { 0 })
    } else if is_lit(&o, "%") {
        if right == 0 {
            Err(String::from_str("divided by 0"))
        } else {
            Ok(wrapping_remainder(left, right))
        }
    } else if is_lit(&o, "/") {
        if right == 0 {
            Err(String::from_str("divided by 0"))
        } else {
            Ok(wrapping_quotient(left, right))
        }
    } else if is_lit(&o, "**") {
        if right < 0 {
            let mut msg = String::from_str("exponent less than 0 (error token is \"");
            msg.append(i64_to_string(right).as_str());
            msg.append("\")");
            Err(msg)
        } else {
            Ok(wrapping_power(left, right))
        }
    } else {
        Err(String::from_str("unknown binary operator"))
    }
}

/// Applies a binary operator to two numbers and pushes the result.
pub fn bin_calc(op: &str, left: i64, right: i64, stack: &mut Vec<ArithElem>) -> (r: Result<
    (),
    String,
>)
    ensures
        match binary_value(op@, left, right) {
            Some(v) => r is Ok && final(stack)@ == old(stack)@.push(ArithElem::Integer(v)),
            None => r matches Err(msg) && msg@ == binary_error(op@, right) && final(stack)@ == old(
                stack,
            )@,
        },
{
    match binary_operation(op, left, right) {
        Ok(v) => {
            stack.push(ArithElem::Integer(v));
            Ok(())
        },
        Err(msg) => Err(msg),
    }
}

/// Whether `op` is an assignment that first combines the variable with the
/// right-hand side.
pub open spec fn is_compound_assignment(op: Seq<char>) -> bool {
    op == "+="@ || op == "-="@ || op == "*="@ || op == "&="@ || op == "^="@ || op == "|="@ || op
        == "<<="@ || op == ">>="@ || op == "/="@ || op == "%="@
}

/// The value that a compound assignment stores: that of the operator before
/// the `=`, applied to the variable's value and the right-hand side.
pub open spec fn compound_value(op: Seq<char>, cur: i64, right: i64) -> Option<i64> {
    if is_compound_assignment(op) {
        binary_value(op.drop_last(), cur, right)
    } else {
        None
    }
}

/// The message that goes with a compound assignment without a value.
pub open spec fn compound_error(op: Seq<char>, right: i64) -> Seq<char> {
    if is_compound_assignment(op) {
        binary_error(op.drop_last(), right)
    } else {
        "Not supported operation for integer numbers"@
    }
}

/// Carries out the compound assignment `name op right`, where `cur` is the
/// value that the variable has: stores the new value under `name` and returns
/// it. On an error nothing is stored.
pub fn substitute(op: &str, name: &String, cur: i64, right: i64, core: &mut ShellCore) -> (r: Result<
    ArithElem,
    String,
>)
    ensures
        match compound_value(op@, cur, right) {
            Some(v) => r == Ok::<ArithElem, String>(ArithElem::Integer(v)) && final(core)@ == old(
                core,
            )@.assign(name@, decimal(v as int)),
            None => r matches Err(msg) && msg@ == compound_error(op@, right) && final(core)@ == old(
                core,
            )@,
        },
{
    let o = to_chars(op);
    let known = is_lit(&o, "+=") || is_lit(&o, "-=") || is_lit(&o, "*=") || is_lit(&o, "&=")
        || is_lit(&o, "^=") || is_lit(&o, "|=") || is_lit(&o, "<<=") || is_lit(&o, ">>=")
        || is_lit(&o, "/=") || is_lit(&o, "%=");
    if !known {
        return Err(String::from_str("Not supported operation for integer numbers"));
    }
    proof {
        reveal_strlit("+=");
        reveal_strlit("-=");
        reveal_strlit("*=");
        reveal_strlit("&=");
        reveal_strlit("^=");
        reveal_strlit("|=");
        reveal_strlit("<<=");
        reveal_strlit(">>=");
        reveal_strlit("/=");
        reveal_strlit("%=");
    }
    let base = substring(&o, 0, o.len() - 1);
    assert(base@ =~= op@.drop_last());
    match binary_operation(base.as_str(), cur, right) {
        Ok(v) => {
            core.set_var(name.as_str(), i64_to_string(v).as_str());
            Ok(ArithElem::Integer(v))
        },
        Err(msg) => Err(msg),
    }
}

/// The value of one digit in a literal of the given base: `0-9`, then `a-z`,
/// then `A-Z`, then `@` and `_`; up to base 36 the capital letters count as the
/// small ones. `None` for a character that is no digit of the base.
pub open spec fn digit_in_base(ch: char, base: int) -> Option<int> {
    let num: int = if '0' <= ch <= '9' {
        ch as int - '0' as int
    } else if 'a' <= ch <= 'z' {
        ch as int - 'a' as int + 10
    } else if 'A' <= ch <= 'Z' {
        if base <= 36 {
            ch as int - 'A' as int + 10
        } else {
            ch as int - 'A' as int + 36
        }
    } else if ch == '@' {
        62
    } else if ch == '_' {
        63
    } else {
        -1
    };
    if 0 <= num < base {
        Some(num)
    } else {
        None
    }
}

/// The number that the digits `s` denote in the given base, wrapped into the
/// 64-bit range; the empty sequence denotes 0. `None` where a character is no
/// digit of the base.
pub open spec fn value_in_base(s: Seq<char>, base: i64) -> Option<i64>
    decreases s.len(),
{
    if s.len() == 0 {
        Some(0)
    } else {
        match (value_in_base(s.drop_last(), base), digit_in_base(s.last(), base as int)) {
            (Some(v), Some(d)) => Some(v.wrapping_mul(base).wrapping_add(d as i64)),
            _ => None,
        }
    }
}

fn digit_of(ch: char, base: i64) -> (r: Option<i64>)
    ensures
        match digit_in_base(ch, base as int) {
            Some(d) => r == Some(d as i64) && 0 <= d < 64,
            None => r is None,
        },
{
    let num: i64 = if '0' <= ch && ch <= '9' {
        (ch as u32 - '0' as u32) as i64
    } else if 'a' <= ch && ch <= 'z' {
        (ch as u32 - 'a' as u32) as i64 + 10
    } else if 'A' <= ch && ch <= 'Z' {
        if base <= 36 {
            (ch as u32 - 'A' as u32) as i64 + 10
        } else {
            (ch as u32 - 'A' as u32) as i64 + 36
        }
    } else if ch == '@' {
        62
    } else if ch == '_' {
        63
    } else {
        -1
    };
    if 0 <= num && num < base {
        Some(num)
    } else {
        None
    }
}

/// Reads the digits `s[from..]` in the given base.
fn parse_with_base(base: i64, s: &Vec<char>, from: usize) -> (r: Option<i64>)
    requires
        from <= s.len(),
    ensures
        r == value_in_base(s@.skip(from as int), base),
{
    let mut ans: i64 = 0;
    let mut i: usize = from;
    let ghost digits = s@.skip(from as int);
    assert(digits.take(0).len() == 0);
    while i < s.len()
        invariant
            from <= i <= s.len(),
            digits == s@.skip(from as int),
            value_in_base(digits.take(i - from), base) == Some(ans),
        decreases s.len() - i,
    {
        let ghost upto = digits.take(i - from + 1);
        assert(upto.drop_last() =~= digits.take(i - from));
        assert(upto.last() == s@[i as int]);
        match digit_of(s[i], base) {
            Some(num) => {
                ans = ans.wrapping_mul(base).wrapping_add(num);
            },
            None => {
                proof {
                    lemma_bad_digit(digits, i - from + 1, base);
                }
                return None;
            },
        }
        i += 1;
    }
    assert(digits.take(i - from) =~= digits);
    Some(ans)
}

/// Once a prefix has no value, no longer prefix has one.
proof fn lemma_bad_digit(s: Seq<char>, n: int, base: i64)
    requires
        0 <= n <= s.len(),
        value_in_base(s.take(n), base) is None,
    ensures
        value_in_base(s, base) is None,
    decreases s.len() - n,
{
    if n < s.len() {
        assert(s.take(n + 1).drop_last() =~= s.take(n));
        lemma_bad_digit(s, n + 1, base);
    } else {
        assert(s.take(n) =~= s);
    }
}

/// The base that a run of decimal digits names: a number from 2 to 64.
pub open spec fn named_base(s: Seq<char>) -> Option<i64> {
    if s.len() > 0 && crate::text::all_digits(s) && 2 <= crate::text::digits_value(s) <= 64 {
        Some(crate::text::digits_value(s) as i64)
    } else {
        None
    }
}

/// The base of a literal and its digits: `0x` or `0X` starts a hexadecimal
/// literal, another leading `0` an octal one, `base#digits` names its base;
/// anything else is decimal.
pub open spec fn base_and_digits(s: Seq<char>) -> Option<(i64, Seq<char>)> {
    if s.len() >= 2 && s[0] == '0' && (s[1] == 'x' || s[1] == 'X') {
        Some((16i64, s.skip(2)))
    } else if s.len() >= 1 && s[0] == '0' {
        Some((8i64, s.skip(1)))
    } else {
        match s.index_of_first('#') {
            Some(n) => match named_base(s.take(n)) {
                Some(b) => Some((b, s.skip(n + 1))),
                None => None,
            },
            None => Some((10i64, s)),
        }
    }
}

/// Reads a base written in decimal digits, `s[from..to]`.
fn read_base(s: &Vec<char>, from: usize, to: usize) -> (r: Option<i64>)
    requires
        from <= to <= s.len(),
    ensures
        r == named_base(s@.subrange(from as int, to as int)),
{
    let ghost t = s@.subrange(from as int, to as int);
    if from == to {
        return None;
    }
    let mut n: i64 = 0;
    let mut i: usize = from;
    assert(t.take(0).len() == 0);
    while i < to
        invariant
            from <= i <= to <= s.len(),
            t == s@.subrange(from as int, to as int),
            crate::text::all_digits(t.take(i - from)),
            crate::text::digits_value(t.take(i - from)) == n,
            0 <= n <= 64,
        decreases to - i,
    {
        let c = s[i];
        let ghost upto = t.take(i - from + 1);
        assert(upto.drop_last() =~= t.take(i - from));
        assert(upto.last() == c);
        if !('0' <= c && c <= '9') {
            assert(!digit(t[i - from]));
            return None;
        }
        let d: i64 = (c as u32 - '0' as u32) as i64;
        n = n * 10 + d;
        if n > 64 {
            proof {
                lemma_digits_grow(t, i - from + 1);
            }
            return None;
        }
        assert forall|k: int| 0 <= k < upto.len() implies digit(#[trigger] upto[k]) by {
            if k < i - from {
                assert(upto[k] == t.take(i - from)[k]);
            }
        }
        i += 1;
    }
    assert(t.take(i - from) =~= t);
    if n >= 2 {
        Some(n)
    } else {
        None
    }
}

/// More digits do not make a number smaller.
proof fn lemma_digits_grow(s: Seq<char>, n: int)
    requires
        0 <= n <= s.len(),
    ensures
        !crate::text::all_digits(s) || crate::text::digits_value(s) >= crate::text::digits_value(
            s.take(n),
        ),
    decreases s.len() - n,
{
    if n < s.len() {
        if crate::text::all_digits(s) {
            assert(s.take(n + 1).drop_last() =~= s.take(n));
            assert(digit(s[n]));
            assert(s.take(n + 1).last() == s[n]);
        }
        lemma_digits_grow(s, n + 1);
    } else {
        assert(s.take(n) =~= s);
    }
}

/// Finds the base of the literal `s[from..]` and where its digits start.
fn get_base(s: &Vec<char>, from: usize) -> (r: Option<(i64, usize)>)
    requires
        from <= s.len(),
    ensures
        match base_and_digits(s@.skip(from as int)) {
            Some((b, d)) => r matches Some((base, at)) && base == b && from <= at <= s.len() && d
                == s@.skip(at as int),
            None => r is None,
        },
{
    let ghost t = s@.skip(from as int);
    if s.len() - from >= 2 && s[from] == '0' && (s[from + 1] == 'x' || s[from + 1] == 'X') {
        assert(t.skip(2) =~= s@.skip(from + 2));
        return Some((16, from + 2));
    }
    if s.len() - from >= 1 && s[from] == '0' {
        assert(t.skip(1) =~= s@.skip(from + 1));
        return Some((8, from + 1));
    }
    let mut i: usize = from;
    while i < s.len() && s[i] != '#'
        invariant
            from <= i <= s.len(),
            forall|k: int| from <= k < i ==> s@[k] != '#',
        decreases s.len() - i,
    {
        i += 1;
    }
    proof {
        t.index_of_first_ensures('#');
    }
    if i == s.len() {
        assert(!t.contains('#')) by {
            if t.contains('#') {
                let k = choose|k: int| 0 <= k < t.len() && t[k] == '#';
                assert(s@[from + k] == '#');
            }
        }
        return Some((10, from));
    }
    proof {
        assert(t[i - from] == '#');
        assert(t.contains('#'));
        let n = t.index_of_first('#')->0;
        if n < i - from {
            assert(s@[from + n] == '#');
        }
        assert(n == i - from);
        assert(t.take(n) =~= s@.subrange(from as int, i as int));
        assert(t.skip(n + 1) =~= s@.skip(i + 1));
    }
    match read_base(s, from, i) {
        Some(b) => Some((b, i + 1)),
        None => None,
    }
}

/// Whether the literal begins with a minus sign, and the literal without its
/// sign.
pub open spec fn split_sign(s: Seq<char>) -> (bool, Seq<char>) {
    if s.len() > 0 && s[0] == '-' {
        (true, s.skip(1))
    } else if s.len() > 0 && s[0] == '+' {
        (false, s.skip(1))
    } else {
        (false, s)
    }
}

/// The number that an integer literal denotes: an optional sign, then a
/// hexadecimal, octal, based or decimal number. The empty literal denotes 0.
/// `None` for anything else, and for every text with a quote or a point.
pub open spec fn integer_value(s: Seq<char>) -> Option<i64> {
    if s.contains('\'') || s.contains('.') {
        None
    } else if s.len() == 0 {
        Some(0)
    } else {
        let (negative, body) = split_sign(s);
        match base_and_digits(body) {
            Some((base, digits)) => match value_in_base(digits, base) {
                Some(n) => Some(
                    if negative {
                        0i64.wrapping_sub(n)
                    } else {
                        n
                    },
                ),
                None => None,
            },
            None => None,
        }
    }
}

/// Reads an integer literal.
pub fn parse(s: &str) -> (r: Option<i64>)
    ensures
        r == integer_value(s@),
{
    let v = to_chars(s);
    if find_char(&v, '\'').is_some() || find_char(&v, '.').is_some() {
        return None;
    }
    if v.len() == 0 {
        return Some(0);
    }
    let negative = v[0] == '-';
    let from: usize = if v[0] == '-' || v[0] == '+' {
        1
    } else {
        0
    };
    assert(split_sign(v@).1 =~= v@.skip(from as int));
    let (base, at) = match get_base(&v, from) {
        Some(found) => found,
        None => {
            return None;
        },
    };
    match parse_with_base(base, &v, at) {
        Some(n) => Some(
            if negative {
                0i64.wrapping_sub(n)
            } else {
                n
            },
        ),
        None => None,
    }
}

} // verus!
