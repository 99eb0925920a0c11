//! Words as operands: names of variables and integer literals.

use vstd::prelude::*;
use crate::elements::expr::arithmetic::integer::integer_value;
use crate::elements::expr::arithmetic::integer::parse;
use crate::shell::CoreView;
use crate::shell::ShellCore;
use crate::text::decimal;
use crate::text::i64_to_string;
use crate::text::name_head;
use crate::text::name_tail;
use crate::text::to_chars;
use crate::text::is_alphabet;
use crate::text::is_number;

verus! {

/// Whether `s` can name a variable: a letter or `_`, then letters, digits
/// and `_`.
pub open spec fn is_name(s: Seq<char>) -> bool {
    &&& s.len() > 0
    &&& name_head(s[0])
    &&& forall|i: int| 1 <= i < s.len() ==> name_tail(#[trigger] s[i])
}

/// The message for a token that should have been an operand.
pub open spec fn operand_error(token: Seq<char>) -> Seq<char> {
    token + ": syntax error: operand expected (error token is \""@ + token + "\")"@
}

/// The number that a variable holds: 0 for an empty or missing value, else
/// the integer that the value denotes; an error for any other value.
pub open spec fn variable_number(name: Seq<char>, st: CoreView) -> Result<i64, Seq<char>> {
    let v = st.value_of(name);
    if v.len() == 0 {
        Ok(0)
    } else {
        match integer_value(v) {
            Some(n) => Ok(n),
            None => Err(operand_error(v)),
        }
    }
}

/// The value of a word as an operand, where `pre` is what a `++` or `--`
/// before it adds and `post` what one after it adds, and the state after it
/// was taken. A name stands for its variable: the variable takes the sum of
/// its number and the increment, and the operand is the number before a
/// postfix increment, after a prefix one. Any other text is an integer
/// literal, which takes no increment. An increment on both sides is an error.
pub open spec fn word_operand(text: Seq<char>, pre: i64, post: i64, st: CoreView) -> (
    Result<i64, Seq<char>>,
    CoreView,
) {
    if pre != 0 && post != 0 {
        (Err(operand_error(text)), st)
    } else if is_name(text) {
        match variable_number(text, st) {
            Ok(cur) => if pre != 0 {
                let new = cur.wrapping_add(pre);
                (Ok(new), st.assign(text, decimal(new as int)))
            } else if post != 0 {
                (Ok(cur), st.assign(text, decimal(cur.wrapping_add(post) as int)))
            } else {
                (Ok(cur), st)
            },
            Err(msg) => (Err(msg), st),
        }
    } else if pre != 0 || post != 0 {
        (Err(operand_error(text)), st)
    } else {
        match integer_value(text) {
            Some(n) => (Ok(n), st),
            None => (Err(operand_error(text)), st),
        }
    }
}

/// Whether `s` can name a variable.
pub fn is_name_str(s: &str) -> (b: bool)
    ensures
        b == is_name(s@),
{
    let v = to_chars(s);
    if v.len() == 0 {
        return false;
    }
    if !(is_alphabet(v[0]) || v[0] == '_') {
        return false;
    }
    let mut i: usize = 1;
    while i < v.len()
        invariant
            1 <= i <= v.len(),
            v@ == s@,
            forall|k: int| 1 <= k < i ==> name_tail(#[trigger] v@[k]),
        decreases v.len() - i,
    {
        if !(is_alphabet(v[i]) || is_number(v[i]) || v[i] == '_') {
            assert(!name_tail(s@[i as int]));
            return false;
        }
        i += 1;
    }
    true
}

/// Writes the message for a token that should have been an operand.
pub fn syntax(token: &str) -> (msg: String)
    ensures
        msg@ == operand_error(token@),
{
    let mut msg = String::from_str(token);
    msg.append(": syntax error: operand expected (error token is \"");
    msg.append(token);
    msg.append("\")");
    msg
}

/// Reads the number that the variable `name` holds.
pub fn number_of(name: &str, core: &ShellCore) -> (r: Result<i64, String>)
    ensures
        match variable_number(name@, core@) {
            Ok(n) => r == Ok::<i64, String>(n),
            Err(m) => r matches Err(msg) && msg@ == m,
        },
{
    let v = core.get_var(name);
    if v.as_str().unicode_len() == 0 {
        return Ok(0);
    }
    match parse(v.as_str()) {
        Some(n) => Ok(n),
        None => Err(syntax(v.as_str())),
    }
}

/// Takes the value of the word `text` as an operand and carries out the
/// increments on its variable.
pub fn to_operand(text: &str, pre: i64, post: i64, core: &mut ShellCore) -> (r: Result<i64, String>)
    ensures
        final(core)@ == word_operand(text@, pre, post, old(core)@).1,
        match word_operand(text@, pre, post, old(core)@).0 {
            Ok(n) => r == Ok::<i64, String>(n),
            Err(m) => r matches Err(msg) && msg@ == m,
        },
{
    if pre != 0 && post != 0 {
        return Err(syntax(text));
    }
    if is_name_str(text) {
        let cur = match number_of(text, core) {
            Ok(n) => n,
            Err(msg) => {
                return Err(msg);
            },
        };
        if pre != 0 {
            let new = cur.wrapping_add(pre);
            core.set_var(text, i64_to_string(new).as_str());
            Ok(new)
        } else if post != 0 {
            core.set_var(text, i64_to_string(cur.wrapping_add(post)).as_str());
            Ok(cur)
        } else {
            Ok(cur)
        }
    } else if pre != 0 || post != 0 {
        Err(syntax(text))
    } else {
        match parse(text) {
            Some(n) => Ok(n),
            None => Err(syntax(text)),
        }
    }
}

} // verus!
