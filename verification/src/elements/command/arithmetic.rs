//! The arithmetic command, `(( ... ))`.

use vstd::prelude::*;
use crate::elements::grammar::slice;
use crate::elements::grammar::Cursor;
use crate::elements::command::CommandView;
use crate::elements::io::redirect::redirect_views;
use crate::elements::io::redirect::RedirectView;
use crate::elements::grammar::expr_end;
use crate::elements::command::redirects_at;
use crate::elements::grammar::expr_at;
use crate::elements::grammar::arithmetic_command_end;
use crate::elements::grammar::ended;
use crate::elements::command::eat_redirects;
use crate::elements::expr::arithmetic::ArithmeticExpr;
use crate::elements::expr::arithmetic::ExprView;
use crate::elements::io::redirect::Redirect;
use crate::elements::word::expansion::expr_value;
use crate::feeder::Feeder;
use crate::feeder::lemma_took_twice;
use crate::shell::CoreView;
use crate::shell::ShellCore;
use crate::text::decimal;

verus! {

#[derive(Debug)]
pub struct ArithmeticCommand {
    /// The source text.
    pub text: String,
    /// The expressions between the parentheses.
    pub expressions: Vec<ArithmeticExpr>,
    /// The redirections behind the closing parentheses.
    pub redirects: Vec<Redirect>,
    /// Whether the command has to run in a process of its own.
    pub force_fork: bool,
}

/// The views of a list of expressions.
pub open spec fn expr_views(v: Seq<ArithmeticExpr>) -> Seq<ExprView> {
    v.map_values(|e: ArithmeticExpr| e@)
}

/// The value of the last of the expressions, evaluated one after another, or
/// the first error; no expression at all gives the empty text.
pub open spec fn all_values(exprs: Seq<ExprView>, st: CoreView) -> (
    Result<Seq<char>, Seq<char>>,
    CoreView,
)
    decreases exprs.len(),
{
    if exprs.len() == 0 {
        (Ok(Seq::empty()), st)
    } else {
        let (front, mid) = all_values(exprs.drop_last(), st);
        match front {
            Ok(_) => {
                let (last, after) = expr_value(exprs.last(), mid);
                match last {
                    Ok(n) => (Ok(decimal(n as int)), after),
                    Err(msg) => (Err(msg), after),
                }
            },
            Err(msg) => (Err(msg), mid),
        }
    }
}

/// The exit status of an arithmetic command: 0 where the value is not 0, else
/// 1; 1 for an error too.
pub open spec fn status_of(value: Result<Seq<char>, Seq<char>>) -> i32 {
    match value {
        Ok(text) => if text == "0"@ {
            1
        } else {
            0
        },
        Err(_) => 1,
    }
}

proof fn lemma_values_fail(exprs: Seq<ExprView>, n: int, st: CoreView)
    requires
        0 <= n <= exprs.len(),
        all_values(exprs.take(n), st).0 is Err,
    ensures
        all_values(exprs, st) == all_values(exprs.take(n), st),
    decreases exprs.len() - n,
{
    if n < exprs.len() {
        assert(exprs.take(n + 1).drop_last() =~= exprs.take(n));
        lemma_values_fail(exprs, n + 1, st);
    } else {
        assert(exprs.take(n) =~= exprs);
    }
}

/// The view of an arithmetic command.
pub open spec fn arithmetic_command_view(x: ArithmeticCommand) -> CommandView {
    CommandView::Arithmetic {
        text: x.text@,
        expressions: expr_views(x.expressions@),
        redirects: redirect_views(x.redirects@),
    }
}

/// The arithmetic command at `c`, where one begins there.
pub open spec fn arithmetic_command_at(chars: Seq<char>, c: Cursor) -> CommandView {
    CommandView::Arithmetic {
        text: slice(chars, c, arithmetic_command_end(chars, c)),
        expressions: seq![expr_at(chars, c.after(2))],
        redirects: redirects_at(
            chars,
            expr_end(chars, c.after(2), false, 0).after(2),
            Seq::empty(),
        ),
    }
}

impl ArithmeticCommand {
    pub fn new() -> (c: ArithmeticCommand)
        ensures
            c.text@.len() == 0,
            c.expressions@.len() == 0,
            c.redirects@.len() == 0,
            !c.force_fork,
    {
        ArithmeticCommand {
            text: String::new(),
            expressions: Vec::new(),
            redirects: Vec::new(),
            force_fork: false,
        }
    }

    /// Evaluates the expressions one after another. The result is the value
    /// of the last one, or the message of the first error.
    pub fn eval(&self, core: &mut ShellCore) -> (r: Result<String, String>)
        ensures
            final(core)@ == all_values(expr_views(self.expressions@), old(core)@).1,
            match all_values(expr_views(self.expressions@), old(core)@).0 {
                Ok(text) => r matches Ok(out) && out@ == text,
                Err(m) => r matches Err(msg) && msg@ == m,
            },
    {
        let mut ans = String::new();
        let ghost exprs = expr_views(self.expressions@);
        let ghost start = old(core)@;
        let mut i: usize = 0;
        assert(exprs.take(0) =~= Seq::<ExprView>::empty());
        while i < self.expressions.len()
            invariant
                i <= self.expressions.len(),
                exprs == expr_views(self.expressions@),
                start == old(core)@,
                all_values(exprs.take(i as int), start) == (
                    Ok::<Seq<char>, Seq<char>>(ans@),
                    core@,
                ) || (i == 0 && ans@.len() == 0 && core@ == start),
                i == 0 ==> ans@.len() == 0 && core@ == start,
            decreases self.expressions.len() - i,
        {
            proof {
                assert(exprs.take(i + 1).drop_last() =~= exprs.take(i as int));
                assert(exprs.take(i + 1).last() == self.expressions@[i as int]@);
            }
            let ghost mid = core@;
            match self.expressions[i].eval(core) {
                Ok(s) => {
                    ans = s;
                },
                Err(msg) => {
                    proof {
                        assert(all_values(exprs.take(i + 1), start).0 is Err);
                        lemma_values_fail(exprs, i + 1, start);
                    }
                    return Err(msg);
                },
            }
            i += 1;
        }
        assert(exprs.take(i as int) =~= exprs);
        Ok(ans)
    }

    /// Runs the command: evaluates it and sets the exit status, which is 0
    /// where the value is not 0. The result is the message of an error, which
    /// is for the caller to show.
    pub fn run(&self, core: &mut ShellCore) -> (r: Option<String>)
        ensures
            ({
                let (value, after) = all_values(expr_views(self.expressions@), old(core)@);
                &&& final(core)@ == after.assign("?"@, decimal(status_of(value) as int))
                &&& match value {
                    Ok(_) => r is None,
                    Err(m) => r matches Some(msg) && msg@ == m,
                }
            }),
    {
        match self.eval(core) {
            Ok(text) => {
                if crate::text::str_is(text.as_str(), "0") {
                    core.set_var("?", "1");
                    proof {
                        reveal_strlit("1");
                        assert(decimal(1) =~= "1"@);
                    }
                } else {
                    core.set_var("?", "0");
                    proof {
                        reveal_strlit("0");
                        assert(decimal(0) =~= "0"@);
                    }
                }
                None
            },
            Err(msg) => {
                core.set_var("?", "1");
                proof {
                    reveal_strlit("1");
                    assert(decimal(1) =~= "1"@);
                }
                Some(msg)
            },
        }
    }

    /// Takes the arithmetic command with which the text begins: `((`, an
    /// expression, `))`, and redirections.
    pub fn parse(feeder: &mut Feeder, core: &mut ShellCore) -> (r: Option<ArithmeticCommand>)
        requires
            old(feeder)@.wf(),
        ensures
            *final(core) == *old(core),
            arithmetic_command_end(old(feeder)@.chars, old(feeder)@.cursor()) == ended(
                r is Some,
                final(feeder)@,
            ),
            match r {
                Some(c) => final(feeder)@.took(old(feeder)@, c.text@) && c.text@.len() > 0
                    && c.expressions@.len() == 1 && !c.force_fork && "(("@.is_prefix_of(
                    old(feeder)@.remaining(),
                ) && c.expressions@[0]@ == expr_at(
                    old(feeder)@.chars,
                    old(feeder)@.cursor().after(2),
                ) && redirect_views(c.redirects@) == redirects_at(
                    old(feeder)@.chars,
                    expr_end(old(feeder)@.chars, old(feeder)@.cursor().after(2), false, 0).after(2),
                    Seq::empty(),
                ) && arithmetic_command_view(c) == arithmetic_command_at(
                    old(feeder)@.chars,
                    old(feeder)@.cursor(),
                ),
                None => final(feeder)@ == old(feeder)@,
            },
        decreases old(feeder)@.left(), old(feeder)@.unfed(), 6nat,
    {
        proof {
            reveal(arithmetic_command_end);
            reveal_strlit("((");
            reveal_strlit("))");
        }
        if !feeder.starts_with("((") {
            return None;
        }
        let pos = feeder.pos;
        let limit = feeder.limit;
        let ghost start = feeder@;
        let mut ans = Self::new();
        ans.text = feeder.consume(2);
        let ghost a = feeder@;
        if let Some(c) = ArithmeticExpr::parse(feeder, core) {
            let ghost b = feeder@;
            if feeder.starts_with("))") {
                ans.text.append(c.text.as_str());
                feeder.take_into(&mut ans.text, 2);
                let ghost d = feeder@;
                let ghost expr = c@;
                ans.expressions.push(c);
                assert(expr_views(ans.expressions@) =~= seq![expr]);
                assert(redirect_views(ans.redirects@) =~= Seq::<RedirectView>::empty());
                eat_redirects(feeder, core, &mut ans.redirects, &mut ans.text);
                proof {
                    lemma_took_twice(start, a, b);
                    lemma_took_twice(start, b, d);
                    lemma_took_twice(start, d, feeder@);
                    assert(ans.text@ =~= feeder@.consumed_since(start));
                }
                return Some(ans);
            }
        }
        feeder.reset(pos, limit);
        None
    }
}

} // verus!
