use sush::elements::expr::arithmetic::calculator::calculate;
use sush::elements::expr::arithmetic::elem::ArithElem;
use sush::elements::expr::arithmetic::integer::bin_calc;
use sush::elements::expr::arithmetic::integer::binary_operation;
use sush::elements::expr::arithmetic::integer::parse;
use sush::elements::expr::arithmetic::integer::substitute;
use sush::elements::expr::arithmetic::integer::unary_calc;
use sush::elements::expr::arithmetic::rev_polish::rearrange;
use sush::elements::expr::arithmetic::ArithmeticExpr;
use sush::feeder::Feeder;
use sush::shell::ShellCore;

fn eval(text: &str, core: &mut ShellCore) -> Result<String, String> {
    let mut feeder = Feeder::new(text);
    let expr = ArithmeticExpr::parse(&mut feeder, core).unwrap();
    assert_eq!(expr.text, text);
    expr.eval(core)
}

fn value(text: &str) -> Result<String, String> {
    let mut core = ShellCore::new();
    eval(text, &mut core)
}

#[test]
fn parse_reads_decimal_hex_octal_and_based_literals() {
    assert_eq!(parse("42"), Some(42));
    assert_eq!(parse("0x1F"), Some(31));
    assert_eq!(parse("0XfF"), Some(255));
    assert_eq!(parse("017"), Some(15));
    assert_eq!(parse("2#101"), Some(5));
    assert_eq!(parse("64#_"), Some(63));
    assert_eq!(parse("64#@"), Some(62));
    assert_eq!(parse("36#Z"), Some(35));
    assert_eq!(parse("37#Z"), None);
    assert_eq!(parse("62#Z"), Some(61));
    assert_eq!(parse("-7"), Some(-7));
    assert_eq!(parse("+7"), Some(7));
    assert_eq!(parse(""), Some(0));
    assert_eq!(parse("0"), Some(0));
}

#[test]
fn parse_refuses_what_is_no_integer() {
    assert_eq!(parse("1.5"), None);
    assert_eq!(parse("'1'"), None);
    assert_eq!(parse("08"), None);
    assert_eq!(parse("65#1"), None);
    assert_eq!(parse("1#0"), None);
    assert_eq!(parse("abc"), None);
    assert_eq!(parse("2#12"), None);
    assert_eq!(parse("x#1"), None);
}

#[test]
fn division_by_zero_is_an_error() {
    assert_eq!(binary_operation("/", 1, 0), Err("divided by 0".to_string()));
    assert_eq!(binary_operation("%", 1, 0), Err("divided by 0".to_string()));
    assert_eq!(value("1/0"), Err("divided by 0".to_string()));
}

#[test]
fn negative_exponent_is_an_error() {
    assert_eq!(
        binary_operation("**", 2, -1),
        Err("exponent less than 0 (error token is \"-1\")".to_string())
    );
    assert_eq!(
        value("2**-1"),
        Err("exponent less than 0 (error token is \"-1\")".to_string())
    );
}

#[test]
fn binary_operations_give_exact_values() {
    assert_eq!(binary_operation("+", 2, 3), Ok(5));
    assert_eq!(binary_operation("-", 2, 3), Ok(-1));
    assert_eq!(binary_operation("*", -4, 3), Ok(-12));
    assert_eq!(binary_operation("/", 7, 2), Ok(3));
    assert_eq!(binary_operation("/", -7, 2), Ok(-3));
    assert_eq!(binary_operation("%", -7, 2), Ok(-1));
    assert_eq!(binary_operation("%", 7, -2), Ok(1));
    assert_eq!(binary_operation("**", 2, 10), Ok(1024));
    assert_eq!(binary_operation("**", -3, 3), Ok(-27));
    assert_eq!(binary_operation("**", 7, 0), Ok(1));
    assert_eq!(binary_operation("<<", 1, 4), Ok(16));
    assert_eq!(binary_operation("<<", 1, -1), Ok(0));
    assert_eq!(binary_operation(">>", -16, 2), Ok(-4));
    assert_eq!(binary_operation("&", 12, 10), Ok(8));
    assert_eq!(binary_operation("|", 12, 10), Ok(14));
    assert_eq!(binary_operation("^", 12, 10), Ok(6));
    assert_eq!(binary_operation("&&", 2, 0), Ok(0));
    assert_eq!(binary_operation("||", 2, 0), Ok(1));
    assert_eq!(binary_operation("<", 1, 2), Ok(1));
    assert_eq!(binary_operation("<=", 2, 2), Ok(1));
    assert_eq!(binary_operation(">", 1, 2), Ok(0));
    assert_eq!(binary_operation(">=", 1, 2), Ok(0));
    assert_eq!(binary_operation("==", 3, 3), Ok(1));
    assert_eq!(binary_operation("!=", 3, 3), Ok(0));
    assert_eq!(
        binary_operation("<>", 3, 3),
        Err("unknown binary operator".to_string())
    );
}

#[test]
fn arithmetic_wraps_round_at_the_ends_of_the_range() {
    assert_eq!(binary_operation("+", i64::MAX, 1), Ok(i64::MIN));
    assert_eq!(binary_operation("-", i64::MIN, 1), Ok(i64::MAX));
    assert_eq!(binary_operation("*", i64::MAX, 2), Ok(-2));
    assert_eq!(binary_operation("/", i64::MIN, -1), Ok(i64::MIN));
    assert_eq!(binary_operation("%", i64::MIN, -1), Ok(0));
    assert_eq!(binary_operation("**", 2, 64), Ok(0));
    assert_eq!(binary_operation("**", 3, 41), Ok(3i64.wrapping_pow(41)));
    assert_eq!(binary_operation("<<", 1, 64), Ok(1));
}

#[test]
fn bin_calc_pushes_the_result() {
    let mut stack = vec![ArithElem::Integer(9)];
    assert_eq!(bin_calc("*", 6, 7, &mut stack), Ok(()));
    assert_eq!(stack.len(), 2);
    assert!(matches!(stack[1], ArithElem::Integer(42)));
    assert!(bin_calc("/", 6, 0, &mut stack).is_err());
    assert_eq!(stack.len(), 2);
}

#[test]
fn unary_calc_pushes_the_result() {
    let mut stack = vec![];
    assert_eq!(unary_calc("-", 5, &mut stack), Ok(()));
    assert_eq!(unary_calc("+", 5, &mut stack), Ok(()));
    assert_eq!(unary_calc("!", 5, &mut stack), Ok(()));
    assert_eq!(unary_calc("!", 0, &mut stack), Ok(()));
    assert_eq!(unary_calc("~", 5, &mut stack), Ok(()));
    assert!(matches!(stack[0], ArithElem::Integer(-5)));
    assert!(matches!(stack[1], ArithElem::Integer(5)));
    assert!(matches!(stack[2], ArithElem::Integer(0)));
    assert!(matches!(stack[3], ArithElem::Integer(1)));
    assert!(matches!(stack[4], ArithElem::Integer(-6)));
    assert_eq!(
        unary_calc("?", 5, &mut stack),
        Err("unknown unary operator".to_string())
    );
    assert_eq!(stack.len(), 5);
}

#[test]
fn substitute_stores_the_new_value() {
    let mut core = ShellCore::new();
    let name = "a".to_string();
    let r = substitute("+=", &name, 10, 5, &mut core);
    assert!(matches!(r, Ok(ArithElem::Integer(15))));
    assert_eq!(core.get_var("a"), "15");
    let r = substitute("<<=", &name, 1, 3, &mut core);
    assert!(matches!(r, Ok(ArithElem::Integer(8))));
    assert_eq!(core.get_var("a"), "8");
    let r = substitute("/=", &name, 1, 0, &mut core);
    assert_eq!(r.err(), Some("divided by 0".to_string()));
    assert_eq!(core.get_var("a"), "8");
    let r = substitute("**=", &name, 1, 0, &mut core);
    assert_eq!(
        r.err(),
        Some("Not supported operation for integer numbers".to_string())
    );
}

#[test]
fn precedence_and_associativity() {
    assert_eq!(value("1+2*3"), Ok("7".to_string()));
    assert_eq!(value("(1+2)*3"), Ok("9".to_string()));
    assert_eq!(value("2**3**2"), Ok("512".to_string()));
    assert_eq!(value("10-3-2"), Ok("5".to_string()));
    assert_eq!(value("-2**2"), Ok("4".to_string()));
    assert_eq!(value("1<<2+1"), Ok("8".to_string()));
    assert_eq!(value("1|2&3"), Ok("3".to_string()));
    assert_eq!(value("1 + 2 == 3"), Ok("1".to_string()));
    assert_eq!(value("!0 + ~0"), Ok("0".to_string()));
    assert_eq!(value("1, 2, 3"), Ok("3".to_string()));
    assert_eq!(value(""), Ok("0".to_string()));
}

#[test]
fn a_pair_of_parentheses_changes_nothing() {
    for e in ["1+2*3", "2**3**2", "7", "1 ? 2 : 3", "(1+2)*3", "1 && 0 || 1"] {
        assert_eq!(value(&format!("( {} )", e)), value(e));
        assert_eq!(value(&format!("({})", e)), value(e));
    }
}

#[test]
fn unbalanced_parentheses_are_errors() {
    let mut core = ShellCore::new();
    let elems = vec![ArithElem::LeftParen, ArithElem::Integer(1)];
    assert!(matches!(rearrange(&elems), Err(ArithElem::LeftParen)));
    let elems = vec![ArithElem::Integer(1), ArithElem::RightParen];
    assert!(matches!(rearrange(&elems), Err(ArithElem::RightParen)));
    assert_eq!(
        calculate(&elems, &mut core).err(),
        Some("): syntax error: operand expected (error token is \")\")".to_string())
    );
}

#[test]
fn rearrange_puts_operators_behind_operands() {
    let elems = vec![
        ArithElem::Integer(1),
        ArithElem::BinaryOp("+".to_string()),
        ArithElem::Integer(2),
        ArithElem::BinaryOp("*".to_string()),
        ArithElem::Integer(3),
    ];
    let out = rearrange(&elems).ok().unwrap();
    assert_eq!(out.len(), 5);
    assert!(matches!(out[0], ArithElem::Integer(1)));
    assert!(matches!(out[1], ArithElem::Integer(2)));
    assert!(matches!(out[2], ArithElem::Integer(3)));
    assert!(matches!(&out[3], ArithElem::BinaryOp(s) if s == "*"));
    assert!(matches!(&out[4], ArithElem::BinaryOp(s) if s == "+"));
}

#[test]
fn variables_and_assignments() {
    let mut core = ShellCore::new();
    core.set_var("a", "10");
    core.set_var("b", "3");
    assert_eq!(eval("a/b", &mut core), Ok("3".to_string()));
    assert_eq!(eval("a%b", &mut core), Ok("1".to_string()));
    assert_eq!(eval("$a * ${b}", &mut core), Ok("30".to_string()));
    assert_eq!(eval("c = a + b", &mut core), Ok("13".to_string()));
    assert_eq!(core.get_var("c"), "13");
    assert_eq!(eval("c += 2", &mut core), Ok("15".to_string()));
    assert_eq!(eval("c *= 2", &mut core), Ok("30".to_string()));
    assert_eq!(eval("x = y = 4", &mut core), Ok("4".to_string()));
    assert_eq!(core.get_var("x"), "4");
    assert_eq!(core.get_var("y"), "4");
    assert_eq!(eval("unset_name + 1", &mut core), Ok("1".to_string()));
    assert_eq!(eval("5 = 1", &mut core).is_err(), true);
}

#[test]
fn a_variable_that_holds_no_number_is_an_error() {
    let mut core = ShellCore::new();
    core.set_var("s", "hello!");
    assert_eq!(
        eval("s + 1", &mut core),
        Err("hello!: syntax error: operand expected (error token is \"hello!\")".to_string())
    );
    assert_eq!(eval("s = 2", &mut core), Ok("2".to_string()));
}

#[test]
fn increments_before_and_behind_a_name() {
    let mut core = ShellCore::new();
    core.set_var("i", "5");
    assert_eq!(eval("i++", &mut core), Ok("5".to_string()));
    assert_eq!(core.get_var("i"), "6");
    assert_eq!(eval("++i", &mut core), Ok("7".to_string()));
    assert_eq!(core.get_var("i"), "7");
    assert_eq!(eval("i--", &mut core), Ok("7".to_string()));
    assert_eq!(eval("--i", &mut core), Ok("5".to_string()));
    assert_eq!(eval("i++ + i", &mut core), Ok("10".to_string()));
    assert!(eval("++i++", &mut core).is_err());
    assert!(eval("3++", &mut core).is_err());
}

#[test]
fn logical_operators_pass_over_what_is_decided() {
    let mut core = ShellCore::new();
    core.set_var("n", "0");
    assert_eq!(eval("0 && (n = 5)", &mut core), Ok("0".to_string()));
    assert_eq!(core.get_var("n"), "0");
    assert_eq!(eval("1 || (n = 5)", &mut core), Ok("1".to_string()));
    assert_eq!(core.get_var("n"), "0");
    assert_eq!(eval("1 && (n = 5)", &mut core), Ok("1".to_string()));
    assert_eq!(core.get_var("n"), "5");
    assert_eq!(eval("0 || (n = 7)", &mut core), Ok("1".to_string()));
    assert_eq!(core.get_var("n"), "7");
    assert_eq!(eval("0 && (1 && (n = 9)) || 3", &mut core), Ok("1".to_string()));
    assert_eq!(core.get_var("n"), "7");
    assert_eq!(eval("0 && 1/0", &mut core), Ok("0".to_string()));
    assert_eq!(eval("7 && 8", &mut core), Ok("1".to_string()));
}

#[test]
fn the_conditional_evaluates_one_side_only() {
    let mut core = ShellCore::new();
    assert_eq!(eval("1 ? 10 : 20", &mut core), Ok("10".to_string()));
    assert_eq!(eval("0 ? 10 : 20", &mut core), Ok("20".to_string()));
    assert_eq!(eval("0 ? 1/0 : 20", &mut core), Ok("20".to_string()));
    assert_eq!(eval("1 ? (z = 3) : (z = 4)", &mut core), Ok("3".to_string()));
    assert_eq!(core.get_var("z"), "3");
    assert_eq!(eval("0 ? 1 : 0 ? 2 : 3", &mut core), Ok("3".to_string()));
    assert_eq!(eval("1 ? 2", &mut core), Ok("2".to_string()));
    assert_eq!(
        eval("0 ? 2", &mut core),
        Err("expression expected".to_string())
    );
}

#[test]
fn floats_are_not_evaluated() {
    assert_eq!(value("1.5 + 1").is_err(), true);
}

#[test]
fn nested_arithmetic_substitution() {
    let mut core = ShellCore::new();
    assert_eq!(eval("$((1+2)) * 3", &mut core), Ok("9".to_string()));
}
