use sush::elements::calc::Calc;
use sush::elements::command::eat_do_body;
use sush::elements::command::eat_to_next;
use sush::elements::command::for_command::ForCommand;
use sush::elements::command::test_command::TestCommand;
use sush::elements::command::while_command::WhileCommand;
use sush::elements::command::Command;
use sush::elements::expr::arithmetic::ArithmeticExpr;
use sush::elements::io::redirect::Redirect;
use sush::elements::job::Job;
use sush::elements::pipeline::Pipeline;
use sush::elements::script::Script;
use sush::elements::subword::braced_param::BracedParam;
use sush::elements::subword::double_quoted::DoubleQuoted;
use sush::elements::word::Word;
use sush::feeder::Feeder;
use sush::shell::ShellCore;

fn rest(feeder: &Feeder) -> String {
    feeder.chars[feeder.pos..].iter().collect()
}

#[test]
fn a_word_ends_where_no_subword_follows() {
    let mut core = ShellCore::new();
    for (text, word) in [
        ("ab;c", "ab"),
        ("a'b c'\"d e\"f g", "a'b c'\"d e\"f"),
        ("$((1 + 2))x y", "$((1 + 2))x"),
        ("${a-b}c|d", "${a-b}c"),
        ("a\\ b c", "a\\ b"),
        ("$(echo a)b c", "$(echo a)b"),
    ] {
        let mut feeder = Feeder::new(text);
        let w = Word::parse(&mut feeder, &mut core).unwrap();
        assert_eq!(w.text, word);
        assert_eq!(feeder.pos, word.chars().count());
    }
    for text in ["", " a", "#a", ";", "\"abc", "|a"] {
        let mut feeder = Feeder::new(text);
        let limit = feeder.limit;
        assert!(Word::parse(&mut feeder, &mut core).is_none());
        assert_eq!((feeder.pos, feeder.limit), (0, limit));
    }
}

#[test]
fn an_operand_of_arithmetic_ends_at_an_operator() {
    let mut core = ShellCore::new();
    for (text, word, count) in [
        ("a+b", "a", 1),
        ("$a*2", "$a", 2),
        ("$1 ", "$1", 2),
        ("$?+1", "$?", 2),
        ("'a b'c)", "'a b'c", 2),
        ("${a}1 + 2", "${a}1", 2),
        ("12.5)", "12.5", 1),
    ] {
        let mut feeder = Feeder::new(text);
        let w = Word::parse_operand(&mut feeder, &mut core).unwrap();
        assert_eq!(w.text, word);
        assert_eq!(w.subwords.len(), count);
    }
    for text in ["", "+a", " a", ")"] {
        let mut feeder = Feeder::new(text);
        assert!(Word::parse_operand(&mut feeder, &mut core).is_none());
        assert_eq!(feeder.pos, 0);
    }
}

#[test]
fn a_parameter_in_braces_ends_at_the_first_closing_brace() {
    let mut core = ShellCore::new();
    let mut feeder = Feeder::new("${a-b}c}");
    let p = BracedParam::parse(&mut feeder, &mut core).unwrap();
    assert_eq!(p.text, "${a-b}");
    assert_eq!(p.subwords.last().unwrap().text(), "}");
    assert_eq!(rest(&feeder), "c}");
    let mut feeder = Feeder::new("${a-'}'}x");
    let p = BracedParam::parse(&mut feeder, &mut core).unwrap();
    assert_eq!(p.text, "${a-'}'}");
    for text in ["${a", "$a}", "{a}", "${a 'b"] {
        let mut feeder = Feeder::new(text);
        assert!(BracedParam::parse(&mut feeder, &mut core).is_none());
        assert_eq!(feeder.pos, 0);
    }
}

#[test]
fn a_double_quoted_text_ends_at_its_quote_or_not_at_all() {
    let mut core = ShellCore::new();
    let mut feeder = Feeder::new("\"a $b \\\" ${c} $((1+1))\"d");
    let q = DoubleQuoted::parse(&mut feeder, &mut core).unwrap();
    assert_eq!(q.text, "\"a $b \\\" ${c} $((1+1))\"");
    assert_eq!(rest(&feeder), "d");
    let mut feeder = Feeder::new("\"a\nb\nc\" d\n");
    let q = DoubleQuoted::parse(&mut feeder, &mut core).unwrap();
    assert_eq!(q.text, "\"a\nb\nc\"");
    assert_eq!(feeder.limit, 10);
    let mut feeder = Feeder::new("\"a\nb\nc");
    assert!(DoubleQuoted::parse(&mut feeder, &mut core).is_none());
    assert_eq!((feeder.pos, feeder.limit), (0, 3));
}

#[test]
fn an_expression_ends_at_what_is_no_token() {
    let mut core = ShellCore::new();
    for (text, expr, tokens) in [
        ("1 + 2))", "1 + 2", 3),
        ("(1 + 2) * 3))", "(1 + 2) * 3", 7),
        ("1 + 2) * 3", "1 + 2", 3),
        ("a ? b : c ; d", "a ? b : c ", 2),
        ("a++ + ++b]", "a++ + ++b", 4),
        ("-1 - -2;", "-1 - -2", 5),
        ("1 : 2", "1 ", 1),
        ("", "", 0),
        ("x = y = 3 ))", "x = y = 3 ", 5),
    ] {
        let mut feeder = Feeder::new(text);
        let e = ArithmeticExpr::parse(&mut feeder, &mut core).unwrap();
        assert_eq!(e.text, expr);
        assert_eq!(e.elements.len(), tokens);
        assert_eq!(feeder.pos, expr.chars().count());
    }
    let mut feeder = Feeder::new("1 +\n2 *\n3 ))\nrest");
    let e = ArithmeticExpr::parse(&mut feeder, &mut core).unwrap();
    assert_eq!(e.text, "1 +\n2 *\n3 ");
    assert!(feeder.starts_with("))"));
}

#[test]
fn the_calculator_reads_up_to_two_closing_parentheses() {
    let mut core = ShellCore::new();
    for (text, expr) in [
        ("1+2))", "1+2"),
        ("a ++ + (b - 1) ))x", "a ++ + (b - 1) "),
        ("(1) ))", "(1) "),
        ("(1))))", "(1)"),
        ("(1+2)))", "(1+2)"),
        ("((1)+(2))))", "((1)+(2))"),
        ("1 +\n 2))", "1 +\n 2"),
        ("$a + 'b'))", "$a + 'b'"),
        ("))", ""),
    ] {
        let mut feeder = Feeder::new(text);
        let c = Calc::parse(&mut feeder, &mut core).unwrap();
        assert_eq!(c.text, expr);
        assert!(feeder.starts_with("))"));
    }
    for text in ["1 + 2", "1 + 2)", "1 ; 2))", "1 +\n", "", "(1 ))", "(1))"] {
        let mut feeder = Feeder::new(text);
        let limit = feeder.limit;
        assert!(Calc::parse(&mut feeder, &mut core).is_none());
        assert_eq!((feeder.pos, feeder.limit), (0, limit));
    }
}

#[test]
fn a_redirection_needs_its_operator_and_its_word() {
    let mut core = ShellCore::new();
    for (text, redirect) in [
        (">a b", ">a"),
        ("12>>  'a b'c d", "12>>  'a b'c"),
        ("<&3;", "<&3"),
        ("&> $a x", "&> $a"),
    ] {
        let mut feeder = Feeder::new(text);
        let r = Redirect::parse(&mut feeder, &mut core).unwrap();
        assert_eq!(r.text, redirect);
    }
    for text in ["a>b", "2 >a", ">", "> ;", "12", "> #a"] {
        let mut feeder = Feeder::new(text);
        assert!(Redirect::parse(&mut feeder, &mut core).is_none());
        assert_eq!(feeder.pos, 0);
    }
}

#[test]
fn a_pipeline_goes_on_behind_its_operator() {
    let mut core = ShellCore::new();
    let mut feeder = Feeder::new("! a b | c |& d || e");
    let p = Pipeline::parse(&mut feeder, &mut core).unwrap();
    assert_eq!(p.text, "! a b | c |& d");
    assert!(p.negated);
    assert_eq!(p.commands.len(), 3);
    assert_eq!(p.pipes, vec!["|", "|&"]);
    assert_eq!(rest(&feeder), " || e");
    let mut feeder = Feeder::new("a |\n\n  b\nc");
    let p = Pipeline::parse(&mut feeder, &mut core).unwrap();
    assert_eq!(p.text, "a |\n\n  b");
    for text in ["a | ", "a |\n", "| a", "a | ;"] {
        let mut feeder = Feeder::new(text);
        let limit = feeder.limit;
        assert!(Pipeline::parse(&mut feeder, &mut core).is_none());
        assert_eq!((feeder.pos, feeder.limit), (0, limit));
    }
}

#[test]
fn a_job_goes_on_behind_its_operator() {
    let mut core = ShellCore::new();
    let mut feeder = Feeder::new("a && b | c ||\n d; e");
    let j = Job::parse(&mut feeder, &mut core).unwrap();
    assert_eq!(j.text, "a && b | c ||\n d");
    assert_eq!(j.pipelines.len(), 3);
    assert_eq!(j.pipeline_ends, vec!["&&", "||"]);
    for text in ["a &&", "a && ;", "&& a"] {
        let mut feeder = Feeder::new(text);
        assert!(Job::parse(&mut feeder, &mut core).is_none());
        assert_eq!(feeder.pos, 0);
    }
}

#[test]
fn blanks_before_the_next_command_may_span_lines() {
    let mut core = ShellCore::new();
    let mut feeder = Feeder::new("  \n\n \t x\ny");
    let mut text = String::from("|");
    eat_to_next(&mut feeder, &mut core, &mut text);
    assert_eq!(text, "|  \n\n \t ");
    assert_eq!(rest(&feeder), "x\ny");
    assert_eq!(feeder.limit, 9);
    let mut feeder = Feeder::new(" \n");
    let mut text = String::new();
    eat_to_next(&mut feeder, &mut core, &mut text);
    assert_eq!(text, " \n");
    assert_eq!(feeder.pos, 2);
}

#[test]
fn the_body_of_a_loop_stands_between_do_and_done() {
    let mut core = ShellCore::new();
    let mut feeder = Feeder::new("do a; b\n c; done > out; rest");
    let mut text = String::from("for x;");
    let mut redirects: Vec<Redirect> = Vec::new();
    let body = eat_do_body(&mut feeder, &mut core, &mut text, &mut redirects).unwrap();
    assert_eq!(body.jobs.len(), 3);
    assert_eq!(text, "for x;do a; b\n c; done > out");
    assert_eq!(redirects.len(), 1);
    assert_eq!(rest(&feeder), "; rest");
    for text in ["done", "do a; b", "do a; fi", "dox; done", "do a done"] {
        let mut feeder = Feeder::new(text);
        let mut out = String::new();
        let mut redirects: Vec<Redirect> = Vec::new();
        assert!(eat_do_body(&mut feeder, &mut core, &mut out, &mut redirects).is_none());
    }
}

#[test]
fn loops_are_parsed_whole_or_not_at_all() {
    let mut core = ShellCore::new();
    for text in [
        "while a; do b; done",
        "until a\ndo\n b\ndone >x",
        "while a; b; do c; done 2>&1 <y",
    ] {
        let mut feeder = Feeder::new(text);
        let c = WhileCommand::parse(&mut feeder, &mut core).unwrap();
        assert_eq!(c.text, text);
    }
    for text in ["while a; do b", "whilea; do b; done", "while a; done", "until a; do b; fi"] {
        let mut feeder = Feeder::new(text);
        let limit = feeder.limit;
        assert!(WhileCommand::parse(&mut feeder, &mut core).is_none());
        assert_eq!((feeder.pos, feeder.limit), (0, limit));
    }
    for text in [
        "for x in a b c; do d; done",
        "for x; do d; done",
        "for x in # none\ndo d; done",
        "for x\ndo d; done",
        "for ((i = 0; i < 3; i++)); do d; done",
        "for (( ; ; ))\ndo d; done",
        "for ((i = 0;\n i < 3;\n i++)); do d; done >x",
    ] {
        let mut feeder = Feeder::new(text);
        let c = ForCommand::parse(&mut feeder, &mut core).unwrap();
        assert_eq!(c.text, text);
    }
    for text in [
        "for x in a b c do d; done",
        "for ((i = 0; i < 3)); do d; done",
        "for ((a; b; c; d)); do e; done",
        "for 1 in a; do d; done",
        "for x in a; d; done",
        "for x;",
        "forx in a; do d; done",
    ] {
        let mut feeder = Feeder::new(text);
        let limit = feeder.limit;
        assert!(ForCommand::parse(&mut feeder, &mut core).is_none());
        assert_eq!((feeder.pos, feeder.limit), (0, limit));
    }
}

#[test]
fn a_test_command_reads_its_tokens_up_to_the_brackets() {
    let mut core = ShellCore::new();
    for (text, tokens) in [
        ("[[ -f a ]]", 2),
        ("[[ a == b && ! -z c ]]", 7),
        ("[[ ( a < b ) || c -nt d ]]", 9),
        ("[[ -f ]]", 1),
        ("[[ a -f ]]", 2),
        ("[[ a\n== b ]] > x", 3),
    ] {
        let mut feeder = Feeder::new(text);
        let c = TestCommand::parse(&mut feeder, &mut core).unwrap();
        assert_eq!(c.text, text);
        assert_eq!(c.cond.unwrap().elements.len(), tokens);
    }
    for text in ["[[ ]]", "[[ a == b", "[[a ]]", "[[ a ; ]]", "[ a ]"] {
        let mut feeder = Feeder::new(text);
        let limit = feeder.limit;
        assert!(TestCommand::parse(&mut feeder, &mut core).is_none());
        assert_eq!((feeder.pos, feeder.limit), (0, limit));
    }
}

#[test]
fn operators_of_tests_are_words_of_their_own() {
    for (text, unary, binary) in [
        ("-f a", 2, 0),
        ("-fa", 0, 0),
        ("-z", 2, 0),
        ("== a", 0, 2),
        ("=a", 0, 0),
        ("= a", 0, 1),
        ("-eq 1", 0, 3),
        ("-eq1", 0, 0),
        ("!= b", 0, 2),
        ("-q a", 0, 0),
        ("", 0, 0),
    ] {
        let feeder = Feeder::new(text);
        assert_eq!(feeder.scanner_test_unary_operator(), unary);
        assert_eq!(feeder.scanner_test_binary_operator(), binary);
    }
    let feeder = Feeder::new("then x");
    let table = vec!["the".to_string(), "".to_string(), "then".to_string(), "t".to_string()];
    assert_eq!(feeder.scan_keywords(&table), 4);
}

fn kind(c: &Command) -> &'static str {
    match c {
        Command::Simple(_) => "simple",
        Command::If(_) => "if",
        Command::For(_) => "for",
        Command::While(_) => "while",
        Command::Paren(_) => "paren",
        Command::Arithmetic(_) => "arithmetic",
        Command::Test(_) => "test",
    }
}

#[test]
fn the_kinds_of_command_are_tried_in_their_order() {
    let mut core = ShellCore::new();
    for (text, expected, all) in [
        ("if a; then b; fi", "if", "if a; then b; fi"),
        ("ifa; then b; fi", "simple", "ifa"),
        ("((1 + 2))", "arithmetic", "((1 + 2))"),
        ("(a; b)", "paren", "(a; b)"),
        ("((a); b)", "paren", "((a); b)"),
        ("[[ a ]]", "test", "[[ a ]]"),
        ("[[ a", "simple", "[[ a"),
        ("for x; do a; done", "for", "for x; do a; done"),
        ("until a; do b; done", "while", "until a; do b; done"),
        ("echo for", "simple", "echo for"),
        ("if a; then b", "simple", "if a"),
    ] {
        let mut feeder = Feeder::new(text);
        let c = Command::parse(&mut feeder, &mut core).unwrap();
        assert_eq!(kind(&c), expected);
        assert_eq!(c.get_text(), all);
    }
    for text in ["", ";", "fi", "then a", ")"] {
        let mut feeder = Feeder::new(text);
        assert!(Command::parse(&mut feeder, &mut core).is_none());
        assert_eq!(feeder.pos, 0);
    }
}

#[test]
fn a_script_ends_where_no_job_follows() {
    let mut core = ShellCore::new();
    let mut feeder = Feeder::new("a; b & c\nd )");
    let s = Script::parse(&mut feeder, &mut core).unwrap();
    assert_eq!(s.jobs.len(), 4);
    assert_eq!(s.text, "a; b & c\nd ");
    assert_eq!(rest(&feeder), ")");
    for text in ["", "  # none\n", ")", "; a"] {
        let mut feeder = Feeder::new(text);
        assert!(Script::parse(&mut feeder, &mut core).is_none());
        assert_eq!(feeder.pos, 0);
    }
    let ends = vec!["fi".to_string(), "else".to_string()];
    let mut feeder = Feeder::new(" a; b\n c\nelse d; fi");
    let s = Script::parse_until(&mut feeder, &mut core, &ends).unwrap();
    assert_eq!(s.jobs.len(), 3);
    assert_eq!(rest(&feeder), "else d; fi");
    let mut feeder = Feeder::new("else");
    let s = Script::parse_until(&mut feeder, &mut core, &ends).unwrap();
    assert_eq!(s.jobs.len(), 0);
    for text in ["a; b", "a; ) fi", "a; elsewhere"] {
        let mut feeder = Feeder::new(text);
        let limit = feeder.limit;
        assert!(Script::parse_until(&mut feeder, &mut core, &ends).is_none());
        assert_eq!((feeder.pos, feeder.limit), (0, limit));
    }
}

#[test]
fn a_script_read_again_from_its_text_is_the_same_script() {
    let mut core = ShellCore::new();
    for text in [
        "echo a b 'c d' > out 2>&1\n",
        "a | b |& c && ! d || e; f &\ng\n",
        "if a; then b; elif c; then d; else e; fi > f",
        "for x in 1 2 3; do echo $((x * x)); done",
        "for ((i = 0; i < 3; i++)); do echo $i; done",
        "while a; do b; done; until c\ndo\n d\ndone",
        "( a; b ) | c; ((1 + 2)); [[ -f a && b == c ]]",
        "echo \"a $b ${c-d} $(e f)\" ~/g {h,i}\n",
        "a # comment\nb\n",
    ] {
        let mut feeder = Feeder::new(text);
        let first = Script::parse(&mut feeder, &mut core).unwrap();
        assert_eq!(first.text, text);
        let mut again = Feeder::new(&first.text);
        let second = Script::parse(&mut again, &mut core).unwrap();
        assert_eq!(format!("{:?}", first), format!("{:?}", second));
    }
    let mut feeder = Feeder::new("if a; then b; fi; c ) rest");
    let first = Script::parse(&mut feeder, &mut core).unwrap();
    assert_eq!(first.text, "if a; then b; fi; c ");
    let mut again = Feeder::new(&first.text);
    let second = Script::parse(&mut again, &mut core).unwrap();
    assert_eq!(format!("{:?}", first), format!("{:?}", second));
}

#[test]
fn a_pair_of_parentheses_changes_nothing_for_the_calculator() {
    let mut core = ShellCore::new();
    core.set_var("a", "5");
    for (plain, wrapped) in [
        ("1+2))", "(1+2)))"),
        ("a * 2 - 1))", "(a * 2 - 1)))"),
        ("1 / 0))", "(1 / 0)))"),
        ("(1) + (2)))", "((1) + (2))))"),
    ] {
        let mut feeder = Feeder::new(plain);
        let mut c1 = Calc::parse(&mut feeder, &mut core).unwrap();
        let mut feeder = Feeder::new(wrapped);
        let mut c2 = Calc::parse(&mut feeder, &mut core).unwrap();
        assert_eq!(c2.elements.len(), c1.elements.len() + 2);
        let v1 = c1.eval(&mut core);
        let v2 = c2.eval(&mut core);
        match (v1, v2) {
            (Ok(a), Ok(b)) => assert_eq!(a, b),
            (Err(_), Err(_)) => {},
            _ => panic!("different outcomes for {}", plain),
        }
    }
    let mut feeder = Feeder::new("(1+2)))");
    let mut c = Calc::parse(&mut feeder, &mut core).unwrap();
    assert_eq!(c.text, "(1+2)");
    assert_eq!(c.eval(&mut core), Ok("3".to_string()));
}
