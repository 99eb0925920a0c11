use sush::elements::calc::Calc;
use sush::elements::command::arithmetic::ArithmeticCommand;
use sush::elements::command::for_command::ForCommand;
use sush::elements::command::for_command::LoopStep;
use sush::elements::command::if_command::IfCommand;
use sush::elements::command::if_command::IfStep;
use sush::elements::command::paren::ParenCommand;
use sush::elements::command::simple::SimpleCommand;
use sush::elements::command::while_command::WhileCommand;
use sush::elements::command::Command;
use sush::elements::io::redirect::Redirect;
use sush::elements::io::redirect::RedirectAction;
use sush::elements::job::Job;
use sush::elements::pipeline::Pipeline;
use sush::elements::script::Script;
use sush::feeder::Feeder;
use sush::shell::ShellCore;

fn script(text: &str) -> Script {
    let mut core = ShellCore::new();
    let mut feeder = Feeder::new(text);
    Script::parse(&mut feeder, &mut core).unwrap()
}

#[test]
fn a_simple_command_has_words_and_redirects() {
    let mut core = ShellCore::new();
    let mut feeder = Feeder::new("echo a  'b c' > out 2>&1 d; rest");
    let c = SimpleCommand::parse(&mut feeder, &mut core).unwrap();
    assert_eq!(c.text, "echo a  'b c' > out 2>&1 d");
    let words: Vec<String> = c.words.iter().map(|w| w.text.clone()).collect();
    assert_eq!(words, vec!["echo", "a", "'b c'", "d"]);
    assert_eq!(c.redirects.len(), 2);
    assert_eq!(c.redirects[0].symbol, ">");
    assert_eq!(c.redirects[1].left, "2");
    assert_eq!(c.redirects[1].right.text, "1");
    assert!(feeder.starts_with("; rest"));
}

#[test]
fn reserved_words_begin_no_simple_command() {
    let mut core = ShellCore::new();
    for text in ["then x", "fi", "done", "do x", "else", "elif x", "}", "esac"] {
        let mut feeder = Feeder::new(text);
        assert!(SimpleCommand::parse(&mut feeder, &mut core).is_none());
        assert_eq!(feeder.pos, 0);
    }
    let mut feeder = Feeder::new("echo then fi");
    let c = SimpleCommand::parse(&mut feeder, &mut core).unwrap();
    assert_eq!(c.words.len(), 3);
}

#[test]
fn redirects_are_parsed_and_planned() {
    let mut core = ShellCore::new();
    let mut feeder = Feeder::new("2>> 'a b' x");
    let mut r = Redirect::parse(&mut feeder, &mut core).unwrap();
    assert_eq!(r.text, "2>> 'a b'");
    assert_eq!(r.left, "2");
    assert_eq!(r.symbol, ">>");
    assert_eq!(r.right.text, "'a b'");
    let p = r.connect("a b", true).unwrap();
    assert_eq!(p.fd, 2);
    assert!(p.save);
    assert!(!p.with_stderr);
    assert!(matches!(p.action, RedirectAction::OpenAppend(ref s) if s == "a b"));
    assert_eq!(r.left_fd, 2);
    assert_eq!(r.restore(), None);
    r.saved(10);
    assert_eq!(r.restore(), Some((10, 2)));
    for text in ["x > y", ">", "> ;", "2 > x"] {
        let mut feeder = Feeder::new(text);
        assert!(Redirect::parse(&mut feeder, &mut core).is_none());
        assert_eq!(feeder.pos, 0);
    }
}

#[test]
fn each_redirect_symbol_has_its_action() {
    let mut core = ShellCore::new();
    let plan = |text: &str, right: &str, core: &mut ShellCore| {
        let mut feeder = Feeder::new(text);
        let mut r = Redirect::parse(&mut feeder, core).unwrap();
        r.connect(right, false)
    };
    let p = plan("< f", "f", &mut core).unwrap();
    assert_eq!(p.fd, 0);
    assert!(matches!(p.action, RedirectAction::OpenRead(_)));
    let p = plan("> f", "f", &mut core).unwrap();
    assert_eq!(p.fd, 1);
    assert!(matches!(p.action, RedirectAction::OpenWrite(_)));
    let p = plan("&> f", "f", &mut core).unwrap();
    assert!(p.with_stderr);
    let p = plan("&>> f", "f", &mut core).unwrap();
    assert!(matches!(p.action, RedirectAction::OpenAppend(_)));
    assert!(p.with_stderr);
    let p = plan(">&2", "2", &mut core).unwrap();
    assert!(matches!(p.action, RedirectAction::Duplicate(2)));
    let p = plan("3<&0", "0", &mut core).unwrap();
    assert_eq!(p.fd, 3);
    assert!(matches!(p.action, RedirectAction::Duplicate(0)));
    let p = plan(">&-", "-", &mut core).unwrap();
    assert!(matches!(p.action, RedirectAction::Close));
    let p = plan(">&file", "file", &mut core).unwrap();
    assert!(matches!(p.action, RedirectAction::OpenWrite(_)));
    assert!(p.with_stderr);
    assert!(plan("<&file", "file", &mut core).is_none());
    assert!(plan("<<x", "x", &mut core).is_none());
    let p = plan("<<<x", "text", &mut core).unwrap();
    assert!(matches!(p.action, RedirectAction::HereString(ref s) if s == "text"));
    assert!(plan("1234567890>x", "x", &mut core).is_none());
}

#[test]
fn pipelines_jobs_and_scripts() {
    let s = script("a | b |& c && d || ! e; f &\ng\n");
    assert_eq!(s.text, "a | b |& c && d || ! e; f &\ng\n");
    assert_eq!(s.jobs.len(), 3);
    assert_eq!(s.job_ends, vec![";", " &", "\n"]);
    assert!(!s.in_background(0));
    assert!(s.in_background(1));
    let j = &s.jobs[0];
    assert_eq!(j.pipelines.len(), 3);
    assert_eq!(j.pipeline_ends, vec!["&&", "||"]);
    let p = &j.pipelines[0];
    assert_eq!(p.text, "a | b |& c");
    assert_eq!(p.commands.len(), 3);
    assert_eq!(p.pipes, vec!["|", "|&"]);
    assert_eq!(p.pipe_count(), 2);
    assert!(j.pipelines[2].negated);
    let w = p.wiring(0);
    assert_eq!((w.input, w.output, w.with_stderr), (None, Some(0), false));
    let w = p.wiring(1);
    assert_eq!((w.input, w.output, w.with_stderr), (Some(0), Some(1), true));
    let w = p.wiring(2);
    assert_eq!((w.input, w.output, w.with_stderr), (Some(1), None, false));
}

#[test]
fn the_text_of_every_node_is_what_it_was_parsed_from() {
    let text = "if a; then b | c; elif d; then e; else f; fi > out; for i in 1 2; do echo $i; done\n(x; y) && ((1+2))";
    let s = script(text);
    assert_eq!(s.text, text);
    assert_eq!(s.jobs.len(), 3);
    assert_eq!(s.jobs[1].text, "for i in 1 2; do echo $i; done");
    let mut core = ShellCore::new();
    for j in &s.jobs {
        let mut feeder = Feeder::new(&j.text);
        let again = Job::parse(&mut feeder, &mut core).unwrap();
        assert_eq!(again.text, j.text);
        assert_eq!(again.pipelines.len(), j.pipelines.len());
        for (p, q) in j.pipelines.iter().zip(again.pipelines.iter()) {
            assert_eq!(p.text, q.text);
            assert_eq!(p.commands.len(), q.commands.len());
            for (c, d) in p.commands.iter().zip(q.commands.iter()) {
                assert_eq!(c.get_text(), d.get_text());
            }
        }
    }
}

#[test]
fn failed_parses_consume_nothing() {
    let mut core = ShellCore::new();
    for text in ["if a; then b", "if a; fi", "for", "for i in a; echo; done", "(a", "((1+", "a |", "a &&", "while x; done", "for ((;;)) do x; done"] {
        let mut feeder = Feeder::new(text);
        let r = Command::parse(&mut feeder, &mut core);
        if r.is_none() {
            assert_eq!(feeder.pos, 0, "{}", text);
        }
        let mut feeder = Feeder::new(text);
        assert!(IfCommand::parse(&mut feeder, &mut core).is_none(), "{}", text);
        assert_eq!(feeder.pos, 0);
        let mut feeder = Feeder::new(text);
        if ForCommand::parse(&mut feeder, &mut core).is_none() {
            assert_eq!(feeder.pos, 0);
        }
        let mut feeder = Feeder::new(text);
        if Pipeline::parse(&mut feeder, &mut core).is_none() {
            assert_eq!(feeder.pos, 0, "{}", text);
        }
    }
}

#[test]
fn the_if_command_chooses_its_branch() {
    let mut core = ShellCore::new();
    let mut feeder = Feeder::new("if a\nthen b\nelif c; then d; else e; fi >o");
    let c = IfCommand::parse(&mut feeder, &mut core).unwrap();
    assert_eq!(c.text, "if a\nthen b\nelif c; then d; else e; fi >o");
    assert_eq!(c.if_elif_scripts.len(), 2);
    assert_eq!(c.then_scripts.len(), 2);
    assert!(c.else_script.is_some());
    assert_eq!(c.redirects.len(), 1);
    assert_eq!(c.if_elif_scripts[1].text, " c; ");
    assert!(c.first_step() == IfStep::Condition(0));
    assert!(c.next_step(IfStep::Condition(0), 0) == IfStep::Then(0));
    assert!(c.next_step(IfStep::Condition(0), 1) == IfStep::Condition(1));
    assert!(c.next_step(IfStep::Condition(1), 0) == IfStep::Then(1));
    assert!(c.next_step(IfStep::Condition(1), 2) == IfStep::Else);
    assert!(c.next_step(IfStep::Then(0), 0) == IfStep::Done);
    assert!(c.next_step(IfStep::Else, 0) == IfStep::Done);
    let mut feeder = Feeder::new("if a; then b; fi");
    let c = IfCommand::parse(&mut feeder, &mut core).unwrap();
    assert!(c.next_step(IfStep::Condition(0), 1) == IfStep::Done);
    let mut feeder = Feeder::new("ifconfig");
    assert!(IfCommand::parse(&mut feeder, &mut core).is_none());
}

#[test]
fn the_for_command_over_words() {
    let mut core = ShellCore::new();
    let mut feeder = Feeder::new("for i in 1 {2,3}; do echo $i; done");
    let mut c = ForCommand::parse(&mut feeder, &mut core).unwrap();
    assert_eq!(c.name, "i");
    assert!(c.has_in);
    assert!(!c.has_arithmetic);
    assert_eq!(c.values.len(), 2);
    let values = c.loop_values(&mut core).unwrap();
    assert_eq!(values, vec!["1", "2", "3"]);
    ForCommand::enter(&mut core);
    assert_eq!(core.loop_level, 1);
    assert!(c.next_value(&values, 0, &mut core) == LoopStep::Body);
    assert_eq!(core.get_var("i"), "1");
    assert!(ForCommand::after_body(&mut core));
    assert!(c.next_value(&values, 2, &mut core) == LoopStep::Body);
    assert_eq!(core.get_var("i"), "3");
    assert!(c.next_value(&values, 3, &mut core) == LoopStep::Done(true));
    core.break_counter = 2;
    assert!(!ForCommand::after_body(&mut core));
    assert_eq!(core.break_counter, 1);
    core.sigint = true;
    assert!(c.next_value(&values, 0, &mut core) == LoopStep::Done(false));
    ForCommand::leave(&mut core, false);
    assert_eq!(core.loop_level, 0);
    assert_eq!(core.break_counter, 0);
    assert_eq!(core.get_var("?"), "1");
}

#[test]
fn the_for_command_without_in_takes_the_positional_parameters() {
    let mut core = ShellCore::new();
    core.params = vec!["sh".to_string(), "x".to_string(), "y z".to_string()];
    let mut feeder = Feeder::new("for a\ndo :; done");
    let mut c = ForCommand::parse(&mut feeder, &mut core).unwrap();
    assert!(!c.has_in);
    assert_eq!(c.loop_values(&mut core).unwrap(), vec!["x", "y z"]);
}

#[test]
fn the_for_command_with_expressions() {
    let mut core = ShellCore::new();
    let mut feeder = Feeder::new("for ((i=0; i<2; i++)); do echo; done");
    let c = ForCommand::parse(&mut feeder, &mut core).unwrap();
    assert!(c.has_arithmetic);
    assert_eq!(c.arithmetics.len(), 3);
    assert!(c.begin_arithmetic(&mut core));
    assert_eq!(core.get_var("i"), "0");
    assert!(c.test_arithmetic(&mut core) == LoopStep::Body);
    assert!(c.advance_arithmetic(&mut core));
    assert!(c.test_arithmetic(&mut core) == LoopStep::Body);
    assert!(c.advance_arithmetic(&mut core));
    assert!(c.test_arithmetic(&mut core) == LoopStep::Done(true));
    assert_eq!(core.get_var("i"), "2");
    let mut feeder = Feeder::new("for ((;;)); do echo; done");
    let c = ForCommand::parse(&mut feeder, &mut core).unwrap();
    assert!(c.arithmetics.iter().all(|a| a.is_none()));
    assert!(c.test_arithmetic(&mut core) == LoopStep::Body);
    let mut feeder = Feeder::new("for ((;1/0;)); do echo; done");
    let c = ForCommand::parse(&mut feeder, &mut core).unwrap();
    assert!(c.test_arithmetic(&mut core) == LoopStep::Done(false));
}

#[test]
fn while_and_until() {
    let mut core = ShellCore::new();
    let mut feeder = Feeder::new("while a; do b; done <f");
    let c = WhileCommand::parse(&mut feeder, &mut core).unwrap();
    assert_eq!(c.text, "while a; do b; done <f");
    assert!(!c.until);
    assert!(c.continues(0, &core));
    assert!(!c.continues(1, &core));
    let mut feeder = Feeder::new("until a\ndo b\ndone");
    let c = WhileCommand::parse(&mut feeder, &mut core).unwrap();
    assert!(c.until);
    assert!(!c.continues(0, &core));
    assert!(c.continues(1, &core));
    core.sigint = true;
    assert!(!c.continues(1, &core));
}

#[test]
fn the_arithmetic_command_sets_the_status() {
    let mut core = ShellCore::new();
    let mut feeder = Feeder::new("(( a = 2 + 3 )) >x");
    let c = ArithmeticCommand::parse(&mut feeder, &mut core).unwrap();
    assert_eq!(c.text, "(( a = 2 + 3 )) >x");
    assert_eq!(c.eval(&mut core), Ok("5".to_string()));
    assert_eq!(c.run(&mut core), None);
    assert_eq!(core.get_var("?"), "0");
    let mut feeder = Feeder::new("((0))");
    let c = ArithmeticCommand::parse(&mut feeder, &mut core).unwrap();
    assert_eq!(c.run(&mut core), None);
    assert_eq!(core.get_var("?"), "1");
    let mut feeder = Feeder::new("((1/0))");
    let c = ArithmeticCommand::parse(&mut feeder, &mut core).unwrap();
    assert_eq!(c.run(&mut core), Some("divided by 0".to_string()));
    assert_eq!(core.get_var("?"), "1");
}

#[test]
fn commands_in_parentheses() {
    let mut core = ShellCore::new();
    let mut feeder = Feeder::new("( exit 7 ); echo $?");
    let c = ParenCommand::parse(&mut feeder, &mut core).unwrap();
    assert_eq!(c.text, "( exit 7 )");
    assert_eq!(c.script.as_ref().unwrap().jobs.len(), 1);
    let mut feeder = Feeder::new("(a\nb)>f");
    let c = ParenCommand::parse(&mut feeder, &mut core).unwrap();
    assert_eq!(c.text, "(a\nb)>f");
    assert_eq!(c.script.as_ref().unwrap().jobs.len(), 2);
    assert_eq!(c.redirects.len(), 1);
}

#[test]
fn and_or_lists_choose_the_next_pipeline() {
    let s = script("false && echo x || echo y");
    let j = &s.jobs[0];
    assert_eq!(j.exec(0, 1), Some(2));
    assert_eq!(j.exec(0, 0), Some(1));
    assert_eq!(j.exec(1, 0), None);
    assert_eq!(j.exec(1, 1), Some(2));
    assert_eq!(j.exec(2, 0), None);
    let s = script("a || b || c && d");
    let j = &s.jobs[0];
    assert_eq!(j.exec(0, 0), Some(3));
    assert_eq!(j.exec(0, 1), Some(1));
}

#[test]
fn a_single_builtin_or_compound_command_runs_in_the_shell() {
    let pipeline = |text: &str| {
        let mut core = ShellCore::new();
        let mut feeder = Feeder::new(text);
        Pipeline::parse(&mut feeder, &mut core).unwrap()
    };
    assert!(pipeline("cd /").runs_in_process(false, true));
    assert!(!pipeline("ls /").runs_in_process(false, false));
    assert!(!pipeline("cd /").runs_in_process(true, true));
    assert!(!pipeline("cd / | cat").runs_in_process(false, true));
    assert!(pipeline("if a; then b; fi").runs_in_process(false, false));
    assert!(pipeline("((1))").runs_in_process(false, false));
    assert!(!pipeline("(a)").runs_in_process(false, false));
    let mut p = pipeline("for i in a; do b; done");
    assert!(p.runs_in_process(false, false));
    p.commands[0].set_force_fork();
    assert!(p.commands[0].force_fork());
    assert!(!p.runs_in_process(false, false));
    let mut core = ShellCore::new();
    let p = pipeline("a | b");
    assert_eq!(p.exec(&mut core, &vec![0, 0]), 0);
    assert_eq!(core.pipestatus, vec![0, 0]);
    let p = pipeline("! a");
    assert_eq!(p.exec(&mut core, &vec![0]), 1);
}

#[test]
fn scripts_stop_at_their_end_word() {
    let mut core = ShellCore::new();
    let mut feeder = Feeder::new(" a; b\nthen c");
    let ends = vec!["then".to_string()];
    let s = Script::parse_until(&mut feeder, &mut core, &ends).unwrap();
    assert_eq!(s.text, " a; b\n");
    assert!(feeder.starts_with("then"));
    let mut feeder = Feeder::new("a; thenx");
    assert!(Script::parse_until(&mut feeder, &mut core, &ends).is_none());
    assert_eq!(feeder.pos, 0);
    let mut feeder = Feeder::new("# only a comment\n");
    assert!(Script::parse(&mut feeder, &mut core).is_none());
    assert_eq!(feeder.pos, 0);
}

#[test]
fn the_plain_calculator() {
    let mut core = ShellCore::new();
    core.set_var("a", "10");
    let eval = |text: &str, core: &mut ShellCore| {
        let mut feeder = Feeder::new(text);
        let mut c = Calc::parse(&mut feeder, core).unwrap();
        assert!(feeder.starts_with("))"));
        c.eval(core)
    };
    assert_eq!(eval("1 + 2 * 3))", &mut core), Ok("7".to_string()));
    assert_eq!(eval("a / 3))", &mut core), Ok("3".to_string()));
    assert_eq!(eval("a++ + 1))", &mut core), Ok("11".to_string()));
    assert_eq!(core.get_var("a"), "11");
    assert_eq!(eval("++5))", &mut core), Ok("5".to_string()));
    assert_eq!(eval("3 --2))", &mut core), Ok("5".to_string()));
    assert_eq!(eval("(1 + 2) * -3))", &mut core), Ok("-9".to_string()));
    assert_eq!(eval("$a + 1))", &mut core), Ok("12".to_string()));
    assert_eq!(
        eval("1 / 0))", &mut core),
        Err("1 / 0: divided by 0".to_string())
    );
    core.set_var("s", "x y");
    assert_eq!(
        eval("s + 1))", &mut core),
        Err("x y: syntax error: operand expected (error token is \"x y\")".to_string())
    );
    let mut feeder = Feeder::new("1 + 2");
    assert!(Calc::parse(&mut feeder, &mut core).is_none());
    assert_eq!(feeder.pos, 0);
    assert_eq!(Calc::new().text, "");
}
