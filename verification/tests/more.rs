use sush::elem_command::Command;
use sush::elem_command::ExecError;
use sush::elem_command::ExecPlan;
use sush::elements::subword::command::CommandSubstitution;
use sush::elements::subword::Subword;
use sush::elements::word::Word;
use sush::feeder::Feeder;
use sush::elements::command::for_command::ForCommand;
use sush::elements::command::for_command::LoopStep;
use sush::shell::ShellCore;
use sush::shell::WaitOutcome;

fn strings(v: &[&str]) -> Vec<String> {
    v.iter().map(|s| s.to_string()).collect()
}

#[test]
fn command_substitution_is_parsed_with_its_command() {
    let mut core = ShellCore::new();
    let mut feeder = Feeder::new("a$(echo b | tr b c)d e");
    let w = Word::parse(&mut feeder, &mut core).unwrap();
    assert_eq!(w.text, "a$(echo b | tr b c)d");
    assert_eq!(w.subwords.len(), 3);
    assert!(matches!(&w.subwords[1], Subword::Command(c) if c.output.is_none()));
    assert_eq!(w.command_texts(), strings(&["(echo b | tr b c)"]));
    let mut feeder = Feeder::new("$(echo");
    let w = Word::parse(&mut feeder, &mut core).unwrap();
    assert_eq!(w.text, "$");
    let mut feeder = Feeder::new("$(echo");
    assert!(CommandSubstitution::parse(&mut feeder, &mut core).is_none());
    assert_eq!(feeder.pos, 0);
}

#[test]
fn the_output_of_a_command_takes_its_place() {
    let mut core = ShellCore::new();
    let mut feeder = Feeder::new("x$(one)\"y$(two) $(three)\"");
    let mut w = Word::parse(&mut feeder, &mut core).unwrap();
    assert_eq!(w.command_texts(), strings(&["(one)", "(two)", "(three)"]));
    assert_eq!(w.expand(&mut core).map(|f| f.len()), None);
    w.supply_outputs(&strings(&["1 2\n\n", "3\n4\n", ""]));
    assert_eq!(w.text, "x$(one)\"y$(two) $(three)\"");
    assert_eq!(
        w.eval(&mut core),
        Some(strings(&["x1", "2y3\n4 "]))
    );
}

#[test]
fn set_output_drops_the_newlines_at_the_end() {
    let mut core = ShellCore::new();
    let mut feeder = Feeder::new("$(a)");
    let mut c = CommandSubstitution::parse(&mut feeder, &mut core).unwrap();
    assert_eq!(c.command_text(), "(a)");
    c.set_output("a\nb\n\n\n");
    assert_eq!(c.output, Some("a\nb".to_string()));
    c.set_output("\n");
    assert_eq!(c.output, Some("".to_string()));
    c.set_output("x");
    assert_eq!(c.output, Some("x".to_string()));
}

#[test]
fn a_plain_command_is_cut_at_its_spaces() {
    let mut core = ShellCore::new();
    let mut feeder = Feeder::new("ls -l  /tmp \n");
    let c = Command::parse(&mut feeder, &mut core).unwrap();
    assert_eq!(c.text, "ls -l  /tmp \n");
    assert_eq!(c.args, strings(&["ls", "-l", "", "/tmp"]));
    assert_eq!(feeder.len(), 0);
    assert!(c.exec(&core) == ExecPlan::Fork);
    let mut feeder = Feeder::new("cd /");
    let c = Command::parse(&mut feeder, &mut core).unwrap();
    assert!(c.exec(&core) == ExecPlan::Builtin);
    let mut feeder = Feeder::new("");
    let c = Command::parse(&mut feeder, &mut core).unwrap();
    assert_eq!(c.args, strings(&[""]));
}

#[test]
fn a_program_that_cannot_start_gives_126_or_127() {
    let c = Command { text: "x y".to_string(), args: strings(&["x", "y"]) };
    assert_eq!(
        c.exec_failure(ExecError::PermissionDenied),
        (126, "sush: x: Permission denied".to_string())
    );
    assert_eq!(
        c.exec_failure(ExecError::NotFound),
        (127, "x: command not found".to_string())
    );
    assert_eq!(
        c.exec_failure(ExecError::Other),
        (127, "Failed to execute. x".to_string())
    );
}

#[test]
fn the_history_keeps_the_latest_lines() {
    let mut core = ShellCore::new();
    for line in ["a", "b", "c"] {
        core.add_history(line);
    }
    assert_eq!(core.history, strings(&["a", "b", "c"]));
    assert_eq!(core.history_tail(2), strings(&["b", "c"]));
    assert_eq!(core.history_tail(3), strings(&["a", "b", "c"]));
    assert_eq!(core.history_tail(10), strings(&["a", "b", "c"]));
    assert_eq!(core.history_tail(0), Vec::<String>::new());
}

#[test]
fn scenario_for_loop_with_squares() {
    let mut core = ShellCore::new();
    let mut feeder = Feeder::new("for i in 1 2 3; do echo $((i*i)); done");
    let mut c = ForCommand::parse(&mut feeder, &mut core).unwrap();
    let values = c.loop_values(&mut core).unwrap();
    let body = c.do_script.as_ref().unwrap();
    let echo = match &body.jobs[0].pipelines[0].commands[0] {
        sush::elements::command::Command::Simple(s) => s,
        _ => panic!("no simple command"),
    };
    let mut out = vec![];
    let mut i = 0;
    while c.next_value(&values, i, &mut core) == LoopStep::Body {
        let mut arg = echo.words[1].duplicate();
        out.extend(arg.eval(&mut core).unwrap());
        i += 1;
    }
    assert_eq!(out, strings(&["1", "4", "9"]));
}

#[test]
fn scenario_division_and_remainder() {
    let mut core = ShellCore::new();
    let mut feeder = Feeder::new("a=10; b=3; echo $((a/b)) $((a%b))");
    let s = sush::elements::script::Script::parse(&mut feeder, &mut core).unwrap();
    assert_eq!(s.jobs.len(), 3);
    core.set_var("a", "10");
    core.set_var("b", "3");
    let echo = match &s.jobs[2].pipelines[0].commands[0] {
        sush::elements::command::Command::Simple(c) => c,
        _ => panic!("no simple command"),
    };
    let mut args = vec![];
    for w in &echo.words {
        args.extend(w.duplicate().eval(&mut core).unwrap());
    }
    assert_eq!(args, strings(&["echo", "3", "1"]));
}

#[test]
fn scenario_subshell_status() {
    let mut core = ShellCore::new();
    let mut feeder = Feeder::new("( exit 7 ); echo $?");
    let s = sush::elements::script::Script::parse(&mut feeder, &mut core).unwrap();
    assert_eq!(s.jobs.len(), 2);
    let mut child = ShellCore::new();
    child.enter_subshell();
    let status = sush::shell::builtins::exit(&mut child, &mut strings(&["exit", "7"]));
    assert_eq!(status, 7);
    assert_eq!(core.wait_process(WaitOutcome::Exited(status)), 7);
    let echo = match &s.jobs[1].pipelines[0].commands[0] {
        sush::elements::command::Command::Simple(c) => c,
        _ => panic!("no simple command"),
    };
    assert_eq!(echo.words[1].duplicate().eval(&mut core), Some(strings(&["7"])));
    assert_eq!(core.wait_process(WaitOutcome::Exited(0)), 0);
    assert_eq!(core.get_var("?"), "0");
}

#[test]
fn scenario_pipeline_status() {
    let mut core = ShellCore::new();
    let mut feeder = Feeder::new("echo \"hello\" | tr a-z A-Z");
    let p = sush::elements::pipeline::Pipeline::parse(&mut feeder, &mut core).unwrap();
    assert_eq!(p.commands.len(), 2);
    assert_eq!(p.exec(&mut core, &vec![0, 0]), 0);
    assert_eq!(core.pipestatus, vec![0, 0]);
    assert_eq!(core.get_var("?"), "0");
}

#[test]
fn parameters_in_braces_with_operators() {
    let mut core = ShellCore::new();
    core.set_var("a", "abc");
    core.set_var("e", "");
    core.params = strings(&["sh", "x", "y"]);
    let eval = |text: &str, core: &mut ShellCore| {
        let mut feeder = Feeder::new(text);
        let mut w = Word::parse(&mut feeder, core).unwrap();
        assert_eq!(w.text, text);
        w.eval(core)
    };
    assert_eq!(eval("${a}", &mut core), Some(strings(&["abc"])));
    assert_eq!(eval("${#a}", &mut core), Some(strings(&["3"])));
    assert_eq!(eval("${#}", &mut core), Some(strings(&["2"])));
    assert_eq!(eval("${#u}", &mut core), Some(strings(&["0"])));
    assert_eq!(eval("${1}${?}", &mut core), Some(strings(&["x0"])));
    assert_eq!(eval("${a:-d}", &mut core), Some(strings(&["abc"])));
    assert_eq!(eval("${e:-d}", &mut core), Some(strings(&["d"])));
    assert_eq!(eval("${e-d}", &mut core), Some(strings(&[])));
    assert_eq!(eval("${u-d}", &mut core), Some(strings(&["d"])));
    assert_eq!(eval("${u:+d}", &mut core), Some(strings(&[])));
    assert_eq!(eval("${a:+d}", &mut core), Some(strings(&["d"])));
    assert_eq!(eval("${e+d}", &mut core), Some(strings(&["d"])));
    assert_eq!(eval("${a:?gone}", &mut core), Some(strings(&["abc"])));
    assert_eq!(eval("${u:?gone}", &mut core), None);
    assert_eq!(eval("${e?gone}", &mut core), Some(strings(&[])));
    assert_eq!(eval("${u:=new}", &mut core), Some(strings(&["new"])));
    assert_eq!(core.get_var("u"), "new");
    assert_eq!(eval("${a:=new}", &mut core), Some(strings(&["abc"])));
    assert_eq!(eval("${a%c}", &mut core), None);
    assert_eq!(eval("${a:}", &mut core), None);
    assert_eq!(eval("\"${e:-d}\"", &mut core), Some(strings(&["d"])));
}

#[test]
fn the_job_table_numbers_and_follows_its_jobs() {
    let mut core = ShellCore::new();
    assert_eq!(core.jobs.add(vec![10, 11], "a | b &"), 1);
    assert_eq!(core.jobs.add(vec![12], "c &"), 2);
    assert_eq!(core.jobs.entries.len(), 2);
    assert_eq!(core.jobs.entries[0].statuses, vec![None, None]);
    assert!(core.jobs.entries[0].state == sush::shell::jobs::JobState::Running);
    assert_eq!(core.jobs.note(11, WaitOutcome::Exited(0)), Some(1));
    assert!(core.jobs.entries[0].state == sush::shell::jobs::JobState::Running);
    assert_eq!(core.jobs.note(10, WaitOutcome::Stopped), Some(1));
    assert!(core.jobs.entries[0].state == sush::shell::jobs::JobState::Stopped);
    assert_eq!(core.jobs.note(10, WaitOutcome::Signaled(9)), Some(1));
    assert!(core.jobs.entries[0].state == sush::shell::jobs::JobState::Done);
    assert_eq!(core.jobs.note(99, WaitOutcome::Exited(0)), None);
    core.jobs.remove_done();
    assert_eq!(core.jobs.entries.len(), 1);
    assert_eq!(core.jobs.entries[0].id, 2);
    assert_eq!(core.jobs.add(vec![], "d &"), 3);
    core.enter_subshell();
    assert_eq!(core.jobs.entries.len(), 0);
    assert_eq!(core.jobs.next_id, 4);
}
