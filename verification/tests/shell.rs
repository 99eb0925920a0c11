use sush::shell::builtins::cd;
use sush::shell::builtins::cd_done;
use sush::shell::builtins::exit;
use sush::shell::builtins::CdPlan;
use sush::shell::table::VarTable;
use sush::shell::ShellCore;
use sush::shell::WaitOutcome;

fn strings(v: &[&str]) -> Vec<String> {
    v.iter().map(|s| s.to_string()).collect()
}

#[test]
fn a_new_shell_has_status_zero_and_two_builtins() {
    let core = ShellCore::new();
    assert_eq!(core.get_var("?"), "0");
    assert!(core.is_builtin("cd"));
    assert!(core.is_builtin("exit"));
    assert!(!core.is_builtin("ls"));
    assert_eq!(core.history.len(), 0);
    assert_eq!(core.get_var("BASH_SUBSHELL"), "0");
}

#[test]
fn set_var_then_get_var() {
    let mut core = ShellCore::new();
    assert_eq!(core.get_var("a"), "");
    assert_eq!(core.get_var_ref("a"), "");
    assert!(!core.is_set("a"));
    core.set_var("a", "1");
    core.set_var("b", "2");
    core.set_var("a", "3");
    assert_eq!(core.get_var("a"), "3");
    assert_eq!(core.get_var_ref("b"), "2");
    assert!(core.is_set("a"));
    assert_eq!(core.vars.entries.len(), 3);
}

#[test]
fn the_innermost_frame_that_knows_a_name_wins() {
    let mut core = ShellCore::new();
    core.set_var("x", "global");
    let mut outer = VarTable::new();
    outer.set("x", "outer");
    core.locals.push(outer);
    core.locals.push(VarTable::new());
    assert_eq!(core.get_var("x"), "outer");
    core.set_var("x", "changed");
    assert_eq!(core.locals[0].get("x"), Some("changed"));
    assert_eq!(core.vars.get("x"), Some("global"));
    core.set_var("y", "new");
    assert_eq!(core.vars.get("y"), Some("new"));
    core.environment.set("HOME", "/home/u");
    assert_eq!(core.get_var("HOME"), "/home/u");
}

#[test]
fn special_parameters() {
    let mut core = ShellCore::new();
    assert_eq!(core.get_var("#"), "0");
    assert_eq!(core.get_var("@"), "");
    assert_eq!(core.get_var("1"), "");
    core.params = strings(&["sush", "a", "b c", "d"]);
    assert_eq!(core.get_var("#"), "3");
    assert_eq!(core.get_var("0"), "sush");
    assert_eq!(core.get_var("2"), "b c");
    assert_eq!(core.get_var("9"), "");
    assert_eq!(core.get_var("@"), "a b c d");
    assert_eq!(core.get_var("*"), "a b c d");
    core.set_var("IFS", ":,");
    assert_eq!(core.get_var("*"), "a:b c:d");
    assert_eq!(core.get_var("@"), "a b c d");
    core.set_var("IFS", "");
    assert_eq!(core.get_var("*"), "ab cd");
}

#[test]
fn wait_process_notes_the_exit_status() {
    let mut core = ShellCore::new();
    assert_eq!(core.wait_process(WaitOutcome::Exited(7)), 7);
    assert_eq!(core.get_var("?"), "7");
    assert!(!core.sigint);
    assert_eq!(core.wait_process(WaitOutcome::Signaled(9)), 137);
    assert_eq!(core.get_var("?"), "137");
    assert!(!core.sigint);
    assert_eq!(core.wait_process(WaitOutcome::Signaled(2)), 130);
    assert!(core.sigint);
    assert_eq!(core.wait_process(WaitOutcome::Stopped), 1);
    assert_eq!(core.wait_process(WaitOutcome::Other), 1);
    assert_eq!(core.wait_process(WaitOutcome::Signaled(1000)), 255);
}

#[test]
fn pipestatus_has_one_status_for_each_command() {
    let mut core = ShellCore::new();
    assert_eq!(core.set_pipestatus(&vec![0, 0], false), 0);
    assert_eq!(core.pipestatus, vec![0, 0]);
    assert_eq!(core.get_var("?"), "0");
    assert_eq!(core.set_pipestatus(&vec![1, 0, 3], false), 3);
    assert_eq!(core.pipestatus.len(), 3);
    assert_eq!(core.set_pipestatus(&vec![2, 0], false), 0);
    assert_eq!(core.set_pipestatus(&vec![2, 0], true), 1);
    assert_eq!(core.get_var("?"), "1");
    core.pipefail = true;
    assert_eq!(core.set_pipestatus(&vec![2, 5, 0, 0], false), 5);
    assert_eq!(core.set_pipestatus(&vec![0, 0], false), 0);
    assert_eq!(core.set_pipestatus(&vec![], false), 0);
}

#[test]
fn run_builtin_notes_the_status_of_a_builtin_only() {
    let mut core = ShellCore::new();
    let mut args = strings(&["cd", "/"]);
    assert!(core.run_builtin(&mut args, 1));
    assert_eq!(core.get_var("?"), "1");
    let mut args = strings(&["ls"]);
    assert!(!core.run_builtin(&mut args, 5));
    assert_eq!(core.get_var("?"), "1");
    assert_eq!(args, strings(&["ls"]));
}

#[test]
fn subshells_count_their_depth() {
    let mut core = ShellCore::new();
    core.enter_subshell();
    assert_eq!(core.get_var("BASH_SUBSHELL"), "1");
    core.enter_subshell();
    core.enter_subshell();
    assert_eq!(core.get_var("BASH_SUBSHELL"), "3");
    core.subshell_level = u64::MAX;
    core.enter_subshell();
    assert_eq!(core.subshell_level, u64::MAX);
}

#[test]
fn cd_works_out_where_to_go() {
    let mut core = ShellCore::new();
    let mut args = strings(&["cd", "/tmp"]);
    match cd(&mut core, &mut args, Some("/home/u")) {
        CdPlan::ChangeTo(p) => assert_eq!(p, "/tmp"),
        CdPlan::Refuse(m) => panic!("{}", m),
    }
    assert_eq!(core.get_var("OLDPWD"), "/home/u");
    assert_eq!(cd_done(&mut core, true, Some("/tmp")), 0);
    assert_eq!(core.get_var("PWD"), "/tmp");
    let mut args = strings(&["cd", "-"]);
    match cd(&mut core, &mut args, None) {
        CdPlan::ChangeTo(p) => assert_eq!(p, "/home/u"),
        CdPlan::Refuse(m) => panic!("{}", m),
    }
    assert_eq!(cd_done(&mut core, false, None), 1);
    assert_eq!(core.get_var("PWD"), "/tmp");
}

#[test]
fn cd_refuses_what_it_cannot_do() {
    let mut core = ShellCore::new();
    let mut args = strings(&["cd", "a", "b"]);
    match cd(&mut core, &mut args, Some("/x")) {
        CdPlan::Refuse(m) => assert_eq!(m, "bash: cd: too many arguments"),
        CdPlan::ChangeTo(_) => panic!("no refusal"),
    }
    assert_eq!(core.get_var("OLDPWD"), "");
    let mut args = strings(&["cd"]);
    match cd(&mut core, &mut args, None) {
        CdPlan::Refuse(m) => assert_eq!(m, "HOME is not defined"),
        CdPlan::ChangeTo(_) => panic!("no refusal"),
    }
    core.set_var("HOME", "/home/u");
    match cd(&mut core, &mut args, None) {
        CdPlan::ChangeTo(p) => assert_eq!(p, "/home/u"),
        CdPlan::Refuse(m) => panic!("{}", m),
    }
    let mut args = strings(&[]);
    match cd(&mut core, &mut args, None) {
        CdPlan::Refuse(m) => assert_eq!(m, "Bug of this shell"),
        CdPlan::ChangeTo(_) => panic!("no refusal"),
    }
    let mut args = strings(&["cd", "-"]);
    let mut fresh = ShellCore::new();
    match cd(&mut fresh, &mut args, None) {
        CdPlan::ChangeTo(p) => assert_eq!(p, "-"),
        CdPlan::Refuse(m) => panic!("{}", m),
    }
}

#[test]
fn exit_takes_the_status_modulo_256() {
    let mut core = ShellCore::new();
    assert_eq!(exit(&mut core, &mut strings(&["exit"])), 0);
    assert_eq!(exit(&mut core, &mut strings(&["exit", "7"])), 7);
    assert_eq!(core.get_var("?"), "7");
    assert_eq!(exit(&mut core, &mut strings(&["exit"])), 7);
    assert_eq!(exit(&mut core, &mut strings(&["exit", "256"])), 0);
    assert_eq!(exit(&mut core, &mut strings(&["exit", "300"])), 44);
    assert_eq!(exit(&mut core, &mut strings(&["exit", "-1"])), 255);
    assert_eq!(exit(&mut core, &mut strings(&["exit", "abc"])), 2);
    assert_eq!(exit(&mut core, &mut strings(&["exit", ""])), 2);
}

#[test]
fn local_variables_live_in_the_frame_of_their_function() {
    let mut core = ShellCore::new();
    core.set_var("x", "global");
    core.set_local("g", "1");
    assert_eq!(core.vars.get("g"), Some("1"));
    core.push_frame();
    core.set_local("x", "local");
    assert_eq!(core.get_var("x"), "local");
    core.set_var("x", "changed");
    assert_eq!(core.get_var("x"), "changed");
    core.pop_frame();
    assert_eq!(core.get_var("x"), "global");
    core.pop_frame();
    assert_eq!(core.locals.len(), 0);
}

#[test]
fn children_find_the_exported_variables() {
    let mut core = ShellCore::new();
    core.set_var("A", "1");
    core.set_var("PWD", "/tmp");
    core.set_var("SHLVL", "2");
    core.export("A");
    core.export("B");
    core.export("A");
    assert_eq!(core.exported, strings(&["A", "B"]));
    let env = core.child_environment();
    let expected: Vec<(String, String)> = [
        ("A", "1"),
        ("B", ""),
        ("$", ""),
        ("PPID", ""),
        ("PWD", "/tmp"),
        ("OLDPWD", ""),
        ("SHLVL", "3"),
    ]
    .iter()
    .map(|(k, v)| (k.to_string(), v.to_string()))
    .collect();
    assert_eq!(env, expected);
    core.set_var("SHLVL", "x");
    assert_eq!(core.child_environment()[6].1, "1");
}
