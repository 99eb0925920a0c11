use sush::elements::command::test_command::TestCommand;
use sush::elements::command::Command;
use sush::elements::expr::conditional::binary;
use sush::elements::expr::conditional::unary;
use sush::elements::expr::conditional::CondElem;
use sush::elements::expr::conditional::ConditionalExpr;
use sush::elements::expr::conditional::FileFacts;
use sush::feeder::Feeder;
use sush::shell::ShellCore;
use sush::utils::file_check::FileStat;
use sush::utils::glob::pattern_matches;

fn file(readable: bool) -> FileStat {
    FileStat {
        is_file: true,
        is_dir: false,
        is_symlink: false,
        is_block_device: false,
        is_char_device: false,
        is_fifo: false,
        is_socket: false,
        readable,
        writable: false,
        executable: false,
        size: 12,
        mode: 0o644,
        uid: 0,
        gid: 0,
        dev: 1,
        ino: 7,
        modified: None,
        accessed: None,
    }
}

fn facts() -> FileFacts {
    let mut dir = file(true);
    dir.is_file = false;
    dir.is_dir = true;
    dir.executable = true;
    FileFacts {
        files: vec![
            ("/etc/hostname".to_string(), file(true)),
            ("/etc/shadow".to_string(), file(false)),
            ("/tmp".to_string(), dir),
        ],
        terminals: vec![0, 1],
        uid: 0,
        gid: 5,
    }
}

fn test(text: &str, core: &mut ShellCore) -> (Option<String>, String) {
    let mut feeder = Feeder::new(text);
    let c = TestCommand::parse(&mut feeder, core).unwrap();
    assert_eq!(c.text, text);
    let msg = c.run(core, &facts());
    (msg, core.get_var("?"))
}

fn status(text: &str) -> String {
    let mut core = ShellCore::new();
    let (msg, status) = test(text, &mut core);
    assert_eq!(msg, None, "{}", text);
    status
}

#[test]
fn patterns_match_whole_texts() {
    assert!(pattern_matches("", ""));
    assert!(!pattern_matches("", "a"));
    assert!(pattern_matches("*", ""));
    assert!(pattern_matches("*", "abc"));
    assert!(pattern_matches("a*c", "abbbc"));
    assert!(pattern_matches("a*c", "ac"));
    assert!(!pattern_matches("a*c", "abcd"));
    assert!(pattern_matches("*.rs", "main.rs"));
    assert!(!pattern_matches("*.rs", "main.rc"));
    assert!(pattern_matches("a?c", "abc"));
    assert!(!pattern_matches("a?c", "ac"));
    assert!(pattern_matches("a\\*c", "a*c"));
    assert!(!pattern_matches("a\\*c", "abc"));
    assert!(pattern_matches("[abc]x", "bx"));
    assert!(!pattern_matches("[abc]x", "dx"));
    assert!(pattern_matches("[a-c0-9]", "7"));
    assert!(pattern_matches("[a-c0-9]", "b"));
    assert!(!pattern_matches("[a-c0-9]", "d"));
    assert!(pattern_matches("[!a-c]", "d"));
    assert!(!pattern_matches("[^a-c]", "a"));
    assert!(pattern_matches("[]]", "]"));
    assert!(pattern_matches("[a", "[a"));
    assert!(pattern_matches("[a-]", "-"));
    assert!(pattern_matches("*a*b*", "xxaxxbxx"));
    assert!(!pattern_matches("*a*b*", "xxbxxaxx"));
}

#[test]
fn tests_on_one_operand() {
    let core = ShellCore::new();
    let f = facts();
    assert!(unary("-z", "", &f, &core));
    assert!(!unary("-z", "a", &f, &core));
    assert!(unary("-n", "a", &f, &core));
    assert!(unary("-v", "?", &f, &core));
    assert!(!unary("-v", "nothing", &f, &core));
    assert!(unary("-e", "/etc/hostname", &f, &core));
    assert!(unary("-a", "/tmp", &f, &core));
    assert!(!unary("-e", "/nowhere", &f, &core));
    assert!(unary("-f", "/etc/hostname", &f, &core));
    assert!(!unary("-f", "/tmp", &f, &core));
    assert!(unary("-d", "/tmp", &f, &core));
    assert!(unary("-r", "/etc/hostname", &f, &core));
    assert!(!unary("-r", "/etc/shadow", &f, &core));
    assert!(!unary("-w", "/etc/hostname", &f, &core));
    assert!(unary("-x", "/tmp", &f, &core));
    assert!(!unary("-L", "/tmp", &f, &core));
    assert!(unary("-s", "/etc/hostname", &f, &core));
    assert!(unary("-O", "/etc/hostname", &f, &core));
    assert!(!unary("-G", "/etc/hostname", &f, &core));
    assert!(unary("-t", "1", &f, &core));
    assert!(!unary("-t", "2", &f, &core));
    assert!(!unary("-t", "x", &f, &core));
    assert!(!unary("-q", "/tmp", &f, &core));
}

#[test]
fn tests_on_two_operands() {
    let f = facts();
    assert_eq!(binary("==", "main.rs", "*.rs", &f), Ok(true));
    assert_eq!(binary("=", "main.rs", "main", &f), Ok(false));
    assert_eq!(binary("!=", "main.rs", "*.c", &f), Ok(true));
    assert_eq!(binary("<", "a", "b", &f), Ok(true));
    assert_eq!(binary("<", "a", "a", &f), Ok(false));
    assert_eq!(binary(">", "b", "a", &f), Ok(true));
    assert_eq!(binary("-eq", "10", "0xa", &f), Ok(true));
    assert_eq!(binary("-ne", "1", "2", &f), Ok(true));
    assert_eq!(binary("-lt", "-1", "0", &f), Ok(true));
    assert_eq!(binary("-le", "1", "1", &f), Ok(true));
    assert_eq!(binary("-gt", "1", "1", &f), Ok(false));
    assert_eq!(binary("-ge", "2", "1", &f), Ok(true));
    assert_eq!(
        binary("-eq", "x", "1", &f),
        Err("x: integer expression expected".to_string())
    );
    assert_eq!(
        binary("-eq", "1", "y", &f),
        Err("y: integer expression expected".to_string())
    );
    assert_eq!(binary("-ef", "/etc/hostname", "/etc/shadow", &f), Ok(true));
    assert_eq!(binary("-nt", "/etc/hostname", "/nowhere", &f), Ok(true));
    assert_eq!(binary("-ot", "/nowhere", "/tmp", &f), Ok(true));
    assert_eq!(
        binary("=~", "a", "a", &f),
        Err("regular expressions are not supported".to_string())
    );
    assert_eq!(binary("-xx", "a", "a", &f), Err("-xx: unknown operator".to_string()));
}

#[test]
fn the_test_command_sets_the_status() {
    assert_eq!(status("[[ -f /etc/hostname && -r /etc/hostname ]]"), "0");
    assert_eq!(status("[[ -f /etc/shadow && -r /etc/shadow ]]"), "1");
    assert_eq!(status("[[ -f /nowhere || -d /tmp ]]"), "0");
    assert_eq!(status("[[ ! -f /nowhere ]]"), "0");
    assert_eq!(status("[[ ! ! -f /nowhere ]]"), "1");
    assert_eq!(status("[[ ( -f /nowhere || -d /tmp ) && abc ]]"), "0");
    assert_eq!(status("[[ -f /nowhere || -d /tmp && -z x ]]"), "1");
    assert_eq!(status("[[ abc == a* ]]"), "0");
    assert_eq!(status("[[ abc != a* ]]"), "1");
    assert_eq!(status("[[ \"\" ]]"), "1");
    assert_eq!(status("[[ x ]]"), "0");
    assert_eq!(status("[[ 3 -lt 10 ]]"), "0");
    assert_eq!(status("[[ 3 < 10 ]]"), "1");
    assert_eq!(status("[[\n-n a\n]]"), "0");
}

#[test]
fn the_test_command_expands_its_operands() {
    let mut core = ShellCore::new();
    core.set_var("f", "/etc/hostname");
    core.set_var("n", "4");
    assert_eq!(test("[[ -f $f ]]", &mut core), (None, "0".to_string()));
    assert_eq!(test("[[ $((n+1)) -eq 5 ]]", &mut core), (None, "0".to_string()));
    assert_eq!(test("[[ \"$f\" == /etc/* ]] > out", &mut core), (None, "0".to_string()));
    assert_eq!(test("[[ -z $nothing ]]", &mut core), (None, "0".to_string()));
}

#[test]
fn errors_of_the_test_command_give_status_two() {
    let mut core = ShellCore::new();
    assert_eq!(
        test("[[ a -eq 1 ]]", &mut core),
        (Some("a: integer expression expected".to_string()), "2".to_string())
    );
    assert_eq!(
        test("[[ ( a ]]", &mut core),
        (Some("syntax error in conditional expression".to_string()), "2".to_string())
    );
    assert_eq!(
        test("[[ a == ]]", &mut core),
        (Some("syntax error in conditional expression".to_string()), "2".to_string())
    );
    assert_eq!(
        test("[[ a b ]]", &mut core),
        (Some("syntax error in conditional expression".to_string()), "2".to_string())
    );
    assert_eq!(
        test("[[ $((1/0)) ]]", &mut core),
        (Some(" $((1/0)) : wrong substitution".to_string()), "2".to_string())
    );
}

#[test]
fn what_is_no_test_command_is_not_parsed() {
    let mut core = ShellCore::new();
    for text in ["[[ ]]", "[[ a", "[[a ]]", "[ a ]", "[[ a ]"] {
        let mut feeder = Feeder::new(text);
        assert!(TestCommand::parse(&mut feeder, &mut core).is_none(), "{}", text);
        assert_eq!(feeder.pos, 0);
    }
    let mut feeder = Feeder::new("[[ a ]] && b");
    assert!(matches!(Command::parse(&mut feeder, &mut core), Some(Command::Test(_))));
}

#[test]
fn the_operands_are_what_the_caller_asks_about() {
    let mut core = ShellCore::new();
    core.set_var("f", "/a b");
    let mut feeder = Feeder::new(" -f $f && x -nt 'y z' ]]");
    let c = ConditionalExpr::parse(&mut feeder, &mut core).unwrap();
    assert_eq!(c.elements.len(), 6);
    let e = c.resolve(&mut core).unwrap();
    assert!(matches!(&e[1], CondElem::Operand(s) if s == "/a b"));
    assert_eq!(ConditionalExpr::operands(&e), vec!["/a b", "x", "y z"]);
}
