use sush::feeder::terminal::completion::common_length;
use sush::feeder::terminal::completion::common_string;
use sush::feeder::terminal::completion::lay_out;
use sush::feeder::terminal::completion::replace_prefix;
use sush::feeder::terminal::completion::show_list;
use sush::feeder::terminal::completion::split_words;
use sush::feeder::terminal::Terminal;
use sush::shell::ShellCore;
use sush::utils::file_check::file_exists;
use sush::utils::file_check::is_dir;
use sush::utils::file_check::is_executable;
use sush::utils::file_check::is_readable;
use sush::utils::file_check::is_regular_file;
use sush::utils::file_check::is_symlink;
use sush::utils::file_check::is_tty;
use sush::utils::file_check::is_writable;
use sush::utils::file_check::metadata_check;
use sush::utils::file_check::metadata_comp;
use sush::utils::file_check::FileStat;
use sush::utils::file_check::Timestamp;
use sush::utils::glob::le;
use sush::utils::glob::sort_paths;

fn stat() -> FileStat {
    FileStat {
        is_file: true,
        is_dir: false,
        is_symlink: false,
        is_block_device: false,
        is_char_device: false,
        is_fifo: false,
        is_socket: false,
        readable: true,
        writable: false,
        executable: false,
        size: 0,
        mode: 0o644,
        uid: 1000,
        gid: 100,
        dev: 1,
        ino: 2,
        modified: Some(Timestamp { secs: 10, nanos: 5 }),
        accessed: Some(Timestamp { secs: 10, nanos: 5 }),
    }
}

fn strings(v: &[&str]) -> Vec<String> {
    v.iter().map(|s| s.to_string()).collect()
}

#[test]
fn simple_file_checks() {
    let s = Some(stat());
    assert!(file_exists(&s));
    assert!(is_regular_file(&s));
    assert!(!is_dir(&s));
    assert!(!is_symlink(&s));
    assert!(is_readable(&s));
    assert!(!is_writable(&s));
    assert!(!is_executable(&s));
    assert!(!file_exists(&None));
    assert!(!is_regular_file(&None));
    assert!(!is_readable(&None));
}

#[test]
fn a_file_has_a_size_where_it_is_not_empty() {
    let mut s = stat();
    assert!(!metadata_check(&Some(s), "-s", 0, 0));
    s.size = 1;
    assert!(metadata_check(&Some(s), "-s", 0, 0));
    assert!(!metadata_check(&None, "-s", 0, 0));
}

#[test]
fn checks_on_owner_kind_and_mode() {
    let mut s = stat();
    assert!(metadata_check(&Some(s), "-O", 1000, 0));
    assert!(!metadata_check(&Some(s), "-O", 1, 0));
    assert!(metadata_check(&Some(s), "-G", 0, 100));
    assert!(!metadata_check(&Some(s), "-N", 0, 0));
    s.modified = Some(Timestamp { secs: 10, nanos: 6 });
    assert!(metadata_check(&Some(s), "-N", 0, 0));
    s.accessed = None;
    assert!(!metadata_check(&Some(s), "-N", 0, 0));
    assert!(!metadata_check(&Some(s), "-b", 0, 0));
    s.is_block_device = true;
    s.is_char_device = true;
    s.is_fifo = true;
    s.is_socket = true;
    for tp in ["-b", "-c", "-p", "-S"] {
        assert!(metadata_check(&Some(s), tp, 0, 0));
    }
    for (mode, g, k, u) in [(0o644, false, false, false), (0o1644, false, true, false),
        (0o2644, true, false, false), (0o4644, false, false, true), (0o7777, true, true, true)] {
        s.mode = mode;
        assert_eq!(metadata_check(&Some(s), "-g", 0, 0), g);
        assert_eq!(metadata_check(&Some(s), "-k", 0, 0), k);
        assert_eq!(metadata_check(&Some(s), "-u", 0, 0), u);
    }
    assert!(!metadata_check(&Some(s), "-?", 0, 0));
}

#[test]
fn comparisons_of_two_files() {
    let a = stat();
    let mut b = stat();
    assert!(metadata_comp(&Some(a), &Some(b), "-ef"));
    b.ino = 3;
    assert!(!metadata_comp(&Some(a), &Some(b), "-ef"));
    assert!(!metadata_comp(&Some(a), &Some(b), "-nt"));
    b.modified = Some(Timestamp { secs: 9, nanos: 999 });
    assert!(metadata_comp(&Some(a), &Some(b), "-nt"));
    assert!(!metadata_comp(&Some(a), &Some(b), "-ot"));
    assert!(metadata_comp(&Some(b), &Some(a), "-ot"));
    assert!(metadata_comp(&Some(a), &None, "-nt"));
    assert!(!metadata_comp(&Some(a), &None, "-ef"));
    assert!(!metadata_comp(&None, &Some(b), "-nt"));
    assert!(metadata_comp(&None, &Some(b), "-ot"));
    assert!(!metadata_comp(&None, &None, "-ot"));
}

#[test]
fn the_operand_of_the_terminal_test_is_a_file_descriptor() {
    assert_eq!(is_tty("0"), Some(0));
    assert_eq!(is_tty("12"), Some(12));
    assert_eq!(is_tty("x"), None);
    assert_eq!(is_tty(""), None);
    assert_eq!(is_tty("-1"), None);
}

#[test]
fn paths_are_sorted_as_in_a_dictionary() {
    let a: Vec<char> = "abc".chars().collect();
    let b: Vec<char> = "abd".chars().collect();
    let c: Vec<char> = "ab".chars().collect();
    assert!(le(&a, &b));
    assert!(!le(&b, &a));
    assert!(le(&c, &a));
    assert!(le(&a, &a));
    assert_eq!(
        sort_paths(&strings(&["b", "a", "", "ab", "B", "a"])),
        strings(&["", "B", "a", "a", "ab", "b"])
    );
    assert_eq!(sort_paths(&vec![]), Vec::<String>::new());
}

#[test]
fn the_common_beginning_of_paths() {
    let a: Vec<char> = "abcd".chars().collect();
    assert_eq!(common_length(&a, &"abxd".to_string()), 2);
    assert_eq!(common_length(&a, &"abcdef".to_string()), 4);
    assert_eq!(common_length(&a, &"".to_string()), 0);
    assert_eq!(common_string(&strings(&["src/main.rs", "src/mod.rs", "src/m"])), "src/m");
    assert_eq!(common_string(&strings(&["abc"])), "abc");
    assert_eq!(common_string(&strings(&["abc", "xyz"])), "");
    assert_eq!(common_string(&vec![]), "");
}

#[test]
fn lists_are_laid_out_in_columns() {
    let list = strings(&["a", "bb", "ccc", "d", "e"]);
    let widths = vec![1, 2, 3, 1, 1];
    assert_eq!(
        lay_out(&list, &widths, 9),
        strings(&["a   d   ", "bb  e   ", "ccc "])
    );
    assert_eq!(lay_out(&list, &widths, 3), list);
    assert_eq!(
        lay_out(&list, &widths, 4),
        strings(&["a   ", "bb  ", "ccc ", "d   ", "e   "])
    );
    assert_eq!(lay_out(&list, &widths, 100), strings(&["a   bb  ccc d   e   "]));
    assert_eq!(lay_out(&vec![], &vec![], 80), Vec::<String>::new());
    assert_eq!(lay_out(&strings(&["x"]), &vec![usize::MAX], 80), strings(&["x"]));
}

#[test]
fn show_list_counts_columns_not_characters() {
    let list = strings(&["日本", "a"]);
    assert_eq!(show_list(&list, 10), strings(&["日本 a    "]));
    assert_eq!(show_list(&list, 5), strings(&["日本 ", "a    "]));
}

#[test]
fn a_prefix_is_replaced_only_at_the_beginning() {
    assert_eq!(replace_prefix("/home/u/x", "/home/u/", "~/"), "~/x");
    assert_eq!(replace_prefix("/x/home/u/", "/home/u/", "~/"), "/x/home/u/");
    assert_eq!(replace_prefix("abc", "", "~/"), "abc");
}

#[test]
fn a_line_is_cut_into_words_at_its_spaces() {
    let line: Vec<char> = "$ a=1  ls x".chars().collect();
    let words: Vec<String> = split_words(&line, 2).iter().map(|w| w.iter().collect()).collect();
    assert_eq!(words, strings(&["a=1", "", "ls", "x"]));
    let words = split_words(&line, 11);
    assert_eq!(words.len(), 1);
    assert_eq!(words[0].len(), 0);
}

fn terminal(line: &str) -> Terminal {
    Terminal {
        prompt: "$ ".to_string(),
        chars: format!("$ {}", line).chars().collect(),
        head: line.chars().count() + 2,
        tilde_prefix: String::new(),
        tilde_path: String::new(),
    }
}

#[test]
fn completion_finds_the_word_to_complete() {
    let mut core = ShellCore::new();
    core.set_var("HOME", "/home/u");
    let mut t = terminal("A=1 ec");
    let target = t.completion_target(&core).unwrap();
    assert_eq!(target.last, "ec");
    assert_eq!(target.search, "ec");
    assert!(target.command);
    let mut t = terminal("ls ~/do");
    let target = t.completion_target(&core).unwrap();
    assert_eq!(target.last, "~/do");
    assert_eq!(target.search, "/home/u/do");
    assert!(!target.command);
    assert_eq!(t.tilde_prefix, "~/");
    assert_eq!(t.tilde_path, "/home/u/");
    let mut t = terminal("ls ");
    assert!(t.completion_target(&core).is_none());
    assert_eq!(t.get_string(2), "ls ");
}

#[test]
fn completion_replaces_the_word() {
    let mut core = ShellCore::new();
    core.set_var("HOME", "/home/u");
    let mut t = terminal("ls ~/do");
    let _ = t.completion_target(&core).unwrap();
    let shown = t.completion(&strings(&["/home/u/docs"]), true, "~/do", true);
    assert_eq!(shown, strings(&["~/docs"]));
    assert_eq!(t.chars.iter().collect::<String>(), "$ ls ~/docs/");
    assert_eq!(t.head, 12);
    let mut t = terminal("cat ./ma");
    let _ = t.completion_target(&core).unwrap();
    let shown = t.completion(&strings(&["main.rs", "make.sh"]), false, "./ma", false);
    assert!(shown.is_empty());
    assert_eq!(t.chars.iter().collect::<String>(), "$ cat ./ma");
    let mut t = terminal("ec");
    let _ = t.completion_target(&core).unwrap();
    t.completion(&strings(&["echo"]), false, "ec", false);
    assert_eq!(t.chars.iter().collect::<String>(), "$ echo ");
    let mut t = terminal("zz");
    t.replace_input(&"abc".to_string(), "zz");
    assert_eq!(t.chars.iter().collect::<String>(), "$ abc");
}
