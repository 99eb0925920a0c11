use sush::feeder::scanner::CharClass;
use sush::feeder::Feeder;
use sush::shell::ShellCore;

#[test]
fn the_first_line_is_handed_over_first() {
    let mut core = ShellCore::new();
    let mut f = Feeder::new("echo a\necho b\n");
    assert_eq!(f.len(), 7);
    assert!(f.starts_with("echo a\n"));
    assert_eq!(f.consume(7), "echo a\n");
    assert_eq!(f.len(), 0);
    assert!(f.feed_additional_line(&mut core));
    assert_eq!(f.refer(4), "echo");
    assert_eq!(f.consume(7), "echo b\n");
    assert!(!f.feed_additional_line(&mut core));
    assert_eq!(f.len(), 0);
}

#[test]
fn rewind_goes_back_to_the_saved_position() {
    let mut core = ShellCore::new();
    let mut f = Feeder::new("ab\ncd");
    f.set_backup();
    f.consume(3);
    assert!(f.feed_additional_line(&mut core));
    f.consume(1);
    f.set_backup();
    f.consume(1);
    f.rewind();
    assert_eq!(f.refer(1), "d");
    f.rewind();
    assert_eq!(f.len(), 3);
    assert_eq!(f.refer(3), "ab\n");
    assert_eq!(f.backups.len(), 0);
}

#[test]
fn pop_backup_keeps_the_position() {
    let mut f = Feeder::new("abc");
    f.set_backup();
    f.consume(2);
    f.pop_backup();
    assert_eq!(f.refer(1), "c");
    assert_eq!(f.backups.len(), 0);
}

#[test]
fn add_input_is_not_seen_until_it_is_fed() {
    let mut core = ShellCore::new();
    let mut f = Feeder::new("a\n");
    f.consume(2);
    assert!(!f.feed_additional_line(&mut core));
    f.add_input("b\n");
    assert_eq!(f.len(), 0);
    assert!(f.feed_additional_line(&mut core));
    assert_eq!(f.consume(2), "b\n");
}

#[test]
fn scanners_measure_the_piece_at_the_start() {
    let core = ShellCore::new();
    assert_eq!(Feeder::new("abc_1 x").scanner_name(&core), 5);
    assert_eq!(Feeder::new("_x").scanner_name(&core), 2);
    assert_eq!(Feeder::new("1abc").scanner_name(&core), 0);
    assert_eq!(Feeder::new("123a").scanner_nonnegative_integer(&core), 3);
    assert_eq!(Feeder::new("a123").scanner_nonnegative_integer(&core), 0);
    assert_eq!(Feeder::new(" \t x").scanner_blank(&core), 3);
    assert_eq!(Feeder::new(" \t\n x").scanner_blank(&core), 2);
    assert_eq!(Feeder::new("# hi\nx").scanner_comment(), 4);
    assert_eq!(Feeder::new("x # hi").scanner_comment(), 0);
    assert_eq!(Feeder::new("ab;c").scanner_word(&core), 2);
    assert_eq!(Feeder::new("\\ab").scanner_escaped_char(&core), 2);
    assert_eq!(Feeder::new("\\").scanner_escaped_char(&core), 0);
    assert_eq!(Feeder::new("'a b'c").scanner_single_quoted_subword(&core), 5);
    assert_eq!(Feeder::new("''").scanner_single_quoted_subword(&core), 2);
    assert_eq!(Feeder::new("'a b").scanner_single_quoted_subword(&core), 0);
    assert_eq!(Feeder::new("{a").scanner_subword_symbol(), 1);
    assert_eq!(Feeder::new("a{").scanner_subword_symbol(), 0);
    assert_eq!(Feeder::new("ab{c").scanner_unquoted_subword(), 2);
    assert_eq!(Feeder::new("a b").scan_while(0, CharClass::InWord), 1);
}

#[test]
fn multiline_blank_stays_inside_what_was_fed() {
    let core = ShellCore::new();
    let f = Feeder::new(" \n x");
    assert_eq!(f.scanner_multiline_blank(&core), 2);
}

#[test]
fn operator_scanners_take_the_longest_operator() {
    let core = ShellCore::new();
    assert_eq!(Feeder::new("<<=1").scanner_binary_operator(&core), 3);
    assert_eq!(Feeder::new("<<1").scanner_binary_operator(&core), 2);
    assert_eq!(Feeder::new("<1").scanner_binary_operator(&core), 1);
    assert_eq!(Feeder::new("**2").scanner_binary_operator(&core), 2);
    assert_eq!(Feeder::new("a").scanner_binary_operator(&core), 0);
    assert_eq!(Feeder::new("!x").scanner_unary_operator(&core), 1);
    assert_eq!(Feeder::new("&>>f").scanner_redirect_symbol(&core), 3);
    assert_eq!(Feeder::new(">>f").scanner_redirect_symbol(&core), 2);
    assert_eq!(Feeder::new(">&2").scanner_redirect_symbol(&core), 2);
    assert_eq!(Feeder::new("<f").scanner_redirect_symbol(&core), 1);
    assert_eq!(Feeder::new("&& x").scanner_and_or(&core), 2);
    assert_eq!(Feeder::new("& x").scanner_and_or(&core), 0);
    assert_eq!(Feeder::new("; x").scanner_job_end(), 1);
    assert_eq!(Feeder::new("-f x").scanner_test_file_check_option(&core), 2);
    assert_eq!(Feeder::new("-q x").scanner_test_file_check_option(&core), 0);
}

#[test]
fn keywords_end_where_the_word_ends() {
    assert!(Feeder::new("if true").starts_with_keyword("if"));
    assert!(Feeder::new("if").starts_with_keyword("if"));
    assert!(Feeder::new("if;").starts_with_keyword("if"));
    assert!(!Feeder::new("ifconfig").starts_with_keyword("if"));
    assert!(!Feeder::new("i").starts_with_keyword("if"));
}
