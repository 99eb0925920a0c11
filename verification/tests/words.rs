use sush::elem_arg::Arg;
use sush::elem_arg::ArgDelimiter;
use sush::elem_arg::ElemOfCommand;
use sush::elements::subword::Subword;
use sush::elements::word::brace_expansion;
use sush::elements::word::parameter_expansion;
use sush::elements::word::parameter_expansion::param_name;
use sush::elements::word::parameter_expansion::special_param;
use sush::elements::word::scanner::name;
use sush::elements::word::tilde_expansion;
use sush::elements::word::Word;
use sush::feeder::Feeder;
use sush::shell::ShellCore;

fn word(text: &str) -> Word {
    let mut core = ShellCore::new();
    let mut feeder = Feeder::new(text);
    Word::parse(&mut feeder, &mut core).unwrap()
}

fn expand(text: &str, core: &mut ShellCore) -> Option<Vec<String>> {
    let mut feeder = Feeder::new(text);
    let mut w = Word::parse(&mut feeder, core).unwrap();
    w.eval(core)
}

fn fields(text: &str) -> Vec<String> {
    let mut core = ShellCore::new();
    expand(text, &mut core).unwrap()
}

fn texts(w: &Word) -> Vec<String> {
    w.subwords.iter().map(|s| s.text()).collect()
}

#[test]
fn a_word_is_cut_into_subwords() {
    let w = word("a{b,c}$d'e f'\\g rest");
    assert_eq!(w.text, "a{b,c}$d'e f'\\g");
    assert_eq!(
        texts(&w),
        vec!["a", "{", "b", ",", "c", "}", "$", "d", "'e f'", "\\g"]
    );
    assert!(matches!(w.subwords[8], Subword::SingleQuoted(_)));
    assert!(matches!(w.subwords[0], Subword::Unquoted(_)));
}

#[test]
fn the_text_of_a_word_is_what_was_consumed() {
    let mut core = ShellCore::new();
    for text in ["abc def", "\"a $b\"c;", "${x}y z", "$((1 + 2))z|", "~/a/b c"] {
        let mut feeder = Feeder::new(text);
        let before = feeder.pos;
        let w = Word::parse(&mut feeder, &mut core).unwrap();
        let consumed: String = text.chars().skip(before).take(feeder.pos - before).collect();
        assert_eq!(w.text, consumed);
        let joined: String = texts(&w).concat();
        assert_eq!(w.text, joined);
    }
}

#[test]
fn a_failed_parse_leaves_the_feeder_where_it_was() {
    let mut core = ShellCore::new();
    for text in ["#comment", " x", ";", "", "\"open", ")"] {
        let mut feeder = Feeder::new(text);
        assert!(Word::parse(&mut feeder, &mut core).is_none());
        assert_eq!(feeder.pos, 0);
        assert_eq!(feeder.len(), text.chars().count());
    }
}

#[test]
fn compound_subwords() {
    let w = word("\"a $b ${c}\"${d}$((1+2))");
    assert_eq!(w.subwords.len(), 3);
    assert!(matches!(w.subwords[0], Subword::DoubleQuoted(_)));
    assert!(matches!(w.subwords[1], Subword::BracedParam(_)));
    assert!(matches!(w.subwords[2], Subword::Arithmetic(_)));
    assert_eq!(w.subwords[2].text(), "$((1+2))");
    if let Subword::DoubleQuoted(d) = &w.subwords[0] {
        let inner: Vec<String> = d.subwords.iter().map(|s| s.text()).collect();
        assert_eq!(inner, vec!["a ", "$", "b ", "${c}"]);
    }
}

#[test]
fn a_double_quoted_text_may_go_on_on_the_next_line() {
    let mut core = ShellCore::new();
    let mut feeder = Feeder::new("\"a\nb\" c");
    let w = Word::parse(&mut feeder, &mut core).unwrap();
    assert_eq!(w.text, "\"a\nb\"");
}

#[test]
fn name_measures_the_name_at_the_start() {
    assert_eq!(name("abc"), 3);
    assert_eq!(name("a1_b.c"), 4);
    assert_eq!(name("_"), 1);
    assert_eq!(name("1a"), 0);
    assert_eq!(name(""), 0);
    assert_eq!(param_name("HOME/x"), 4);
    assert_eq!(param_name("?"), 0);
    assert_eq!(special_param("?"), 1);
    assert_eq!(special_param("#x"), 1);
    assert_eq!(special_param("1"), 1);
    assert_eq!(special_param("a"), 0);
    assert_eq!(special_param(""), 0);
}

#[test]
fn parameter_expansion_replaces_dollar_and_name() {
    let mut core = ShellCore::new();
    core.set_var("a", "1");
    core.set_var("bc", "two");
    let mut w = word("x$a/$bc.txt$?$nothing$");
    parameter_expansion::eval(&mut w, &core);
    assert_eq!(
        texts(&w),
        vec!["x", "1", "", "/", "two.txt", "", "0", "", "", "", "$"]
    );
    w.connect_text();
    assert_eq!(w.text, "x1/two.txt0$");
}

#[test]
fn expansion_of_parameters_and_quotes() {
    let mut core = ShellCore::new();
    core.set_var("a", "x y");
    core.set_var("e", "");
    assert_eq!(expand("$a", &mut core), Some(vec!["x".to_string(), "y".to_string()]));
    assert_eq!(expand("\"$a\"", &mut core), Some(vec!["x y".to_string()]));
    assert_eq!(expand("'$a'", &mut core), Some(vec!["$a".to_string()]));
    assert_eq!(expand("\\$a", &mut core), Some(vec!["$a".to_string()]));
    assert_eq!(expand("p${a}q", &mut core), Some(vec!["px".to_string(), "yq".to_string()]));
    assert_eq!(expand("\"p${a}q\"", &mut core), Some(vec!["px yq".to_string()]));
    assert_eq!(expand("$e", &mut core), Some(vec![]));
    assert_eq!(expand("\"$e\"", &mut core), Some(vec!["".to_string()]));
    assert_eq!(expand("''", &mut core), Some(vec!["".to_string()]));
    assert_eq!(expand("a\\ b", &mut core), Some(vec!["a b".to_string()]));
    assert_eq!(expand("\"a\\\"b\\$c\\d\"", &mut core), Some(vec!["a\"b$c\\d".to_string()]));
    assert_eq!(expand("$((2*3))$((1+1))", &mut core), Some(vec!["62".to_string()]));
    assert_eq!(expand("\"$((2*3))\"", &mut core), Some(vec!["6".to_string()]));
    assert_eq!(expand("$((1/0))", &mut core), None);
}

#[test]
fn expansion_is_the_same_on_the_same_state() {
    let mut a = ShellCore::new();
    let mut b = ShellCore::new();
    a.set_var("v", "1 2");
    b.set_var("v", "1 2");
    a.set_var("IFS", "");
    b.set_var("IFS", "");
    let x = expand("{a,b}$v$((v2=3))", &mut a);
    let y = expand("{a,b}$v$((v2=3))", &mut b);
    assert_eq!(x, y);
    assert_eq!(x, Some(vec!["a1 23".to_string(), "b1 23".to_string()]));
    assert_eq!(a.get_var("v2"), b.get_var("v2"));
}

#[test]
fn star_joins_between_quotes_and_splits_outside() {
    let mut core = ShellCore::new();
    core.params = vec!["sh".to_string(), "a b".to_string(), "c".to_string()];
    assert_eq!(expand("\"$*\"", &mut core), Some(vec!["a b c".to_string()]));
    assert_eq!(
        expand("$*", &mut core),
        Some(vec!["a".to_string(), "b".to_string(), "c".to_string()])
    );
    core.set_var("IFS", ":");
    assert_eq!(expand("\"$*\"", &mut core), Some(vec!["a b:c".to_string()]));
    assert_eq!(
        expand("$*", &mut core),
        Some(vec!["a b".to_string(), "c".to_string()])
    );
}

#[test]
fn brace_expansion_of_lists_and_ranges() {
    assert_eq!(fields("a{b,c}d"), vec!["abd", "acd"]);
    assert_eq!(fields("{1..3}"), vec!["1", "2", "3"]);
    assert_eq!(fields("{01..03}"), vec!["01", "02", "03"]);
    assert_eq!(fields("{3..1}"), vec!["3", "2", "1"]);
    assert_eq!(fields("{1..10..3}"), vec!["1", "4", "7", "10"]);
    assert_eq!(fields("{-1..1}"), vec!["-1", "0", "1"]);
    assert_eq!(fields("{-01..1}"), vec!["-01", "000", "001"]);
    assert_eq!(fields("{8..10..-1}"), vec!["8", "9", "10"]);
    assert_eq!(fields("x{a,b}{1,2}"), vec!["xa1", "xa2", "xb1", "xb2"]);
    assert_eq!(fields("{a,{b,c}}"), vec!["a", "b", "c"]);
    assert_eq!(fields("{a{b,c}}"), vec!["{ab}", "{ac}"]);
    assert_eq!(fields("{a,}"), vec!["a"]);
    assert_eq!(fields("{a}"), vec!["{a}"]);
    assert_eq!(fields("{a,b"), vec!["{a,b"]);
    assert_eq!(fields("a,b}"), vec!["a,b}"]);
    assert_eq!(fields("{1..3..0}"), vec!["{1..3..0}"]);
    assert_eq!(fields("{1..x}"), vec!["{1..x}"]);
    assert_eq!(fields("\"{a,b}\""), vec!["{a,b}"]);
    assert_eq!(fields("'{a,b}'"), vec!["{a,b}"]);
    assert_eq!(fields("\\{a,b}"), vec!["{a,b}"]);
}

#[test]
fn brace_expansion_gives_words() {
    let w = word("p{x,y}s");
    let words = brace_expansion::eval(&w);
    assert_eq!(words.len(), 2);
    assert_eq!(words[0].text, "pxs");
    assert_eq!(words[1].text, "pys");
    assert_eq!(texts(&words[1]), vec!["p", "y", "s"]);
}

#[test]
fn tilde_stands_for_home() {
    let mut core = ShellCore::new();
    core.set_var("HOME", "/home/u v");
    assert_eq!(expand("~", &mut core), Some(vec!["/home/u v".to_string()]));
    assert_eq!(expand("~/x", &mut core), Some(vec!["/home/u v/x".to_string()]));
    assert_eq!(expand("~user/x", &mut core), Some(vec!["~user/x".to_string()]));
    assert_eq!(expand("a~", &mut core), Some(vec!["a~".to_string()]));
    assert_eq!(expand("'~'", &mut core), Some(vec!["~".to_string()]));
    let mut w = word("~/a");
    tilde_expansion::eval(&mut w, &core);
    assert_eq!(texts(&w), vec!["'/home/u v'", "/", "a"]);
}

#[test]
fn fields_know_whether_they_are_patterns() {
    let mut core = ShellCore::new();
    core.set_var("p", "*.c");
    let mut feeder = Feeder::new("*.rs");
    let w = Word::parse(&mut feeder, &mut core).unwrap();
    let f = w.expand(&mut core).unwrap();
    assert_eq!(f.len(), 1);
    assert!(f[0].pattern);
    for (text, pattern) in [("'*'", false), ("\"*\"", false), ("\\*", false), ("$p", true),
        ("\"$p\"", false), ("a?b", true), ("a[b", true), ("abc", false)] {
        let mut feeder = Feeder::new(text);
        let w = Word::parse(&mut feeder, &mut core).unwrap();
        let f = w.expand(&mut core).unwrap();
        assert_eq!(f[0].pattern, pattern, "{}", text);
    }
}

#[test]
fn find_gives_the_positions_of_a_text() {
    let w = word("a$b$c");
    assert_eq!(w.find("$"), vec![1, 3]);
    assert_eq!(w.find("x"), Vec::<usize>::new());
}

#[test]
fn eval_as_value_does_not_split() {
    let mut core = ShellCore::new();
    core.set_var("a", "x  y");
    let w = word("$a'z'");
    assert_eq!(w.eval_as_value(&mut core), Some("x  yz".to_string()));
}

#[test]
fn remove_escape_takes_the_backslashes_out() {
    assert_eq!(Arg::remove_escape(&"a\\b".to_string()), "ab");
    assert_eq!(Arg::remove_escape(&"a\\\\b".to_string()), "a\\b");
    assert_eq!(Arg::remove_escape(&"\\".to_string()), "");
    assert_eq!(Arg::remove_escape(&"abc".to_string()), "abc");
    assert_eq!(Arg::remove_escape(&"\\\\\\*".to_string()), "\\*");
}

#[test]
fn expand_glob_sorts_matches_and_keeps_a_pattern_without_any() {
    let none: Vec<String> = vec![];
    assert_eq!(
        Arg::expand_glob(&"*.nonexistent".to_string(), &none, false),
        vec!["*.nonexistent"]
    );
    assert_eq!(Arg::expand_glob(&"a\\*b\\\\c".to_string(), &none, false), vec!["a*b\\c"]);
    assert!(Arg::expand_glob(&"*.nonexistent".to_string(), &none, true).is_empty());
    let found = vec!["b.c".to_string(), "a.c".to_string(), "ab.c".to_string(), "B.c".to_string(), "a.c".to_string()];
    assert_eq!(
        Arg::expand_glob(&"*.c".to_string(), &found, false),
        vec!["B.c", "a.c", "a.c", "ab.c", "b.c"]
    );
    assert_eq!(
        Arg::expand_glob(&"*.c".to_string(), &found, true),
        vec!["B.c", "a.c", "a.c", "ab.c", "b.c"]
    );
}

#[test]
fn arguments_and_delimiters() {
    let mut core = ShellCore::new();
    let mut feeder = Feeder::new("  \tx{a,b} y");
    assert!(ArgDelimiter::return_if_valid(&mut feeder, 0).is_none());
    let d = ArgDelimiter::parse(&mut feeder).unwrap();
    assert_eq!(d.text, "  \t");
    assert_eq!(d.text(), "  \t");
    assert!(ArgDelimiter::parse(&mut feeder).is_none());
    let mut arg = Arg::parse(&mut feeder, &mut core, true).unwrap();
    assert_eq!(arg.text, "x{a,b}");
    assert_eq!(arg.eval(&mut core), vec!["xa", "xb"]);
    assert_eq!(arg.parse_info().len(), 7);
    let mut feeder = Feeder::new("x{a,b}");
    let mut arg = Arg::parse(&mut feeder, &mut core, false).unwrap();
    assert_eq!(arg.eval(&mut core), vec!["x{a,b}"]);
    let mut feeder = Feeder::new(" z");
    let d = ArgDelimiter::return_if_valid(&mut feeder, 1).unwrap();
    assert_eq!(d.parse_info(), vec!["    delimiter: ' ' (pos: 1, limit: 2)"]);
}
