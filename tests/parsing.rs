use shell_ls::{
    chars_of, decimal, flatten_flags, key_less, ls_cmp, pad_left, pad_right, parse_command,
    quote_state, remove_all_quotes, rm_recursive, sort_by_keys, sort_key, sort_order, tokenize, QuoteState, Var,
};
use std::cmp::Ordering;

fn strings(v: &[&str]) -> Vec<String> {
    v.iter().map(|s| s.to_string()).collect()
}

#[test]
fn quotes_are_removed() {
    assert_eq!(remove_all_quotes("'a'b\"c\""), "abc");
    assert_eq!(remove_all_quotes("plain"), "plain");
    assert_eq!(remove_all_quotes(""), "");
}

#[test]
fn open_quote_detection() {
    assert_eq!(quote_state("echo 'hi"), QuoteState::Single);
    assert_eq!(quote_state("echo \"hi"), QuoteState::Double);
    assert_eq!(quote_state("echo 'hi'"), QuoteState::Closed);
    assert_eq!(quote_state("echo \\'hi"), QuoteState::Closed);
    assert_eq!(quote_state("echo \"it's\""), QuoteState::Closed);
}

#[test]
fn flags_split_into_letters() {
    assert_eq!(flatten_flags(strings(&["-la", "--F", "-"])), strings(&["l", "a", "F"]));
    assert_eq!(flatten_flags(vec![]), Vec::<String>::new());
}

#[test]
fn repeated_flag_letters_are_kept_once() {
    assert_eq!(flatten_flags(strings(&["-ll", "-al"])), strings(&["l", "a"]));
    assert_eq!(flatten_flags(strings(&["-F", "-aF", "--l"])), strings(&["F", "a", "l"]));
    let v = parse_command("ls -xx -x");
    assert_eq!(v.flags, strings(&["x"]));
}

#[test]
fn tokens_respect_quotes_and_escapes() {
    assert_eq!(tokenize("ls  -l \"my dir\" it\\'s"), strings(&["ls", "-l", "my dir", "it's"]));
    assert_eq!(tokenize("echo 'a \"b\"'"), strings(&["echo", "a \"b\""]));
    assert_eq!(tokenize("a\\ b"), strings(&["a b"]));
    assert_eq!(tokenize("   "), Vec::<String>::new());
}

#[test]
fn command_line_split() {
    let v: Var = parse_command("ls -la --F 'some dir' x");
    assert_eq!(v.command, "ls");
    assert_eq!(v.flags, strings(&["l", "a", "F"]));
    assert_eq!(v.args, strings(&["some dir", "x"]));
    let e = parse_command("");
    assert!(e.command.is_empty() && e.flags.is_empty() && e.args.is_empty());
}

#[test]
fn empty_var() {
    let v = Var::new();
    assert!(v.command.is_empty() && v.flags.is_empty() && v.args.is_empty());
}

#[test]
fn sort_keys_fold_case_after_one_dot() {
    assert_eq!(sort_key("Apple"), vec!['a', 'p', 'p', 'l', 'e']);
    assert_eq!(sort_key("..X"), vec!['.', 'x']);
    assert_eq!(sort_key("."), Vec::<char>::new());
    assert_eq!(chars_of("héllo"), vec!['h', 'é', 'l', 'l', 'o']);
}

#[test]
fn key_comparison() {
    assert!(key_less(&vec!['a'], &vec!['b']));
    assert!(key_less(&vec!['a'], &vec!['a', 'a']));
    assert!(!key_less(&vec!['a'], &vec!['a']));
    assert!(!key_less(&vec!['b'], &vec!['a', 'z']));
    assert_eq!(ls_cmp(".bashrc", "Apple"), Ordering::Greater);
    assert_eq!(ls_cmp("Apple", "apple"), Ordering::Equal);
    assert_eq!(ls_cmp("banana", ".bashrc"), Ordering::Less);
}

#[test]
fn sorting_by_keys_is_stable() {
    let keys = vec![vec!['b'], vec!['a'], vec!['b'], vec![]];
    assert_eq!(sort_by_keys(&keys), vec![3, 1, 0, 2]);
    assert_eq!(sort_order(&strings(&[".bashrc", "Apple", "banana"])), vec![1, 2, 0]);
}

#[test]
fn number_text() {
    assert_eq!(decimal(0), "0");
    assert_eq!(decimal(1234567890), "1234567890");
    assert_eq!(decimal(u64::MAX), "18446744073709551615");
    assert_eq!(pad_left("7", 3), "  7");
    assert_eq!(pad_left("1234", 3), "1234");
    assert_eq!(pad_right("ab", 4), "ab  ");
}

#[test]
fn rm_accepts_only_r() {
    assert_eq!(rm_recursive(&vec![]), Some(false));
    assert_eq!(rm_recursive(&strings(&["r"])), Some(true));
    assert_eq!(rm_recursive(&strings(&["f"])), None);
    assert_eq!(rm_recursive(&strings(&["r", "f"])), None);
}
