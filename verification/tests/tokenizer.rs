use rshell::table::Table;
use rshell::tokens::{expand_tilde, expand_tilde_with, expand_variables, parse_arguments};

fn env_with(pairs: &[(&str, &str)]) -> Table {
    let mut t = Table::new();
    for (k, v) in pairs {
        t.define(k, v);
    }
    t
}

fn home() -> Option<String> {
    Some("/home/u".to_string())
}

fn toks(input: &str, env: &Table, home: &Option<String>) -> Vec<String> {
    parse_arguments(input, env, home)
}

#[test]
fn empty_input_yields_no_tokens() {
    let env = Table::new();
    assert_eq!(toks("", &env, &None), Vec::<String>::new());
}

#[test]
fn whitespace_only_yields_no_tokens() {
    let env = Table::new();
    assert_eq!(toks("   \t  ", &env, &None), Vec::<String>::new());
}

#[test]
fn collapses_whitespace() {
    let env = Table::new();
    assert_eq!(toks("a  b", &env, &None), vec!["a", "b"]);
}

#[test]
fn double_quotes_protect_spaces() {
    let env = Table::new();
    assert_eq!(toks("\"a b\" c", &env, &None), vec!["a b", "c"]);
}

#[test]
fn single_quotes_protect_double_quotes() {
    let env = Table::new();
    assert_eq!(toks("'a\"b'", &env, &None), vec!["a\"b"]);
}

#[test]
fn adjacent_quoted_spans_concatenate() {
    let env = Table::new();
    assert_eq!(toks("\"ab\"cd", &env, &None), vec!["abcd"]);
}

#[test]
fn trailing_unterminated_quote_is_accepted() {
    let env = Table::new();
    assert_eq!(toks("\"abc", &env, &None), vec!["abc"]);
    assert_eq!(toks("echo 'tail", &env, &None), vec!["echo", "tail"]);
}

#[test]
fn expands_variable_inside_token() {
    let env = env_with(&[("FOO", "bar")]);
    assert_eq!(toks("x=$FOO", &env, &None), vec!["x=bar"]);
}

#[test]
fn expands_braced_variable() {
    let env = env_with(&[("FOO", "bar")]);
    assert_eq!(toks("${FOO}!", &env, &None), vec!["bar!"]);
}

#[test]
fn unterminated_brace_is_literal() {
    let env = env_with(&[("FOO", "bar")]);
    assert_eq!(toks("${FOO", &env, &None), vec!["${FOO"]);
}

#[test]
fn unset_variable_expands_to_empty() {
    let env = Table::new();
    assert_eq!(toks("a$NOPE!b", &env, &None), vec!["a!b"]);
    assert_eq!(toks("$NOPE", &env, &None), vec![""]);
}

#[test]
fn lone_dollar_is_literal() {
    let env = Table::new();
    assert_eq!(toks("$", &env, &None), vec!["$"]);
    assert_eq!(toks("$1", &env, &None), vec!["$1"]);
    assert_eq!(toks("a$ b", &env, &None), vec!["a$", "b"]);
}

#[test]
fn tilde_alone_becomes_home() {
    let env = Table::new();
    assert_eq!(toks("~", &env, &home()), vec!["/home/u"]);
}

#[test]
fn tilde_slash_joins_home() {
    let env = Table::new();
    assert_eq!(toks("~/docs", &env, &home()), vec!["/home/u/docs"]);
}

#[test]
fn interior_tilde_is_literal() {
    let env = Table::new();
    assert_eq!(toks("a~b", &env, &home()), vec!["a~b"]);
}

#[test]
fn tilde_without_home_is_literal() {
    let env = Table::new();
    assert_eq!(toks("~", &env, &None), vec!["~"]);
}

#[test]
fn expand_variables_direct() {
    let env = env_with(&[("A", "1"), ("B", "2")]);
    assert_eq!(expand_variables("$A+${B}=$C", &env), "1+2=");
    assert_eq!(expand_variables("no refs", &env), "no refs");
}

#[test]
fn expand_tilde_with_direct() {
    assert_eq!(expand_tilde_with("~", &home()), "/home/u");
    assert_eq!(expand_tilde_with("~/x", &home()), "/home/u/x");
    assert_eq!(expand_tilde_with("~x", &home()), "~x");
    assert_eq!(expand_tilde_with("/a/~", &home()), "/a/~");
    assert_eq!(expand_tilde_with("~/x", &None), "~/x");
}

#[test]
fn expand_tilde_leaves_tilde_free_paths_alone() {
    // host-home-based expansion: paths without a leading tilde never change
    assert_eq!(expand_tilde("/usr/bin"), "/usr/bin");
    assert_eq!(expand_tilde("a~b"), "a~b");
    assert_eq!(expand_tilde(""), "");
}
