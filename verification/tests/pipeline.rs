use rshell::dispatch::{dispatch_segment, Mode, Step};
use rshell::pipeline::{expand_alias, plan_pipeline, plan_stages, split_on, trim};
use rshell::session::Session;
use rshell::table::Table;

#[test]
fn trim_strips_both_ends() {
    assert_eq!(trim("  a b \t"), "a b");
    assert_eq!(trim(""), "");
    assert_eq!(trim(" \t "), "");
}

#[test]
fn split_on_keeps_empty_segments() {
    assert_eq!(split_on("a|b||c", '|'), vec!["a", "b", "", "c"]);
    assert_eq!(split_on("", '|'), vec![""]);
}

#[test]
fn two_stage_pipeline_plans_two_processes() {
    // the structural half of `echo hi | cat`: two stages, wired in order
    let aliases = Table::new();
    let env = Table::new();
    let cmds = plan_pipeline("echo hi | cat", &aliases, &env, &None);
    assert_eq!(cmds, vec![vec!["echo".to_string(), "hi".to_string()], vec!["cat".to_string()]]);
    let stages = plan_stages(&cmds);
    assert_eq!(stages.len(), 2);
    assert_eq!(stages[0].argv, vec!["echo", "hi"]);
    assert!(!stages[0].stdin_from_prev);
    assert!(stages[0].stdout_piped);
    assert_eq!(stages[1].argv, vec!["cat"]);
    assert!(stages[1].stdin_from_prev);
    assert!(!stages[1].stdout_piped);
}

#[test]
fn empty_pipe_segments_are_skipped_without_error() {
    let aliases = Table::new();
    let env = Table::new();
    let cmds = plan_pipeline("a ||b", &aliases, &env, &None);
    assert_eq!(cmds.len(), 3);
    assert!(cmds[1].is_empty());
    let stages = plan_stages(&cmds);
    assert_eq!(stages.len(), 2);
    assert_eq!(stages[0].argv, vec!["a"]);
    assert_eq!(stages[1].argv, vec!["b"]);
}

#[test]
fn one_stage_per_nonempty_segment() {
    let aliases = Table::new();
    let env = Table::new();
    let cmds = plan_pipeline("a 1 | b 2 | c 3", &aliases, &env, &None);
    assert_eq!(cmds.len(), 3);
    let stages = plan_stages(&cmds);
    assert_eq!(stages.len(), 3);
    for (i, st) in stages.iter().enumerate() {
        assert_eq!(st.stdin_from_prev, i > 0);
        assert_eq!(st.stdout_piped, i + 1 < stages.len());
    }
}

#[test]
fn aliases_expand_in_each_pipeline_stage() {
    let mut aliases = Table::new();
    aliases.define("ll", "ls -la");
    let env = Table::new();
    let cmds = plan_pipeline("ll /tmp | ll", &aliases, &env, &None);
    assert_eq!(
        cmds,
        vec![
            vec!["ls".to_string(), "-la".to_string(), "/tmp".to_string()],
            vec!["ls".to_string(), "-la".to_string()],
        ]
    );
}

#[test]
fn expand_alias_splices_replacement_tokens() {
    let mut aliases = Table::new();
    aliases.define("gs", "git status");
    let env = Table::new();
    let toks = vec!["gs".to_string(), "-s".to_string()];
    assert_eq!(expand_alias(&toks, &aliases, &env, &None), vec!["git", "status", "-s"]);
    let other = vec!["top".to_string()];
    assert_eq!(expand_alias(&other, &aliases, &env, &None), vec!["top"]);
}

#[test]
fn pipeline_dispatch_reports_both_stages() {
    let mut s = Session::new("/start", None);
    match dispatch_segment(&mut s, "echo hi | cat", &None, Mode::Interactive) {
        Step::Run(stages) => {
            assert_eq!(stages.len(), 2);
            assert_eq!(stages[0].argv, vec!["echo", "hi"]);
            assert_eq!(stages[1].argv, vec!["cat"]);
        },
        _ => panic!("expected a spawn plan"),
    }
}

#[test]
fn builtin_first_token_wins_over_pipe() {
    // the builtin check looks only at the first token of the segment
    let mut s = Session::new("/start", None);
    match dispatch_segment(&mut s, "set A 1 | cat", &None, Mode::Interactive) {
        Step::SetUsage => {},
        _ => panic!("expected the set builtin to run (and reject its arguments)"),
    }
}
