use rshell::dispatch::{dispatch_segment, path_apply, split_segments, Mode, Step};
use rshell::session::Session;
use rshell::tokens::parse_arguments;

fn session() -> Session {
    Session::new("/start", Some("/home/u".to_string()))
}

#[test]
fn split_segments_trims_each_piece() {
    let segs = split_segments(" a; b ;c ");
    assert_eq!(segs, vec!["a", "b", "c"]);
}

#[test]
fn split_segments_keeps_empty_pieces() {
    let segs = split_segments("a;;b");
    assert_eq!(segs, vec!["a", "", "b"]);
    assert_eq!(split_segments(""), vec![""]);
}

#[test]
fn empty_segment_does_nothing() {
    let mut s = session();
    assert!(matches!(dispatch_segment(&mut s, "", &None, Mode::Interactive), Step::Empty));
    assert!(matches!(dispatch_segment(&mut s, "   ", &None, Mode::Interactive), Step::Empty));
}

#[test]
fn exit_stops_the_loop() {
    let mut s = session();
    assert!(matches!(dispatch_segment(&mut s, "exit", &None, Mode::Interactive), Step::Exit));
}

#[test]
fn alias_defines_and_lists() {
    let mut s = session();
    let step = dispatch_segment(&mut s, "alias ll=\"ls -la\"", &None, Mode::Interactive);
    assert!(matches!(step, Step::AliasDefined));
    match dispatch_segment(&mut s, "alias", &None, Mode::Interactive) {
        Step::AliasListed(l) => {
            assert_eq!(l, vec![("ll".to_string(), "ls -la".to_string())]);
        },
        _ => panic!("expected the alias listing"),
    }
}

#[test]
fn alias_usage_error_on_bad_shapes() {
    let mut s = session();
    assert!(matches!(
        dispatch_segment(&mut s, "alias ll ls", &None, Mode::Interactive),
        Step::AliasUsage
    ));
    assert!(matches!(
        dispatch_segment(&mut s, "alias noequals", &None, Mode::Interactive),
        Step::AliasUsage
    ));
}

#[test]
fn alias_expands_exactly_once() {
    // Even with ls itself aliased, invoking ll must expand only one layer.
    let mut s = session();
    dispatch_segment(&mut s, "alias ll=\"ls -la\"", &None, Mode::Interactive);
    dispatch_segment(&mut s, "alias ls=\"dir\"", &None, Mode::Interactive);
    match dispatch_segment(&mut s, "ll -h", &None, Mode::Interactive) {
        Step::Run(stages) => {
            assert_eq!(stages.len(), 1);
            assert_eq!(stages[0].argv, vec!["ls", "-la", "-h"]);
            assert!(!stages[0].stdin_from_prev);
            assert!(!stages[0].stdout_piped);
        },
        _ => panic!("expected a spawn plan"),
    }
}

#[test]
fn set_updates_environment_and_tokenizer_sees_it() {
    let mut s = session();
    match dispatch_segment(&mut s, "set FOO bar", &None, Mode::Interactive) {
        Step::VarSet(n, v) => {
            assert_eq!(n, "FOO");
            assert_eq!(v, "bar");
        },
        _ => panic!("expected a variable binding"),
    }
    assert_eq!(parse_arguments("$FOO", &s.env, &None), vec!["bar"]);
}

#[test]
fn set_with_equals_sign_splits_once() {
    let mut s = session();
    match dispatch_segment(&mut s, "set A=1=2", &None, Mode::Interactive) {
        Step::VarSet(n, v) => {
            assert_eq!(n, "A");
            assert_eq!(v, "1=2");
        },
        _ => panic!("expected a variable binding"),
    }
}

#[test]
fn set_without_arguments_lists_every_variable() {
    let mut s = session();
    dispatch_segment(&mut s, "set A 1", &None, Mode::Interactive);
    dispatch_segment(&mut s, "set B 2", &None, Mode::Interactive);
    dispatch_segment(&mut s, "set A 3", &None, Mode::Interactive);
    match dispatch_segment(&mut s, "set", &None, Mode::Interactive) {
        Step::VarsListed(l) => {
            assert_eq!(
                l,
                vec![("A".to_string(), "3".to_string()), ("B".to_string(), "2".to_string())]
            );
        },
        _ => panic!("expected the variable listing"),
    }
}

#[test]
fn set_usage_error_on_bad_shapes() {
    let mut s = session();
    assert!(matches!(
        dispatch_segment(&mut s, "set a b c", &None, Mode::Interactive),
        Step::SetUsage
    ));
    assert!(matches!(
        dispatch_segment(&mut s, "set lone", &None, Mode::Interactive),
        Step::SetUsage
    ));
}

#[test]
fn cd_without_arguments_goes_home() {
    let mut s = session();
    match dispatch_segment(&mut s, "cd", &None, Mode::Interactive) {
        Step::Chdir(t, print) => {
            assert_eq!(t, "/home/u");
            assert!(!print);
        },
        _ => panic!("expected a directory change"),
    }
}

#[test]
fn cd_without_home_goes_to_root() {
    let mut s = Session::new("/start", None);
    match dispatch_segment(&mut s, "cd", &None, Mode::Interactive) {
        Step::Chdir(t, _) => assert_eq!(t, "/"),
        _ => panic!("expected a directory change"),
    }
}

#[test]
fn cd_dash_round_trip_toggles_two_directories() {
    let mut s = Session::new("/a", None);
    match dispatch_segment(&mut s, "cd /b", &None, Mode::Interactive) {
        Step::Chdir(t, print) => {
            assert_eq!(t, "/b");
            assert!(!print);
            s.cd_apply(&t);
        },
        _ => panic!("expected a directory change"),
    }
    assert_eq!(s.cwd, "/b");
    assert_eq!(s.prev.as_deref(), Some("/a"));
    // cd - returns to /a and asks for the target to be printed
    match dispatch_segment(&mut s, "cd -", &None, Mode::Interactive) {
        Step::Chdir(t, print) => {
            assert_eq!(t, "/a");
            assert!(print);
            s.cd_apply(&t);
        },
        _ => panic!("expected a directory change"),
    }
    assert_eq!(s.cwd, "/a");
    // a further cd - returns to /b, not to anything older
    match dispatch_segment(&mut s, "cd -", &None, Mode::Interactive) {
        Step::Chdir(t, print) => {
            assert_eq!(t, "/b");
            assert!(print);
            s.cd_apply(&t);
        },
        _ => panic!("expected a directory change"),
    }
    assert_eq!(s.cwd, "/b");
    assert_eq!(s.prev.as_deref(), Some("/a"));
}

#[test]
fn cd_dash_without_history_is_an_error() {
    let mut s = session();
    assert!(matches!(
        dispatch_segment(&mut s, "cd -", &None, Mode::Interactive),
        Step::CdNoPrevious
    ));
}

#[test]
fn cd_expands_tilde_in_target() {
    let mut s = Session::new("/start", Some("/home/u".to_string()));
    match dispatch_segment(&mut s, "cd '~'", &None, Mode::Interactive) {
        Step::Chdir(t, _) => assert_eq!(t, "/home/u"),
        _ => panic!("expected a directory change"),
    }
}

#[test]
fn home_variable_overrides_fallback() {
    let mut s = session();
    dispatch_segment(&mut s, "set HOME /other", &None, Mode::Interactive);
    match dispatch_segment(&mut s, "cd", &None, Mode::Interactive) {
        Step::Chdir(t, _) => assert_eq!(t, "/other"),
        _ => panic!("expected a directory change"),
    }
}

#[test]
fn path_shows_and_prepends() {
    let mut s = session();
    dispatch_segment(&mut s, "set PATH /usr/bin", &None, Mode::Interactive);
    match dispatch_segment(&mut s, "path", &None, Mode::Interactive) {
        Step::PathShown(p) => assert_eq!(p, "/usr/bin"),
        _ => panic!("expected the path value"),
    }
    match dispatch_segment(&mut s, "path ~/bin", &None, Mode::Interactive) {
        Step::PathAdd(d) => {
            assert_eq!(d, "/home/u/bin");
            let newpath = path_apply(&mut s, &d);
            assert_eq!(newpath, "/home/u/bin:/usr/bin");
        },
        _ => panic!("expected a path addition"),
    }
    match dispatch_segment(&mut s, "path", &None, Mode::Interactive) {
        Step::PathShown(p) => assert_eq!(p, "/home/u/bin:/usr/bin"),
        _ => panic!("expected the path value"),
    }
    assert!(matches!(
        dispatch_segment(&mut s, "path a b", &None, Mode::Interactive),
        Step::PathUsage
    ));
}

#[test]
fn path_prepend_with_empty_path_is_the_directory_alone() {
    let mut s = session();
    assert_eq!(path_apply(&mut s, "/opt/x"), "/opt/x");
}

#[test]
fn edit_joins_arguments_or_takes_history() {
    let mut s = session();
    match dispatch_segment(&mut s, "edit echo hi", &None, Mode::Interactive) {
        Step::Edit(t) => assert_eq!(t, "echo hi"),
        _ => panic!("expected an edit request"),
    }
    let prev = Some("ls -l".to_string());
    match dispatch_segment(&mut s, "edit", &prev, Mode::Interactive) {
        Step::Edit(t) => assert_eq!(t, "ls -l"),
        _ => panic!("expected an edit request"),
    }
    assert!(matches!(
        dispatch_segment(&mut s, "edit", &None, Mode::Interactive),
        Step::EditNothing
    ));
}

#[test]
fn edit_is_external_in_script_mode() {
    let mut s = session();
    match dispatch_segment(&mut s, "edit x", &None, Mode::Script) {
        Step::Run(stages) => {
            assert_eq!(stages.len(), 1);
            assert_eq!(stages[0].argv, vec!["edit", "x"]);
        },
        _ => panic!("expected a spawn plan"),
    }
}

#[test]
fn unknown_command_becomes_single_stage_plan() {
    let mut s = session();
    match dispatch_segment(&mut s, "nosuchprogram123", &None, Mode::Interactive) {
        Step::Run(stages) => {
            assert_eq!(stages.len(), 1);
            assert_eq!(stages[0].argv, vec!["nosuchprogram123"]);
        },
        _ => panic!("expected a spawn plan"),
    }
    // the session is untouched, so the loop can go on dispatching
    assert!(matches!(dispatch_segment(&mut s, "exit", &None, Mode::Interactive), Step::Exit));
}
