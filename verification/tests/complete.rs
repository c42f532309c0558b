use rshell::complete::{
    builtin_names, completion_query, filename_candidates, first_word_candidates, sort_dedup,
    split_partial, Query,
};

fn home() -> Option<String> {
    Some("/home/u".to_string())
}

#[test]
fn builtin_names_are_the_fixed_set() {
    assert_eq!(builtin_names(), vec!["cd", "edit", "exit", "alias", "set", "path"]);
}

#[test]
fn cursor_in_first_word_completes_commands() {
    match completion_query("ec", 2) {
        Query::FirstWord { start, prefix } => {
            assert_eq!(start, 0);
            assert_eq!(prefix, "ec");
        },
        _ => panic!("expected first-word completion"),
    }
    match completion_query("   ", 3) {
        Query::FirstWord { start, prefix } => {
            assert_eq!(start, 3);
            assert_eq!(prefix, "");
        },
        _ => panic!("expected first-word completion"),
    }
    match completion_query("  git", 5) {
        Query::FirstWord { start, prefix } => {
            assert_eq!(start, 2);
            assert_eq!(prefix, "git");
        },
        _ => panic!("expected first-word completion"),
    }
}

#[test]
fn cursor_in_later_word_completes_filenames() {
    match completion_query("echo fi", 7) {
        Query::Filename { start, partial } => {
            assert_eq!(start, 5);
            assert_eq!(partial, "fi");
        },
        _ => panic!("expected filename completion"),
    }
    match completion_query("ls  ", 4) {
        Query::Filename { start, partial } => {
            assert_eq!(start, 4);
            assert_eq!(partial, "");
        },
        _ => panic!("expected filename completion"),
    }
}

#[test]
fn cursor_position_limits_what_counts() {
    // only the text before the cursor matters
    match completion_query("echo file", 3) {
        Query::FirstWord { start, prefix } => {
            assert_eq!(start, 0);
            assert_eq!(prefix, "ech");
        },
        _ => panic!("expected first-word completion"),
    }
}

#[test]
fn first_word_candidates_filter_by_prefix() {
    let path_cmds = vec!["echo".to_string(), "env".to_string(), "ls".to_string()];
    let cands = first_word_candidates("e", &path_cmds);
    let names: Vec<&str> = cands.iter().map(|c| c.replacement.as_str()).collect();
    assert_eq!(names, vec!["edit", "exit", "echo", "env"]);
    assert!(cands[0].is_builtin);
    assert!(cands[1].is_builtin);
    assert!(!cands[2].is_builtin);
    assert!(!cands[3].is_builtin);
    for c in &cands {
        assert_eq!(c.display, c.replacement);
    }
}

#[test]
fn empty_prefix_offers_everything() {
    let path_cmds = vec!["awk".to_string()];
    let cands = first_word_candidates("", &path_cmds);
    assert_eq!(cands.len(), 7);
}

#[test]
fn sort_dedup_sorts_and_removes_duplicates() {
    let cmds = vec![
        "ls".to_string(),
        "cat".to_string(),
        "ls".to_string(),
        "awk".to_string(),
        "cat".to_string(),
    ];
    assert_eq!(sort_dedup(&cmds), vec!["awk", "cat", "ls"]);
    assert_eq!(sort_dedup(&Vec::new()), Vec::<String>::new());
}

#[test]
fn split_partial_separates_directory_and_prefix() {
    assert_eq!(split_partial("~/do", &home()), ("/home/u".to_string(), "do".to_string()));
    assert_eq!(split_partial("dir/", &None), ("dir/".to_string(), "".to_string()));
    assert_eq!(split_partial("name", &None), (".".to_string(), "name".to_string()));
    assert_eq!(split_partial("/usr/b", &None), ("/usr".to_string(), "b".to_string()));
    assert_eq!(split_partial("a/b/c", &None), ("a/b".to_string(), "c".to_string()));
}

#[test]
fn filename_candidates_keep_the_typed_tilde_form() {
    let entries = vec![
        ("docs".to_string(), true),
        ("dot".to_string(), false),
        ("x".to_string(), false),
    ];
    let cands = filename_candidates("~/do", &entries, &home());
    assert_eq!(cands.len(), 2);
    assert_eq!(cands[0].display, "docs/");
    assert_eq!(cands[0].replacement, "~/docs/");
    assert_eq!(cands[1].display, "dot");
    assert_eq!(cands[1].replacement, "~/dot");
}

#[test]
fn filename_candidates_deeper_tilde_path() {
    let entries = vec![("main.rs".to_string(), false)];
    let cands = filename_candidates("~/src/ma", &entries, &home());
    assert_eq!(cands.len(), 1);
    assert_eq!(cands[0].replacement, "~/src/main.rs");
}

#[test]
fn filename_candidates_relative_and_absolute_paths() {
    let entries = vec![("main.rs".to_string(), false), ("mod.rs".to_string(), false)];
    let cands = filename_candidates("src/m", &entries, &None);
    assert_eq!(cands.len(), 2);
    assert_eq!(cands[0].replacement, "src/main.rs");
    assert_eq!(cands[1].replacement, "src/mod.rs");

    let entries = vec![("bin".to_string(), true)];
    let cands = filename_candidates("/usr/b", &entries, &None);
    assert_eq!(cands.len(), 1);
    assert_eq!(cands[0].replacement, "/usr/bin/");

    let bare = vec![("notes.txt".to_string(), false)];
    let cands = filename_candidates("no", &bare, &None);
    assert_eq!(cands.len(), 1);
    assert_eq!(cands[0].replacement, "notes.txt");
}

#[test]
fn filename_candidates_are_sorted_by_display() {
    let entries = vec![
        ("zeta".to_string(), false),
        ("alpha".to_string(), false),
        ("mid".to_string(), true),
    ];
    let cands = filename_candidates("", &entries, &None);
    let shown: Vec<&str> = cands.iter().map(|c| c.display.as_str()).collect();
    assert_eq!(shown, vec!["alpha", "mid/", "zeta"]);
}
