use rshell::session::{display_dir, Session};
use rshell::table::Table;

#[test]
fn table_defines_looks_up_and_lists_in_order() {
    let mut t = Table::new();
    assert_eq!(t.lookup("A"), None);
    t.define("A", "1");
    t.define("B", "2");
    assert_eq!(t.lookup("A").as_deref(), Some("1"));
    assert_eq!(t.lookup("B").as_deref(), Some("2"));
    // overwriting keeps the entry's position
    t.define("A", "9");
    assert_eq!(t.lookup("A").as_deref(), Some("9"));
    assert_eq!(
        t.list(),
        vec![("A".to_string(), "9".to_string()), ("B".to_string(), "2".to_string())]
    );
}

#[test]
fn cd_apply_records_one_step_of_history() {
    let mut s = Session::new("/a", None);
    assert_eq!(s.prev, None);
    s.cd_apply("/b");
    assert_eq!(s.cwd, "/b");
    assert_eq!(s.prev.as_deref(), Some("/a"));
    s.cd_apply("/c");
    assert_eq!(s.cwd, "/c");
    assert_eq!(s.prev.as_deref(), Some("/b"));
}

#[test]
fn effective_home_prefers_a_nonempty_home_variable() {
    let mut s = Session::new("/", Some("/home/u".to_string()));
    assert_eq!(s.effective_home().as_deref(), Some("/home/u"));
    s.env.define("HOME", "/other");
    assert_eq!(s.effective_home().as_deref(), Some("/other"));
    s.env.define("HOME", "");
    assert_eq!(s.effective_home().as_deref(), Some("/home/u"));
}

#[test]
fn prompt_shows_home_as_tilde() {
    let home = Some("/home/u".to_string());
    assert_eq!(display_dir("/home/u", &home), "~");
    assert_eq!(display_dir("/home/u/work", &home), "~/work/");
    assert_eq!(display_dir("/etc", &home), "/etc/");
    assert_eq!(display_dir("/etc", &None), "/etc/");
}
