//! The builtin dispatcher: one segment of input (already split on `;`) is
//! tokenized, the first token is checked against the fixed builtin set
//! (`exit`, `alias`, `set`, `cd`, `path`, `edit`), and the matching builtin
//! runs directly against the session state. Anything else becomes a spawn
//! plan for the pipeline executor. Builtins that need the host (an actual
//! directory change, a directory check, an editor run, a process spawn)
//! return a [`Step`] describing the request; the surrounding program
//! performs it and, on success, calls back into the session to record it.

use vstd::prelude::*;
use crate::pipeline::{
    StageSpec, plan_pipeline, plan_stages, spec_nonempty, spec_plan_pipeline, spec_stage_argvs,
    spec_wiring_ok,
};
use crate::session::Session;
use crate::table::{spec_define, spec_lookup};
use crate::text::{chars_to_string, str_chars, str_eq, subrange_chars, tail_chars};
use crate::tokens::{spec_expand_tilde, spec_find, spec_tokenize};

verus! {

/// Where a segment comes from: interactive input has the `edit` builtin,
/// lines of a startup script do not (there `edit` runs as an external
/// command, as any unknown name does).
#[derive(Clone, Copy, PartialEq, Eq, Structural)]
pub enum Mode {
    Interactive,
    Script,
}

/// What the interpreter decided for one segment. Variants that carry data
/// either report results to print or name an action only the host can
/// perform; the session state has already been updated where the library
/// could do so itself.
pub enum Step {
    /// Stop the read-execute loop.
    Exit,
    /// The segment held no tokens; nothing to do.
    Empty,
    /// `alias` without arguments: every alias, in definition order.
    AliasListed(Vec<(String, String)>),
    /// `alias NAME=VALUE`: the alias table has been updated.
    AliasDefined,
    /// `alias` with arguments of any other shape: a usage error.
    AliasUsage,
    /// `set` without arguments: every environment variable, in order.
    VarsListed(Vec<(String, String)>),
    /// `set`: the session environment has been updated; the host must
    /// mirror the binding into the process environment.
    VarSet(String, String),
    /// `set` with arguments of any other shape: a usage error.
    SetUsage,
    /// `cd`: the host must change the working directory to the given
    /// target and, on success, call [`Session::cd_apply`]; the flag asks
    /// for the target to be printed afterwards (the `cd -` form).
    Chdir(String, bool),
    /// `cd -` with no previous directory recorded: an error.
    CdNoPrevious,
    /// `path` without arguments: the current value of `PATH` (empty when
    /// unset).
    PathShown(String),
    /// `path DIR`: the host must check that the tilde-expanded directory
    /// exists and is a directory and, if so, call [`path_apply`].
    PathAdd(String),
    /// `path` with more than one argument: a usage error.
    PathUsage,
    /// `edit`: the host must write the text to the scratch file, run the
    /// editor on it and, if the editor succeeds, re-read the file and hand
    /// the edited line back through the dispatcher.
    Edit(String),
    /// `edit` with no argument and no prior line to edit: information only.
    EditNothing,
    /// An external command: spawn one process per stage, in order, wired
    /// as each stage says, and wait for every spawned process exactly once.
    Run(Vec<StageSpec>),
}

/// One surrounding layer of double quotes, stripped.
pub open spec fn spec_strip_quotes(v: Seq<char>) -> Seq<char> {
    if v.len() >= 2 && v[0] == '"' && v.last() == '"' {
        v.subrange(1, v.len() - 1)
    } else {
        v
    }
}

/// Strip one surrounding layer of double quotes.
fn strip_quotes(v: &Vec<char>) -> (r: Vec<char>)
    ensures
        r@ == spec_strip_quotes(v@),
{
    let n = v.len();
    if n >= 2 && v[0] == '"' && v[n - 1] == '"' {
        subrange_chars(v, 1, n - 1)
    } else {
        subrange_chars(v, 0, n)
    }
}

/// The position of the first occurrence of `c` in `s`, if any.
fn find_char(s: &str, c: char) -> (r: Option<usize>)
    ensures
        match r {
            Some(j) => spec_find(s@, 0, c) == Some(j as int),
            None => spec_find(s@, 0, c) is None,
        },
{
    let chars = str_chars(s);
    let n = chars.len();
    let mut j: usize = 0;
    while j < n && chars[j] != c
        invariant
            n == s@.len(),
            chars@ == s@,
            j <= n,
            spec_find(s@, 0, c) == spec_find(s@, j as int, c),
        decreases n - j,
    {
        j = j + 1;
    }
    if j < n {
        Some(j)
    } else {
        None
    }
}

/// The tokens joined by single spaces.
pub open spec fn spec_join(ts: Seq<Seq<char>>) -> Seq<char>
    decreases ts.len(),
{
    if ts.len() == 0 {
        Seq::empty()
    } else if ts.len() == 1 {
        ts[0]
    } else {
        spec_join(ts.drop_last()) + seq![' '] + ts.last()
    }
}

/// Join the tokens from index `from` on with single spaces.
fn join_from(toks: &Vec<String>, from: usize) -> (r: String)
    requires
        from <= toks@.len(),
    ensures
        r@ == spec_join(toks.deep_view().skip(from as int)),
{
    let n = toks.len();
    let mut out: Vec<char> = Vec::new();
    let mut i: usize = from;
    proof {
        assert(toks.deep_view().skip(from as int).take(0) =~~= Seq::<Seq<char>>::empty());
        assert(out@ =~= Seq::<char>::empty());
    }
    while i < n
        invariant
            n == toks@.len(),
            from <= i <= n,
            out@ == spec_join(toks.deep_view().skip(from as int).take(i - from)),
        decreases n - i,
    {
        if i > from {
            out.push(' ');
        }
        crate::text::append_str_chars(&mut out, toks[i].as_str());
        i = i + 1;
        proof {
            let ts = toks.deep_view().skip(from as int);
            assert(ts.take(i - from).drop_last() =~~= ts.take(i - from - 1));
            assert(ts.take(i - from).last() == toks.deep_view()[i - 1]);
            assert(toks.deep_view()[i - 1] == toks@[i - 1]@);
            if i - from == 1 {
                assert(out@ =~= spec_join(ts.take(1)));
            } else {
                assert(out@ =~= spec_join(ts.take(i - from - 1)) + seq![' '] + ts.take(
                    i - from,
                ).last());
            }
        }
    }
    proof {
        assert(toks.deep_view().skip(from as int).take(n - from) =~~= toks.deep_view().skip(
            from as int,
        ));
    }
    chars_to_string(&out)
}

/// The `;`-separated segments of one input line, each trimmed. The caller
/// dispatches each nonempty segment in order, stopping at an `exit`.
#[verifier::loop_isolation(false)]
pub fn split_segments(line: &str) -> (segs: Vec<String>)
    ensures
        segs.deep_view() == crate::pipeline::spec_split(line@, ';').map_values(
            |p: Seq<char>| crate::pipeline::spec_trim(p),
        ),
{
    let parts = crate::pipeline::split_on(line, ';');
    let n = parts.len();
    let ghost f = |p: Seq<char>| crate::pipeline::spec_trim(p);
    let mut segs: Vec<String> = Vec::new();
    let mut i: usize = 0;
    proof {
        assert(segs.deep_view() =~~= parts.deep_view().take(0).map_values(f));
    }
    while i < n
        invariant
            n == parts@.len(),
            parts.deep_view() == crate::pipeline::spec_split(line@, ';'),
            i <= n,
            segs@.len() == i,
            segs.deep_view() == parts.deep_view().take(i as int).map_values(f),
        decreases n - i,
    {
        let ghost pv = segs@;
        let ghost pdv = segs.deep_view();
        let t = crate::pipeline::trim(parts[i].as_str());
        let ghost xs = t;
        segs.push(t);
        i = i + 1;
        proof {
            assert(parts.deep_view()[i - 1] == parts@[i - 1]@);
            assert(segs@ == pv.push(xs));
            assert(pdv =~= crate::text::deep_seq(pv));
            crate::text::lemma_deep_seq_push(pv, xs);
            assert(segs.deep_view() =~= crate::text::deep_seq(pv.push(xs)));
            assert(segs.deep_view() == pdv.push(xs.deep_view()));
            assert(parts.deep_view().take(i as int).map_values(f) =~~= pdv.push(xs.deep_view()));
        }
    }
    proof {
        assert(parts.deep_view().take(n as int) =~~= parts.deep_view());
    }
    segs
}

/// The `cd` target when no argument is given: the home directory, or the
/// filesystem root when none is known.
pub open spec fn spec_home_or_root(home: Option<Seq<char>>) -> Seq<char> {
    match home {
        Some(h) => h,
        None => "/"@,
    }
}

/// The value of `PATH`, or the empty string when it is unset.
pub open spec fn spec_path_value(env: Seq<(Seq<char>, Seq<char>)>) -> Seq<char> {
    match spec_lookup(env, "PATH"@) {
        Some(v) => v,
        None => Seq::empty(),
    }
}

/// `PATH` with `dir` prepended, `:`-separated; `dir` alone when `PATH` is
/// unset or empty.
pub open spec fn spec_path_prepend(env: Seq<(Seq<char>, Seq<char>)>, dir: Seq<char>) -> Seq<char> {
    match spec_lookup(env, "PATH"@) {
        Some(p) => if p.len() > 0 {
            dir + seq![':'] + p
        } else {
            dir
        },
        None => dir,
    }
}

/// The names the dispatcher intercepts before spawning anything. `edit` is
/// a builtin only for interactive input.
pub open spec fn spec_is_builtin(name: Seq<char>, mode: Mode) -> bool {
    ||| name == "exit"@
    ||| name == "alias"@
    ||| name == "set"@
    ||| name == "cd"@
    ||| name == "path"@
    ||| (mode == Mode::Interactive && name == "edit"@)
}

/// The command vectors to spawn for an external command: when the segment
/// contains a pipe, the pipeline plan of the whole segment; otherwise the
/// single alias-expanded token vector. Empty command vectors are skipped.
pub open spec fn spec_command_stages(
    input: Seq<char>,
    toks: Seq<Seq<char>>,
    aliases: Seq<(Seq<char>, Seq<char>)>,
    env: Seq<(Seq<char>, Seq<char>)>,
    home: Option<Seq<char>>,
) -> Seq<Seq<Seq<char>>> {
    if spec_find(input, 0, '|') is Some {
        spec_nonempty(spec_plan_pipeline(input, aliases, env, home))
    } else {
        spec_nonempty(seq![crate::pipeline::spec_expand_alias(toks, aliases, env, home)])
    }
}

/// Prepend a host-validated directory to `PATH` in the session environment
/// and return the new value, which the host must mirror into the process
/// environment.
pub fn path_apply(session: &mut Session, dir: &str) -> (newpath: String)
    ensures
        newpath@ == spec_path_prepend(old(session).env@, dir@),
        final(session).env@ == spec_define(
            old(session).env@,
            "PATH"@,
            spec_path_prepend(old(session).env@, dir@),
        ),
        final(session).aliases == old(session).aliases,
        final(session).cwd == old(session).cwd,
        final(session).prev == old(session).prev,
        final(session).fallback_home == old(session).fallback_home,
{
    let current = session.env.lookup("PATH");
    let newpath = match current {
        Some(p) => {
            if p.as_str().is_empty() {
                dir.to_owned()
            } else {
                let mut out = str_chars(dir);
                out.push(':');
                crate::text::append_str_chars(&mut out, p.as_str());
                proof {
                    assert(out@ =~= dir@ + seq![':'] + p@);
                }
                chars_to_string(&out)
            }
        },
        None => dir.to_owned(),
    };
    session.env.define("PATH", newpath.as_str());
    newpath
}

/// True exactly when `s` contains `c`.
fn contains_char(s: &str, c: char) -> (r: bool)
    ensures
        r == (spec_find(s@, 0, c) is Some),
{
    match find_char(s, c) {
        Some(_) => true,
        None => false,
    }
}

/// Interpret one `;`-separated segment of input against the session.
///
/// The segment is tokenized against the session's environment and home
/// directory; an empty token list does nothing. Otherwise the first token
/// selects a builtin, or the segment becomes a spawn plan: the whole
/// segment is split on `|` when it contains one (alias expansion applied
/// per stage), else the token vector itself, alias-expanded once, is the
/// single stage.
pub fn dispatch_segment(
    session: &mut Session,
    input: &str,
    history_prev: &Option<String>,
    mode: Mode,
) -> (step: Step)
    ensures
        ({
            let env0 = old(session).env@;
            let al0 = old(session).aliases@;
            let home = old(session).spec_effective_home();
            let toks = spec_tokenize(input@, env0, home);
            let same = *final(session) == *old(session);
            let only_aliases_change = {
                &&& final(session).env == old(session).env
                &&& final(session).cwd == old(session).cwd
                &&& final(session).prev == old(session).prev
                &&& final(session).fallback_home == old(session).fallback_home
            };
            let only_env_changes = {
                &&& final(session).aliases == old(session).aliases
                &&& final(session).cwd == old(session).cwd
                &&& final(session).prev == old(session).prev
                &&& final(session).fallback_home == old(session).fallback_home
            };
            &&& (toks.len() == 0 ==> step == Step::Empty && same)
            &&& (toks.len() > 0 && toks[0] == "exit"@ ==> step == Step::Exit && same)
            &&& (toks.len() > 0 && toks[0] == "alias"@ ==> {
                if toks.len() == 1 {
                    &&& step matches Step::AliasListed(l) && l.deep_view() == al0
                    &&& same
                } else if toks.len() == 2 && spec_find(toks[1], 0, '=') is Some {
                    let e = spec_find(toks[1], 0, '=')->Some_0;
                    &&& step == Step::AliasDefined
                    &&& final(session).aliases@ == spec_define(
                        al0,
                        toks[1].take(e),
                        spec_strip_quotes(toks[1].skip(e + 1)),
                    )
                    &&& only_aliases_change
                } else {
                    step == Step::AliasUsage && same
                }
            })
            &&& (toks.len() > 0 && toks[0] == "set"@ ==> {
                if toks.len() == 1 {
                    &&& step matches Step::VarsListed(l) && l.deep_view() == env0
                    &&& same
                } else if toks.len() == 2 && spec_find(toks[1], 0, '=') is Some {
                    let e = spec_find(toks[1], 0, '=')->Some_0;
                    &&& step matches Step::VarSet(n, v) && n@ == toks[1].take(e) && v@ == toks[1]
                        .skip(e + 1)
                    &&& final(session).env@ == spec_define(
                        env0,
                        toks[1].take(e),
                        toks[1].skip(e + 1),
                    )
                    &&& only_env_changes
                } else if toks.len() == 3 {
                    &&& step matches Step::VarSet(n, v) && n@ == toks[1] && v@ == toks[2]
                    &&& final(session).env@ == spec_define(env0, toks[1], toks[2])
                    &&& only_env_changes
                } else {
                    step == Step::SetUsage && same
                }
            })
            &&& (toks.len() > 0 && toks[0] == "cd"@ ==> {
                &&& same
                &&& (if toks.len() == 1 {
                    step matches Step::Chdir(t, p) && t@ == spec_home_or_root(home) && p == false
                } else if toks[1] == "-"@ {
                    match old(session).prev {
                        Some(prevdir) => step matches Step::Chdir(t, p) && t@ == prevdir@ && p
                            == true,
                        None => step == Step::CdNoPrevious,
                    }
                } else {
                    step matches Step::Chdir(t, p) && t@ == spec_expand_tilde(toks[1], home) && p
                        == false
                })
            })
            &&& (toks.len() > 0 && toks[0] == "path"@ ==> {
                &&& same
                &&& (if toks.len() == 1 {
                    step matches Step::PathShown(p) && p@ == spec_path_value(env0)
                } else if toks.len() == 2 {
                    step matches Step::PathAdd(d) && d@ == spec_expand_tilde(toks[1], home)
                } else {
                    step == Step::PathUsage
                })
            })
            &&& (mode == Mode::Interactive && toks.len() > 0 && toks[0] == "edit"@ ==> {
                &&& same
                &&& (if toks.len() > 1 {
                    step matches Step::Edit(t) && t@ == spec_join(toks.drop_first())
                } else {
                    match *history_prev {
                        Some(h) => step matches Step::Edit(t) && t@ == h@,
                        None => step == Step::EditNothing,
                    }
                })
            })
            &&& (toks.len() > 0 && !spec_is_builtin(toks[0], mode) ==> {
                &&& same
                &&& step matches Step::Run(stages) && spec_stage_argvs(stages@)
                    == spec_command_stages(input@, toks, al0, env0, home) && spec_wiring_ok(
                    stages@,
                )
            })
        }),
{
    proof {
        reveal_strlit("exit");
        reveal_strlit("alias");
        reveal_strlit("set");
        reveal_strlit("cd");
        reveal_strlit("path");
        reveal_strlit("edit");
        reveal_strlit("-");
        assert("exit"@.len() == 4);
        assert("alias"@.len() == 5);
        assert("set"@.len() == 3);
        assert("cd"@.len() == 2);
        assert("path"@.len() == 4);
        assert("edit"@.len() == 4);
        assert("-"@.len() == 1);
        assert("exit"@ != "path"@) by {
            assert("exit"@[0] != "path"@[0]);
        }
        assert("exit"@ != "edit"@) by {
            assert("exit"@[1] != "edit"@[1]);
        }
        assert("path"@ != "edit"@) by {
            assert("path"@[0] != "edit"@[0]);
        }
    }
    let home = session.effective_home();
    let toks = crate::tokens::parse_arguments(input, &session.env, &home);
    proof {
        assert forall|k: int| 0 <= k < toks@.len() implies #[trigger] toks.deep_view()[k]
            == toks@[k]@ by {}
    }
    if toks.len() == 0 {
        return Step::Empty;
    }
    let interactive = match mode {
        Mode::Interactive => true,
        Mode::Script => false,
    };
    if str_eq(toks[0].as_str(), "exit") {
        return Step::Exit;
    }
    if str_eq(toks[0].as_str(), "alias") {
        if toks.len() == 2 {
            match find_char(toks[1].as_str(), '=') {
                Some(e) => {
                    proof {
                        crate::tokens::lemma_find_range(toks@[1]@, 0, '=');
                    }
                    let chars = str_chars(toks[1].as_str());
                    let name = subrange_chars(&chars, 0, e);
                    let raw_value = tail_chars(&chars, e + 1);
                    let value = strip_quotes(&raw_value);
                    let name_string = chars_to_string(&name);
                    let value_string = chars_to_string(&value);
                    session.aliases.define(name_string.as_str(), value_string.as_str());
                    proof {
                        assert(name_string@ =~= toks.deep_view()[1].take(e as int));
                    }
                    return Step::AliasDefined;
                },
                None => {
                    return Step::AliasUsage;
                },
            }
        }
        if toks.len() == 1 {
            return Step::AliasListed(session.aliases.list());
        }
        return Step::AliasUsage;
    }
    if str_eq(toks[0].as_str(), "set") {
        if toks.len() == 1 {
            return Step::VarsListed(session.env.list());
        }
        if toks.len() == 2 {
            match find_char(toks[1].as_str(), '=') {
                Some(e) => {
                    proof {
                        crate::tokens::lemma_find_range(toks@[1]@, 0, '=');
                    }
                    let chars = str_chars(toks[1].as_str());
                    let name = subrange_chars(&chars, 0, e);
                    let value = tail_chars(&chars, e + 1);
                    let name_string = chars_to_string(&name);
                    let value_string = chars_to_string(&value);
                    session.env.define(name_string.as_str(), value_string.as_str());
                    proof {
                        assert(name_string@ =~= toks.deep_view()[1].take(e as int));
                    }
                    return Step::VarSet(name_string, value_string);
                },
                None => {
                    return Step::SetUsage;
                },
            }
        }
        if toks.len() == 3 {
            session.env.define(toks[1].as_str(), toks[2].as_str());
            return Step::VarSet(toks[1].clone(), toks[2].clone());
        }
        return Step::SetUsage;
    }
    if str_eq(toks[0].as_str(), "cd") {
        if toks.len() == 1 {
            let target = match &home {
                Some(h) => h.clone(),
                None => "/".to_owned(),
            };
            return Step::Chdir(target, false);
        }
        if str_eq(toks[1].as_str(), "-") {
            return match &session.prev {
                Some(p) => Step::Chdir(p.clone(), true),
                None => Step::CdNoPrevious,
            };
        }
        let target = crate::tokens::expand_tilde_with(toks[1].as_str(), &home);
        return Step::Chdir(target, false);
    }
    if str_eq(toks[0].as_str(), "path") {
        if toks.len() == 1 {
            let value = match session.env.lookup("PATH") {
                Some(v) => v,
                None => String::new(),
            };
            return Step::PathShown(value);
        }
        if toks.len() == 2 {
            let dir = crate::tokens::expand_tilde_with(toks[1].as_str(), &home);
            return Step::PathAdd(dir);
        }
        return Step::PathUsage;
    }
    if interactive && str_eq(toks[0].as_str(), "edit") {
        if toks.len() > 1 {
            let text = join_from(&toks, 1);
            proof {
                assert(toks.deep_view().skip(1) =~~= toks.deep_view().drop_first());
            }
            return Step::Edit(text);
        }
        return match history_prev {
            Some(h) => Step::Edit(h.clone()),
            None => Step::EditNothing,
        };
    }
    let stages = if contains_char(input, '|') {
        let cmds = plan_pipeline(input, &session.aliases, &session.env, &home);
        plan_stages(&cmds)
    } else {
        let one = crate::pipeline::expand_alias(&toks, &session.aliases, &session.env, &home);
        let mut cmds: Vec<Vec<String>> = Vec::new();
        cmds.push(one);
        proof {
            assert(cmds.deep_view() =~~= seq![
                crate::pipeline::spec_expand_alias(
                    toks.deep_view(),
                    session.aliases@,
                    session.env@,
                    home.deep_view(),
                ),
            ]);
        }
        plan_stages(&cmds)
    };
    Step::Run(stages)
}

} // verus!
