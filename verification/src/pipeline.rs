//! Pipeline planning: splitting a line on separators, trimming segments,
//! expanding the leading alias of a command vector, and turning a sequence
//! of command vectors into a spawn plan that says, for every stage, where
//! its standard input comes from and whether its standard output is piped
//! onward. The surrounding program spawns one process per planned stage, in
//! order, and waits for each spawned process exactly once.

use vstd::prelude::*;
use crate::table::{Table, spec_lookup};
use crate::text::{append_strings_from, chars_to_string, clone_strings, deep_seq, lemma_deep_seq_push, str_chars, subrange_chars};
use crate::tokens::spec_tokenize;

verus! {

/// The segments of `s` between occurrences of `sep`, from position `i` on,
/// with `cur` the segment collected so far. Empty segments are kept, so a
/// string with `n` separators yields `n + 1` segments.
pub open spec fn spec_split_from(s: Seq<char>, sep: char, i: int, cur: Seq<char>) -> Seq<Seq<char>>
    decreases s.len() - i,
    when 0 <= i <= s.len()
{
    if i >= s.len() {
        seq![cur]
    } else if s[i] == sep {
        seq![cur] + spec_split_from(s, sep, i + 1, seq![])
    } else {
        spec_split_from(s, sep, i + 1, cur.push(s[i]))
    }
}

/// The segments of `s` between occurrences of `sep`.
pub open spec fn spec_split(s: Seq<char>, sep: char) -> Seq<Seq<char>> {
    spec_split_from(s, sep, 0, seq![])
}

/// Split `s` at every occurrence of `sep`, keeping empty segments.
pub fn split_on(s: &str, sep: char) -> (segs: Vec<String>)
    ensures
        segs.deep_view() == spec_split(s@, sep),
{
    let chars = str_chars(s);
    let n = chars.len();
    let mut segs: Vec<String> = Vec::new();
    let mut cur: Vec<char> = Vec::new();
    let mut i: usize = 0;
    proof {
        assert(cur@ =~= Seq::<char>::empty());
        assert(segs.deep_view() =~~= Seq::<Seq<char>>::empty());
    }
    while i < n
        invariant
            n == s@.len(),
            chars@ == s@,
            i <= n,
            spec_split(s@, sep) == segs.deep_view() + spec_split_from(s@, sep, i as int, cur@),
        decreases n - i,
    {
        let c = chars[i];
        if c == sep {
            let seg = chars_to_string(&cur);
            segs.push(seg);
            proof {
                let rest = spec_split_from(s@, sep, i + 1, seq![]);
                assert(segs.deep_view() =~~= segs.deep_view().drop_last().push(cur@));
                assert(segs.deep_view().drop_last() + (seq![cur@] + rest) =~~= segs.deep_view()
                    + rest);
            }
            cur = Vec::new();
            proof {
                assert(cur@ =~= Seq::<char>::empty());
            }
        } else {
            cur.push(c);
        }
        i = i + 1;
    }
    let seg = chars_to_string(&cur);
    segs.push(seg);
    proof {
        assert(spec_split_from(s@, sep, n as int, cur@) == seq![cur@]);
        assert(segs.deep_view() =~~= segs.deep_view().drop_last() + seq![cur@]);
        assert(segs.deep_view() =~~= spec_split(s@, sep));
    }
    segs
}

/// A blank for the purposes of trimming a segment.
pub open spec fn is_trim_char(c: char) -> bool {
    c == ' ' || c == '\t' || c == '\r' || c == '\n'
}

/// `s` without its leading blanks.
pub open spec fn spec_trim_front(s: Seq<char>) -> Seq<char>
    decreases s.len(),
{
    if s.len() > 0 && is_trim_char(s[0]) {
        spec_trim_front(s.drop_first())
    } else {
        s
    }
}

/// `s` without its trailing blanks.
pub open spec fn spec_trim_back(s: Seq<char>) -> Seq<char>
    decreases s.len(),
{
    if s.len() > 0 && is_trim_char(s.last()) {
        spec_trim_back(s.drop_last())
    } else {
        s
    }
}

/// `s` without leading and trailing blanks.
pub open spec fn spec_trim(s: Seq<char>) -> Seq<char> {
    spec_trim_back(spec_trim_front(s))
}

/// True exactly when `c` is a blank for trimming.
fn trim_char(c: char) -> (r: bool)
    ensures
        r == is_trim_char(c),
{
    c == ' ' || c == '\t' || c == '\r' || c == '\n'
}

/// `s` without leading and trailing blanks.
pub fn trim(s: &str) -> (r: String)
    ensures
        r@ == spec_trim(s@),
{
    let chars = str_chars(s);
    let n = chars.len();
    let mut a: usize = 0;
    proof {
        assert(s@.skip(0) =~= s@);
    }
    while a < n && trim_char(chars[a])
        invariant
            n == s@.len(),
            chars@ == s@,
            a <= n,
            spec_trim_front(s@) == spec_trim_front(s@.skip(a as int)),
        decreases n - a,
    {
        proof {
            assert(s@.skip(a as int).drop_first() =~= s@.skip(a + 1));
        }
        a = a + 1;
    }
    proof {
        assert(spec_trim_front(s@.skip(a as int)) == s@.skip(a as int));
        assert(s@.skip(a as int) =~= s@.subrange(a as int, n as int));
    }
    let mut b: usize = n;
    while b > a && trim_char(chars[b - 1])
        invariant
            n == s@.len(),
            chars@ == s@,
            a <= b <= n,
            spec_trim_back(s@.subrange(a as int, n as int)) == spec_trim_back(
                s@.subrange(a as int, b as int),
            ),
        decreases b,
    {
        proof {
            assert(s@.subrange(a as int, b as int).last() == s@[b - 1]);
            assert(s@.subrange(a as int, b as int).drop_last() =~= s@.subrange(
                a as int,
                b - 1,
            ));
        }
        b = b - 1;
    }
    proof {
        assert(spec_trim_back(s@.subrange(a as int, b as int)) == s@.subrange(a as int, b as int));
    }
    let out = subrange_chars(&chars, a, b);
    chars_to_string(&out)
}

/// Alias expansion, applied exactly once: when the first token of a command
/// vector is an alias, the alias's replacement text is re-tokenized and
/// splices in place of that first token, and the remaining tokens follow
/// unchanged. The result is not expanded again, so an alias whose expansion
/// begins with another alias name (or with itself) still expands only once
/// per invocation.
pub open spec fn spec_expand_alias(
    toks: Seq<Seq<char>>,
    aliases: Seq<(Seq<char>, Seq<char>)>,
    env: Seq<(Seq<char>, Seq<char>)>,
    home: Option<Seq<char>>,
) -> Seq<Seq<char>> {
    if toks.len() > 0 {
        match spec_lookup(aliases, toks[0]) {
            Some(rep) => spec_tokenize(rep, env, home) + toks.drop_first(),
            None => toks,
        }
    } else {
        toks
    }
}

/// Expand the leading alias of `toks`, exactly once.
pub fn expand_alias(
    toks: &Vec<String>,
    aliases: &Table,
    env: &Table,
    home: &Option<String>,
) -> (r: Vec<String>)
    ensures
        r.deep_view() == spec_expand_alias(toks.deep_view(), aliases@, env@, home.deep_view()),
{
    if toks.len() == 0 {
        return clone_strings(toks);
    }
    match aliases.lookup(toks[0].as_str()) {
        Some(rep) => {
            let mut r = crate::tokens::parse_arguments(rep.as_str(), env, home);
            append_strings_from(&mut r, toks, 1);
            proof {
                assert(toks.deep_view().skip(1) =~~= toks.deep_view().drop_first());
            }
            r
        },
        None => clone_strings(toks),
    }
}

/// Alias expansion happens exactly once per invocation: whenever the first
/// token of a command vector is an alias, the result is precisely the
/// re-tokenized replacement followed by the remaining tokens — whatever the
/// result's own first token is. In particular an alias whose replacement
/// begins with another alias name (or with its own) is not expanded again.
pub proof fn lemma_alias_expanded_once(
    toks: Seq<Seq<char>>,
    aliases: Seq<(Seq<char>, Seq<char>)>,
    env: Seq<(Seq<char>, Seq<char>)>,
    home: Option<Seq<char>>,
)
    requires
        toks.len() > 0,
        spec_lookup(aliases, toks[0]) is Some,
    ensures
        spec_expand_alias(toks, aliases, env, home) == spec_tokenize(
            spec_lookup(aliases, toks[0])->Some_0,
            env,
            home,
        ) + toks.drop_first(),
{
}

/// The command vectors of a pipeline: the input split on `|`, each segment
/// trimmed, tokenized, and alias-expanded once. One command vector per
/// segment, in left-to-right pipe order; segments that tokenize to nothing
/// yield empty command vectors, which the stage plan skips.
pub open spec fn spec_plan_pipeline(
    input: Seq<char>,
    aliases: Seq<(Seq<char>, Seq<char>)>,
    env: Seq<(Seq<char>, Seq<char>)>,
    home: Option<Seq<char>>,
) -> Seq<Seq<Seq<char>>> {
    spec_split(input, '|').map_values(
        |part: Seq<char>| spec_expand_alias(spec_tokenize(spec_trim(part), env, home), aliases, env, home),
    )
}

/// Split `input` on `|` and tokenize and alias-expand each segment.
#[verifier::loop_isolation(false)]
pub fn plan_pipeline(
    input: &str,
    aliases: &Table,
    env: &Table,
    home: &Option<String>,
) -> (cmds: Vec<Vec<String>>)
    ensures
        cmds.deep_view() == spec_plan_pipeline(input@, aliases@, env@, home.deep_view()),
        cmds.deep_view().len() == spec_split(input@, '|').len(),
{
    let parts = split_on(input, '|');
    let n = parts.len();
    let ghost f = |part: Seq<char>| spec_expand_alias(
        spec_tokenize(spec_trim(part), env@, home.deep_view()),
        aliases@,
        env@,
        home.deep_view(),
    );
    let mut cmds: Vec<Vec<String>> = Vec::new();
    let mut i: usize = 0;
    proof {
        assert(cmds.deep_view() =~~= parts.deep_view().take(0).map_values(f));
    }
    while i < n
        invariant
            n == parts@.len(),
            parts.deep_view() == spec_split(input@, '|'),
            i <= n,
            cmds@.len() == i,
            cmds.deep_view() == parts.deep_view().take(i as int).map_values(f),
        decreases n - i,
    {
        let ghost pv = cmds@;
        let ghost pdv = cmds.deep_view();
        let trimmed = trim(parts[i].as_str());
        let toks = crate::tokens::parse_arguments(trimmed.as_str(), env, home);
        let expanded = expand_alias(&toks, aliases, env, home);
        let ghost xs = expanded;
        cmds.push(expanded);
        i = i + 1;
        proof {
            assert(parts.deep_view()[i - 1] == parts@[i - 1]@);
            assert(xs.deep_view() == f(parts.deep_view()[i - 1]));
            assert(cmds@ == pv.push(xs));
            assert(pdv =~= deep_seq(pv));
            lemma_deep_seq_push(pv, xs);
            assert(cmds.deep_view() =~= deep_seq(pv.push(xs)));
            assert(cmds.deep_view() == pdv.push(xs.deep_view()));
            assert(parts.deep_view().take(i as int).map_values(f) =~~= pdv.push(
                xs.deep_view(),
            ));
        }
    }
    proof {
        assert(parts.deep_view().take(n as int) =~~= parts.deep_view());
        assert(cmds.deep_view() =~~= spec_plan_pipeline(input@, aliases@, env@, home.deep_view()));
    }
    cmds
}

/// One stage of a spawn plan: the command vector to spawn, whether its
/// standard input is the previous stage's piped output (the first stage
/// inherits the caller's input instead), and whether its standard output is
/// piped to the next stage (the last stage inherits the caller's output).
/// Standard error always inherits.
pub struct StageSpec {
    pub argv: Vec<String>,
    pub stdin_from_prev: bool,
    pub stdout_piped: bool,
}

/// The nonempty command vectors of `cmds`, in order.
pub open spec fn spec_nonempty(cmds: Seq<Seq<Seq<char>>>) -> Seq<Seq<Seq<char>>>
    decreases cmds.len(),
{
    if cmds.len() == 0 {
        seq![]
    } else if cmds.last().len() > 0 {
        spec_nonempty(cmds.drop_last()).push(cmds.last())
    } else {
        spec_nonempty(cmds.drop_last())
    }
}

/// No more stages are planned than command vectors were given.
pub proof fn lemma_stage_count_bound(cmds: Seq<Seq<Seq<char>>>)
    ensures
        spec_nonempty(cmds).len() <= cmds.len(),
    decreases cmds.len(),
{
    if cmds.len() > 0 {
        lemma_stage_count_bound(cmds.drop_last());
    }
}

/// When no command vector is empty, exactly one stage is planned per
/// command vector: for `n` pipe-separated commands, `n` processes.
pub proof fn lemma_stage_count_exact(cmds: Seq<Seq<Seq<char>>>)
    requires
        forall|i: int| 0 <= i < cmds.len() ==> cmds[i].len() > 0,
    ensures
        spec_nonempty(cmds) == cmds,
    decreases cmds.len(),
{
    if cmds.len() > 0 {
        lemma_stage_count_exact(cmds.drop_last());
        assert(spec_nonempty(cmds) =~~= cmds);
    }
}

/// The command vectors of a stage plan, in spawn order.
pub open spec fn spec_stage_argvs(stages: Seq<StageSpec>) -> Seq<Seq<Seq<char>>> {
    Seq::new(stages.len(), |i: int| stages[i].argv.deep_view())
}

/// The stream wiring of a stage plan: the first stage inherits the caller's
/// standard input and every later one reads the previous stage's pipe; every
/// stage but the last pipes its standard output onward.
pub open spec fn spec_wiring_ok(stages: Seq<StageSpec>) -> bool {
    forall|i: int|
        0 <= i < stages.len() ==> (#[trigger] stages[i]).stdin_from_prev == (i > 0)
            && stages[i].stdout_piped == (i + 1 < stages.len())
}

/// For `n` pipe-separated segments the pipeline plans one command vector
/// per segment, and one process is spawned per nonempty command vector:
/// exactly `n` when no segment is empty, fewer when some are, never more.
pub proof fn lemma_pipeline_process_count(
    input: Seq<char>,
    aliases: Seq<(Seq<char>, Seq<char>)>,
    env: Seq<(Seq<char>, Seq<char>)>,
    home: Option<Seq<char>>,
)
    ensures
        ({
            let plan = spec_plan_pipeline(input, aliases, env, home);
            let stages = spec_nonempty(plan);
            &&& plan.len() == spec_split(input, '|').len()
            &&& stages.len() <= plan.len()
            &&& ((forall|i: int| 0 <= i < plan.len() ==> (#[trigger] plan[i]).len() > 0)
                ==> stages == plan)
        }),
{
    let plan = spec_plan_pipeline(input, aliases, env, home);
    lemma_stage_count_bound(plan);
    if forall|i: int| 0 <= i < plan.len() ==> (#[trigger] plan[i]).len() > 0 {
        lemma_stage_count_exact(plan);
    }
}

/// Plan the spawn of a pipeline: one stage per nonempty command vector, in
/// order. Stage 0 inherits the caller's standard input and every later
/// stage reads the previous stage's piped output; every stage but the last
/// pipes its standard output onward.
pub fn plan_stages(cmds: &Vec<Vec<String>>) -> (stages: Vec<StageSpec>)
    ensures
        spec_stage_argvs(stages@) == spec_nonempty(cmds.deep_view()),
        spec_wiring_ok(stages@),
{
    let n = cmds.len();
    let mut argvs: Vec<Vec<String>> = Vec::new();
    let mut i: usize = 0;
    proof {
        assert(argvs.deep_view() =~~= spec_nonempty(cmds.deep_view().take(0)));
    }
    while i < n
        invariant
            n == cmds@.len(),
            i <= n,
            argvs.deep_view() == spec_nonempty(cmds.deep_view().take(i as int)),
        decreases n - i,
    {
        let ghost pv = argvs@;
        let ghost pdv = argvs.deep_view();
        let mut pushed: bool = false;
        let ghost mut xs = argvs@;
        if cmds[i].len() > 0 {
            let copy = clone_strings(&cmds[i]);
            proof {
                xs = pv.push(copy);
            }
            argvs.push(copy);
            pushed = true;
        }
        i = i + 1;
        proof {
            assert(cmds.deep_view().take(i as int).drop_last() =~~= cmds.deep_view().take(
                i - 1,
            ));
            assert(cmds.deep_view().take(i as int).last() == cmds.deep_view()[i - 1]);
            assert(cmds.deep_view()[i - 1] == cmds@[i - 1].deep_view());
            if pushed {
                let x = argvs@.last();
                assert(argvs@ == pv.push(x));
                assert(x.deep_view() == cmds.deep_view()[i - 1]);
                assert(pdv =~= deep_seq(pv));
                lemma_deep_seq_push(pv, x);
                assert(argvs.deep_view() =~= deep_seq(pv.push(x)));
                assert(argvs.deep_view() == pdv.push(x.deep_view()));
                assert(spec_nonempty(cmds.deep_view().take(i as int)) == pdv.push(
                    x.deep_view(),
                ));
            } else {
                assert(cmds.deep_view()[i - 1].len() == 0);
                assert(spec_nonempty(cmds.deep_view().take(i as int)) == pdv);
            }
        }
    }
    proof {
        assert(cmds.deep_view().take(n as int) =~~= cmds.deep_view());
    }
    let m = argvs.len();
    let mut stages: Vec<StageSpec> = Vec::new();
    let mut j: usize = 0;
    while j < m
        invariant
            m == argvs@.len(),
            j <= m,
            argvs.deep_view() == spec_nonempty(cmds.deep_view()),
            stages@.len() == j,
            forall|k: int|
                0 <= k < j ==> #[trigger] stages@[k].argv.deep_view() == argvs.deep_view()[k],
            forall|k: int| 0 <= k < j ==> #[trigger] stages@[k].stdin_from_prev == (k > 0),
            forall|k: int| 0 <= k < j ==> #[trigger] stages@[k].stdout_piped == (k + 1 < m),
        decreases m - j,
    {
        let ghost pre = stages@;
        let argv = clone_strings(&argvs[j]);
        proof {
            assert(argv.deep_view() == argvs.deep_view()[j as int]);
        }
        let stage = StageSpec {
            argv,
            stdin_from_prev: j > 0,
            stdout_piped: j + 1 < m,
        };
        stages.push(stage);
        j = j + 1;
        proof {
            assert forall|k: int|
                0 <= k < j implies #[trigger] stages@[k].argv.deep_view()
                == argvs.deep_view()[k] by {
                if k < j - 1 {
                    assert(stages@[k] == pre[k]);
                }
            }
        }
    }
    proof {
        assert(spec_stage_argvs(stages@) =~~= spec_nonempty(cmds.deep_view()));
    }
    stages
}

} // verus!
