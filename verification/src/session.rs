//! The interpreter's long-lived state: current and previous working
//! directory, environment variables and alias definitions. The surrounding
//! program keeps this state in step with the process: it seeds the
//! environment table from the process environment at startup, mirrors every
//! change back, and only records a directory change here after the real
//! change of working directory succeeded.

use vstd::prelude::*;
use crate::table::{Table, spec_lookup};
use crate::text::{append_chars, chars_to_string, is_prefix_of, str_chars, str_eq, str_starts_with, tail_chars};

verus! {

/// The session: working directory, one step of directory history, the
/// environment and the alias table, plus the home directory the host
/// reported at startup (used when the `HOME` variable is unset or empty).
pub struct Session {
    pub cwd: String,
    pub prev: Option<String>,
    pub env: Table,
    pub aliases: Table,
    pub fallback_home: Option<String>,
}

/// The effective home directory: the `HOME` environment variable when set
/// and non-empty, otherwise the host-reported fallback.
pub open spec fn spec_home(
    env: Seq<(Seq<char>, Seq<char>)>,
    fallback: Option<Seq<char>>,
) -> Option<Seq<char>> {
    match spec_lookup(env, "HOME"@) {
        Some(v) => if v.len() > 0 {
            Some(v)
        } else {
            fallback
        },
        None => fallback,
    }
}

/// Directory state after a successful change to `target`: the new current
/// directory is `target` and the directory just vacated becomes the
/// previous one, replacing any older history.
pub open spec fn spec_cd(
    cwd: Seq<char>,
    prev: Option<Seq<char>>,
    target: Seq<char>,
) -> (Seq<char>, Option<Seq<char>>) {
    (target, Some(cwd))
}

/// `cd -` round trip: starting in directory `a`, after changing to `b` a
/// change to the recorded previous directory returns to `a`, and a further
/// one returns to `b`. The previous-directory model keeps exactly one step
/// of history: no older directory than the one just vacated is reachable.
pub proof fn lemma_cd_dash_round_trip(a: Seq<char>, prev0: Option<Seq<char>>, b: Seq<char>)
    ensures
        ({
            let s1 = spec_cd(a, prev0, b);
            let s2 = spec_cd(s1.0, s1.1, s1.1->Some_0);
            let s3 = spec_cd(s2.0, s2.1, s2.1->Some_0);
            &&& s1.1 == Some(a)
            &&& s2.0 == a
            &&& s2.1 == Some(b)
            &&& s3.0 == b
            &&& s3.1 == Some(a)
        }),
{
}

impl Session {
    /// A fresh session in directory `cwd`, with empty environment and alias
    /// tables.
    pub fn new(cwd: &str, fallback_home: Option<String>) -> (s: Session)
        ensures
            s.cwd@ == cwd@,
            s.prev is None,
            s.env@ == Seq::<(Seq<char>, Seq<char>)>::empty(),
            s.aliases@ == Seq::<(Seq<char>, Seq<char>)>::empty(),
            s.fallback_home == fallback_home,
    {
        Session {
            cwd: cwd.to_owned(),
            prev: None,
            env: Table::new(),
            aliases: Table::new(),
            fallback_home,
        }
    }

    /// The effective home directory of this session.
    pub open spec fn spec_effective_home(&self) -> Option<Seq<char>> {
        spec_home(self.env@, self.fallback_home.deep_view())
    }

    /// The effective home directory: `HOME` when set and non-empty, else the
    /// host-reported fallback.
    pub fn effective_home(&self) -> (r: Option<String>)
        ensures
            r.deep_view() == self.spec_effective_home(),
    {
        match self.env.lookup("HOME") {
            Some(v) => {
                if v.as_str().is_empty() {
                    self.fallback_home.clone()
                } else {
                    Some(v)
                }
            },
            None => self.fallback_home.clone(),
        }
    }

    /// Record a successful directory change: the current directory becomes
    /// `target` and the vacated one becomes the previous directory. Nothing
    /// else changes.
    pub fn cd_apply(&mut self, target: &str)
        ensures
            (final(self).cwd@, final(self).prev.deep_view()) == spec_cd(
                old(self).cwd@,
                old(self).prev.deep_view(),
                target@,
            ),
            final(self).env == old(self).env,
            final(self).aliases == old(self).aliases,
            final(self).fallback_home == old(self).fallback_home,
    {
        let vacated = self.cwd.clone();
        self.cwd = target.to_owned();
        self.prev = Some(vacated);
    }
}

/// How the prompt shows `cwd`: `~` for the home directory itself, a
/// `~/`-relative form with a trailing slash for directories below it, and
/// the plain path with a trailing slash otherwise.
pub open spec fn spec_display_dir(cwd: Seq<char>, home: Option<Seq<char>>) -> Seq<char> {
    match home {
        Some(h) => if cwd == h {
            seq!['~']
        } else if is_prefix_of(h + seq!['/'], cwd) {
            seq!['~', '/'] + cwd.skip(h.len() as int + 1) + seq!['/']
        } else {
            cwd + seq!['/']
        },
        None => cwd + seq!['/'],
    }
}

/// The prompt's rendering of the current directory.
pub fn display_dir(cwd: &str, home: &Option<String>) -> (r: String)
    ensures
        r@ == spec_display_dir(cwd@, home.deep_view()),
{
    match home {
        Some(h) => {
            if str_eq(cwd, h.as_str()) {
                let mut out: Vec<char> = Vec::new();
                out.push('~');
                proof {
                    assert(out@ =~= seq!['~']);
                }
                chars_to_string(&out)
            } else {
                let mut prefix = str_chars(h.as_str());
                prefix.push('/');
                proof {
                    assert(prefix@ =~= h@ + seq!['/']);
                }
                let prefix_string = chars_to_string(&prefix);
                if str_starts_with(cwd, prefix_string.as_str()) {
                    let cwd_chars = str_chars(cwd);
                    let mut out: Vec<char> = Vec::new();
                    out.push('~');
                    out.push('/');
                    let rest = tail_chars(&cwd_chars, prefix.len());
                    append_chars(&mut out, &rest);
                    out.push('/');
                    proof {
                        assert(out@ =~= seq!['~', '/'] + cwd@.skip(h@.len() as int + 1) + seq!['/']);
                    }
                    chars_to_string(&out)
                } else {
                    let mut out = str_chars(cwd);
                    out.push('/');
                    proof {
                        assert(out@ =~= cwd@ + seq!['/']);
                    }
                    chars_to_string(&out)
                }
            }
        },
        None => {
            let mut out = str_chars(cwd);
            out.push('/');
            proof {
                assert(out@ =~= cwd@ + seq!['/']);
            }
            chars_to_string(&out)
        },
    }
}

} // verus!
