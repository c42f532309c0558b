//! The completion engine. Given the line and cursor position it decides
//! whether the first word or a later word is being completed; the
//! surrounding program supplies the raw material (executable names found on
//! the search path, directory listings) as plain values, and the functions
//! here filter by prefix, build display and replacement texts, and sort.

use vstd::prelude::*;
use crate::text::{
    chars_to_string, deep_seq, is_prefix_of, lemma_deep_seq_push, lex_le, lex_lt, str_chars,
    str_eq, str_le, str_starts_with, subrange_chars, tail_chars,
};
use crate::tokens::is_blank;

verus! {

/// One completion candidate: the text shown in the candidate list, the
/// text that replaces the partial word when accepted, and whether the
/// candidate is a builtin name (shown differently).
pub struct Candidate {
    pub display: String,
    pub replacement: String,
    pub is_builtin: bool,
}

/// The mathematical value of a [`Candidate`].
pub struct CandidateView {
    pub display: Seq<char>,
    pub replacement: Seq<char>,
    pub is_builtin: bool,
}

impl View for Candidate {
    type V = CandidateView;

    open spec fn view(&self) -> CandidateView {
        CandidateView {
            display: self.display@,
            replacement: self.replacement@,
            is_builtin: self.is_builtin,
        }
    }
}

impl DeepView for Candidate {
    type V = CandidateView;

    open spec fn deep_view(&self) -> CandidateView {
        self@
    }
}

/// The builtin command names offered by completion.
pub open spec fn spec_builtin_names() -> Seq<Seq<char>> {
    seq!["cd"@, "edit"@, "exit"@, "alias"@, "set"@, "path"@]
}

/// The builtin command names offered by completion.
pub fn builtin_names() -> (r: Vec<String>)
    ensures
        r.deep_view() == spec_builtin_names(),
{
    let mut r: Vec<String> = Vec::new();
    r.push("cd".to_owned());
    r.push("edit".to_owned());
    r.push("exit".to_owned());
    r.push("alias".to_owned());
    r.push("set".to_owned());
    r.push("path".to_owned());
    proof {
        assert(r.deep_view() =~~= spec_builtin_names());
    }
    r
}

/// The names with the given prefix, in their original order.
pub open spec fn spec_prefixed(names: Seq<Seq<char>>, p: Seq<char>) -> Seq<Seq<char>>
    decreases names.len(),
{
    if names.len() == 0 {
        seq![]
    } else if is_prefix_of(p, names.last()) {
        spec_prefixed(names.drop_last(), p).push(names.last())
    } else {
        spec_prefixed(names.drop_last(), p)
    }
}

/// Candidates for a list of plain names, all displayed and replaced by the
/// name itself.
pub open spec fn spec_name_cands(names: Seq<Seq<char>>, builtin: bool) -> Seq<CandidateView> {
    Seq::new(
        names.len(),
        |i: int|
            CandidateView { display: names[i], replacement: names[i], is_builtin: builtin },
    )
}

/// First-word candidates: every builtin name with the given prefix, in the
/// fixed builtin order, followed by every supplied search-path command with
/// the prefix, in the order supplied (the caller passes them sorted and
/// deduplicated).
#[verifier::loop_isolation(false)]
pub fn first_word_candidates(prefix: &str, path_cmds: &Vec<String>) -> (r: Vec<Candidate>)
    ensures
        r.deep_view() == spec_name_cands(spec_prefixed(spec_builtin_names(), prefix@), true)
            + spec_name_cands(spec_prefixed(path_cmds.deep_view(), prefix@), false),
{
    let builtins = builtin_names();
    let mut r: Vec<Candidate> = Vec::new();
    let nb = builtins.len();
    let mut i: usize = 0;
    proof {
        assert(r.deep_view() =~~= spec_name_cands(
            spec_prefixed(spec_builtin_names().take(0), prefix@),
            true,
        ));
    }
    while i < nb
        invariant
            nb == builtins@.len(),
            builtins.deep_view() == spec_builtin_names(),
            i <= nb,
            r.deep_view() == spec_name_cands(
                spec_prefixed(spec_builtin_names().take(i as int), prefix@),
                true,
            ),
        decreases nb - i,
    {
        let ghost pv = r@;
        let ghost pdv = r.deep_view();
        proof {
            assert(spec_builtin_names().take(i + 1).drop_last() =~~= spec_builtin_names().take(
                i as int,
            ));
            assert(spec_builtin_names().take(i + 1).last() == builtins.deep_view()[i as int]);
            assert(builtins.deep_view()[i as int] == builtins@[i as int]@);
        }
        if str_starts_with(builtins[i].as_str(), prefix) {
            let name = builtins[i].clone();
            let replacement = builtins[i].clone();
            let cand = Candidate { display: name, replacement, is_builtin: true };
            let ghost cv = cand;
            r.push(cand);
            proof {
                assert(r@ == pv.push(cv));
                assert(pdv =~= deep_seq(pv));
                lemma_deep_seq_push(pv, cv);
                assert(r.deep_view() =~= deep_seq(pv.push(cv)));
                assert(r.deep_view() == pdv.push(cv.deep_view()));
                assert(spec_name_cands(
                    spec_prefixed(spec_builtin_names().take(i + 1), prefix@),
                    true,
                ) =~~= pdv.push(cv.deep_view()));
            }
        }
        i = i + 1;
    }
    proof {
        assert(spec_builtin_names().take(nb as int) =~~= spec_builtin_names());
    }
    let ghost base = r.deep_view();
    let np = path_cmds.len();
    let mut j: usize = 0;
    proof {
        assert(base + spec_name_cands(
            spec_prefixed(path_cmds.deep_view().take(0), prefix@),
            false,
        ) =~~= base);
    }
    while j < np
        invariant
            np == path_cmds@.len(),
            j <= np,
            base == spec_name_cands(spec_prefixed(spec_builtin_names(), prefix@), true),
            r.deep_view() == base + spec_name_cands(
                spec_prefixed(path_cmds.deep_view().take(j as int), prefix@),
                false,
            ),
        decreases np - j,
    {
        let ghost pv = r@;
        let ghost pdv = r.deep_view();
        proof {
            assert(path_cmds.deep_view().take(j + 1).drop_last() =~~= path_cmds.deep_view().take(
                j as int,
            ));
            assert(path_cmds.deep_view().take(j + 1).last() == path_cmds.deep_view()[j as int]);
            assert(path_cmds.deep_view()[j as int] == path_cmds@[j as int]@);
        }
        if str_starts_with(path_cmds[j].as_str(), prefix) {
            let name = path_cmds[j].clone();
            let replacement = path_cmds[j].clone();
            let cand = Candidate { display: name, replacement, is_builtin: false };
            let ghost cv = cand;
            r.push(cand);
            proof {
                assert(r@ == pv.push(cv));
                assert(pdv =~= deep_seq(pv));
                lemma_deep_seq_push(pv, cv);
                assert(r.deep_view() =~= deep_seq(pv.push(cv)));
                assert(r.deep_view() == pdv.push(cv.deep_view()));
                assert(base + spec_name_cands(
                    spec_prefixed(path_cmds.deep_view().take(j + 1), prefix@),
                    false,
                ) =~~= pdv.push(cv.deep_view()));
            }
        }
        j = j + 1;
    }
    proof {
        assert(path_cmds.deep_view().take(np as int) =~~= path_cmds.deep_view());
    }
    r
}

/// What completion is asked for: the first word of the line (a command
/// name), or a later word (a filename), each with the character position
/// where the replacement starts.
pub enum Query {
    FirstWord { start: usize, prefix: String },
    Filename { start: usize, partial: String },
}

/// `s` without its leading blanks.
pub open spec fn spec_after_blanks(s: Seq<char>) -> Seq<char>
    decreases s.len(),
{
    if s.len() > 0 && is_blank(s[0]) {
        spec_after_blanks(s.drop_first())
    } else {
        s
    }
}

/// Some character of `s` is a blank.
pub open spec fn spec_has_blank(s: Seq<char>) -> bool {
    exists|j: int| 0 <= j < s.len() && is_blank(#[trigger] s[j])
}

/// The position of the last occurrence of `c` in `s`, if any.
pub open spec fn spec_rfind(s: Seq<char>, c: char) -> Option<int>
    decreases s.len(),
{
    if s.len() == 0 {
        None
    } else if s.last() == c {
        Some(s.len() - 1)
    } else {
        spec_rfind(s.drop_last(), c)
    }
}

/// Where the word under the cursor starts: one past the last space, or the
/// beginning of the line.
pub open spec fn spec_word_start(s: Seq<char>) -> int {
    match spec_rfind(s, ' ') {
        Some(j) => j + 1,
        None => 0,
    }
}

/// True exactly when `c` is a token separator.
fn blank(c: char) -> (r: bool)
    ensures
        r == is_blank(c),
{
    c == ' ' || c == '\t'
}

/// The position of the last occurrence of `c`, if any.
fn rfind_char(chars: &Vec<char>, c: char) -> (r: Option<usize>)
    ensures
        match r {
            Some(j) => spec_rfind(chars@, c) == Some(j as int),
            None => spec_rfind(chars@, c) is None,
        },
{
    let mut b: usize = chars.len();
    proof {
        assert(chars@.take(chars@.len() as int) =~= chars@);
    }
    while b > 0 && chars[b - 1] != c
        invariant
            b <= chars@.len(),
            spec_rfind(chars@, c) == spec_rfind(chars@.take(b as int), c),
        decreases b,
    {
        proof {
            assert(chars@.take(b as int).last() == chars@[b - 1]);
            assert(chars@.take(b as int).drop_last() =~= chars@.take(b - 1));
        }
        b = b - 1;
    }
    if b > 0 {
        proof {
            assert(chars@.take(b as int).last() == chars@[b - 1]);
        }
        Some(b - 1)
    } else {
        proof {
            assert(chars@.take(0).len() == 0);
        }
        None
    }
}

/// Decide what the cursor is completing. When everything before the cursor
/// is blanks followed by one unbroken word (possibly empty), the first word
/// — a command name — is being completed; otherwise the word after the last
/// space is a partial filename.
#[verifier::loop_isolation(false)]
pub fn completion_query(line: &str, pos: usize) -> (q: Query)
    requires
        pos <= line@.len(),
    ensures
        ({
            let pre = line@.take(pos as int);
            &&& (!spec_has_blank(spec_after_blanks(pre)) ==> ({
                q matches Query::FirstWord { start, prefix } && prefix@ == spec_after_blanks(pre)
                    && start + prefix@.len() == pos
            }))
            &&& (spec_has_blank(spec_after_blanks(pre)) ==> ({
                q matches Query::Filename { start, partial } && start == spec_word_start(pre)
                    && partial@ == pre.skip(spec_word_start(pre))
            }))
        }),
{
    let chars = str_chars(line);
    let pre = subrange_chars(&chars, 0, pos);
    let m = pos;
    let mut k: usize = 0;
    proof {
        assert(pre@.skip(0) =~= pre@);
    }
    while k < m && blank(pre[k])
        invariant
            m == pre@.len(),
            k <= m,
            spec_after_blanks(pre@) == spec_after_blanks(pre@.skip(k as int)),
        decreases m - k,
    {
        proof {
            assert(pre@.skip(k as int).drop_first() =~= pre@.skip(k + 1));
        }
        k = k + 1;
    }
    proof {
        assert(spec_after_blanks(pre@.skip(k as int)) == pre@.skip(k as int));
    }
    let mut j: usize = k;
    while j < m && !blank(pre[j])
        invariant
            k <= j <= m,
            forall|l: int| k <= l < j ==> !is_blank(#[trigger] pre@[l]),
        decreases m - j,
    {
        j = j + 1;
    }
    if j >= m {
        proof {
            assert(!spec_has_blank(pre@.skip(k as int))) by {
                assert forall|l: int| 0 <= l < pre@.skip(k as int).len() implies !is_blank(
                    #[trigger] pre@.skip(k as int)[l],
                ) by {
                    assert(pre@.skip(k as int)[l] == pre@[l + k]);
                }
            }
        }
        let word = tail_chars(&pre, k);
        let prefix = chars_to_string(&word);
        Query::FirstWord { start: k, prefix }
    } else {
        proof {
            assert(pre@.skip(k as int)[j - k] == pre@[j as int]);
            assert(spec_has_blank(pre@.skip(k as int)));
        }
        let ws: usize = match rfind_char(&pre, ' ') {
            Some(sp) => {
                proof {
                    lemma_rfind_range(pre@, ' ');
                }
                sp + 1
            },
            None => 0,
        };
        let word = tail_chars(&pre, ws);
        let partial = chars_to_string(&word);
        Query::Filename { start: ws, partial }
    }
}

/// Split an already tilde-expanded partial path into the directory to list
/// and the filename prefix to match: a path ending in `/` is all directory
/// with an empty prefix; otherwise the part after the last `/` is the
/// prefix and the part before it the directory (`/` itself when the slash
/// is first, `.` when there is no slash at all).
pub open spec fn spec_split_partial(e: Seq<char>) -> (Seq<char>, Seq<char>) {
    if e.len() > 0 && e.last() == '/' {
        (e, Seq::empty())
    } else {
        match spec_rfind(e, '/') {
            Some(j) => ((if j == 0 { seq!['/'] } else { e.take(j) }), e.skip(j + 1)),
            None => (seq!['.'], e),
        }
    }
}

/// The directory to list and the filename prefix for a partial path, after
/// tilde expansion.
pub fn split_partial(partial: &str, home: &Option<String>) -> (r: (String, String))
    ensures
        ({
            let e = crate::tokens::spec_expand_tilde(partial@, home.deep_view());
            r.0@ == spec_split_partial(e).0 && r.1@ == spec_split_partial(e).1
        }),
{
    let e = crate::tokens::expand_tilde_with(partial, home);
    let chars = str_chars(e.as_str());
    let n = chars.len();
    if n > 0 && chars[n - 1] == '/' {
        return (e, String::new());
    }
    match rfind_char(&chars, '/') {
        Some(j) => {
            proof {
                lemma_rfind_range(chars@, '/');
            }
            let prefix = chars_to_string(&tail_chars(&chars, j + 1));
            if j == 0 {
                let dir = "/".to_owned();
                proof {
                    reveal_strlit("/");
                    assert("/"@.len() == 1);
                    assert("/"@ =~= seq!['/']);
                }
                (dir, prefix)
            } else {
                let dir = chars_to_string(&subrange_chars(&chars, 0, j));
                (dir, prefix)
            }
        },
        None => {
            let dir = ".".to_owned();
            proof {
                reveal_strlit(".");
                assert("."@.len() == 1);
                assert("."@ =~= seq!['.']);
            }
            (dir, e)
        },
    }
}

/// A found position lies within the sequence and holds `c`.
proof fn lemma_rfind_range(s: Seq<char>, c: char)
    ensures
        spec_rfind(s, c) matches Some(j) ==> 0 <= j < s.len() && s[j] == c,
    decreases s.len(),
{
    if s.len() > 0 && s.last() != c {
        lemma_rfind_range(s.drop_last(), c);
    }
}

/// The constant text that precedes the matched name in every replacement
/// built for this partial path: it preserves exactly how the user wrote the
/// path — a `~/`-relative form when the partial was typed that way, nothing
/// when the path was a bare name or `.`-relative, the typed directory part
/// otherwise.
pub open spec fn spec_repl_prefix(partial: Seq<char>, home: Option<Seq<char>>) -> Seq<char> {
    let e = crate::tokens::spec_expand_tilde(partial, home);
    let dirp = spec_split_partial(e).0;
    if partial.len() >= 2 && partial[0] == '~' && partial[1] == '/' {
        let home_e = match home {
            Some(h) => h,
            None => Seq::empty(),
        };
        let d2 = if dirp.len() > 0 && dirp.last() == '/' {
            dirp.drop_last()
        } else {
            dirp
        };
        if d2 == home_e {
            seq!['~', '/']
        } else if is_prefix_of(home_e + seq!['/'], d2) {
            seq!['~', '/'] + d2.skip(home_e.len() as int + 1) + seq!['/']
        } else {
            seq!['~', '/'] + d2 + seq!['/']
        }
    } else if dirp == seq!['.'] {
        Seq::empty()
    } else if e.len() > 0 && e.last() == '/' {
        e
    } else if spec_rfind(e, '/') is Some {
        if dirp == seq!['/'] {
            seq!['/']
        } else {
            dirp + seq!['/']
        }
    } else {
        Seq::empty()
    }
}

/// What one matched directory entry becomes: directories are shown and
/// replaced with a trailing slash.
pub open spec fn spec_entry_cand(
    partial: Seq<char>,
    home: Option<Seq<char>>,
    name: Seq<char>,
    is_dir: bool,
) -> CandidateView {
    let tail: Seq<char> = if is_dir {
        seq!['/']
    } else {
        Seq::empty()
    };
    CandidateView {
        display: name + tail,
        replacement: spec_repl_prefix(partial, home) + name + tail,
        is_builtin: false,
    }
}

/// The candidates for the entries whose names start with the filename
/// prefix of the partial path, in entry order.
pub open spec fn spec_file_cands(
    partial: Seq<char>,
    entries: Seq<(Seq<char>, bool)>,
    home: Option<Seq<char>>,
) -> Seq<CandidateView>
    decreases entries.len(),
{
    if entries.len() == 0 {
        seq![]
    } else {
        let rest = spec_file_cands(partial, entries.drop_last(), home);
        let ent = entries.last();
        if is_prefix_of(
            spec_split_partial(crate::tokens::spec_expand_tilde(partial, home)).1,
            ent.0,
        ) {
            rest.push(spec_entry_cand(partial, home, ent.0, ent.1))
        } else {
            rest
        }
    }
}

/// The exec mirror of [`spec_repl_prefix`].
fn replacement_prefix(partial: &str, home: &Option<String>) -> (r: String)
    ensures
        r@ == spec_repl_prefix(partial@, home.deep_view()),
{
    let e = crate::tokens::expand_tilde_with(partial, home);
    let parts = split_partial(partial, home);
    let dirp = parts.0;
    let echars = str_chars(e.as_str());
    let en = echars.len();
    if str_starts_with(partial, "~/") {
        proof {
            reveal_strlit("~/");
            assert("~/"@.len() == 2);
            assert("~/"@[0] == '~' && "~/"@[1] == '/');
            assert(partial@.subrange(0, 2)[0] == partial@[0]);
            assert(partial@.subrange(0, 2)[1] == partial@[1]);
        }
        let home_e: String = match home {
            Some(h) => h.clone(),
            None => String::new(),
        };
        let dchars = str_chars(dirp.as_str());
        let dn = dchars.len();
        let d2 = if dn > 0 && dchars[dn - 1] == '/' {
            proof {
                assert(dchars@.subrange(0, dn - 1) =~= dchars@.drop_last());
            }
            subrange_chars(&dchars, 0, dn - 1)
        } else {
            proof {
                assert(dchars@.subrange(0, dn as int) =~= dchars@);
            }
            subrange_chars(&dchars, 0, dn)
        };
        let d2_string = chars_to_string(&d2);
        if str_eq(d2_string.as_str(), home_e.as_str()) {
            let out = "~/".to_owned();
            proof {
                assert("~/"@ =~= seq!['~', '/']);
            }
            return out;
        }
        let mut hslash = str_chars(home_e.as_str());
        hslash.push('/');
        proof {
            assert(hslash@ =~= home_e@ + seq!['/']);
        }
        let hslash_string = chars_to_string(&hslash);
        if str_starts_with(d2_string.as_str(), hslash_string.as_str()) {
            let mut out: Vec<char> = Vec::new();
            out.push('~');
            out.push('/');
            let rel = tail_chars(&d2, hslash.len());
            crate::text::append_chars(&mut out, &rel);
            out.push('/');
            proof {
                assert("~/"@ =~= seq!['~', '/']);
                assert(out@ =~= seq!['~', '/'] + d2@.skip(home_e@.len() as int + 1) + seq!['/']);
            }
            return chars_to_string(&out);
        }
        let mut out: Vec<char> = Vec::new();
        out.push('~');
        out.push('/');
        crate::text::append_chars(&mut out, &d2);
        out.push('/');
        proof {
            assert("~/"@ =~= seq!['~', '/']);
            assert(out@ =~= seq!['~', '/'] + d2@ + seq!['/']);
        }
        return chars_to_string(&out);
    }
    proof {
        reveal_strlit("~/");
        assert("~/"@.len() == 2);
        assert("~/"@[0] == '~' && "~/"@[1] == '/');
        if partial@.len() >= 2 && partial@[0] == '~' && partial@[1] == '/' {
            assert(partial@.subrange(0, 2) =~= "~/"@);
        }
    }
    if str_eq(dirp.as_str(), ".") {
        proof {
            reveal_strlit(".");
            assert("."@.len() == 1);
            assert("."@ =~= seq!['.']);
        }
        return String::new();
    }
    proof {
        reveal_strlit(".");
        assert("."@.len() == 1);
        assert("."@ =~= seq!['.']);
    }
    if en > 0 && echars[en - 1] == '/' {
        return e;
    }
    match rfind_char(&echars, '/') {
        Some(_) => {
            if str_eq(dirp.as_str(), "/") {
                let out = "/".to_owned();
                proof {
                    reveal_strlit("/");
                    assert("/"@.len() == 1);
                    assert("/"@ =~= seq!['/']);
                }
                out
            } else {
                proof {
                    reveal_strlit("/");
                    assert("/"@.len() == 1);
                    assert("/"@ =~= seq!['/']);
                }
                let mut out = str_chars(dirp.as_str());
                out.push('/');
                proof {
                    assert(out@ =~= dirp@ + seq!['/']);
                }
                chars_to_string(&out)
            }
        },
        None => String::new(),
    }
}

/// Strictly ascending, lexicographically: no duplicates.
pub open spec fn strict_sorted(s: Seq<Seq<char>>) -> bool {
    forall|i: int, j: int| 0 <= i < j < s.len() ==> lex_lt(#[trigger] s[i], #[trigger] s[j])
}

/// Ascending by display text.
pub open spec fn sorted_by_display(s: Seq<CandidateView>) -> bool {
    forall|i: int, j: int|
        0 <= i < j < s.len() ==> lex_le((#[trigger] s[i]).display, (#[trigger] s[j]).display)
}

/// Taking one more element adds exactly that element to the members.
proof fn lemma_take_one_more<A>(s: Seq<A>, i: int)
    requires
        0 <= i < s.len(),
    ensures
        forall|y: A| s.take(i + 1).contains(y) <==> (s.take(i).contains(y) || y == s[i]),
{
    assert forall|y: A| s.take(i + 1).contains(y) implies (s.take(i).contains(y) || y
        == s[i]) by {
        let k = choose|k: int| 0 <= k < s.take(i + 1).len() && #[trigger] s.take(i + 1)[k] == y;
        if k < i {
            assert(s.take(i)[k] == y);
        }
    }
    assert forall|y: A| (s.take(i).contains(y) || y == s[i]) implies s.take(i + 1).contains(
        y,
    ) by {
        if s.take(i).contains(y) {
            let k = choose|k: int| 0 <= k < s.take(i).len() && #[trigger] s.take(i)[k] == y;
            assert(s.take(i + 1)[k] == y);
        } else {
            assert(s.take(i + 1)[i] == y);
        }
    }
}

/// Inserting adds exactly the inserted element to the members.
proof fn lemma_insert_contains<A>(s: Seq<A>, i: int, x: A)
    requires
        0 <= i <= s.len(),
    ensures
        forall|y: A| s.insert(i, x).contains(y) <==> (s.contains(y) || y == x),
{
    s.insert_ensures(i, x);
    assert forall|y: A| s.insert(i, x).contains(y) implies (s.contains(y) || y == x) by {
        let k = choose|k: int| 0 <= k < s.insert(i, x).len() && #[trigger] s.insert(i, x)[k] == y;
        if k < i {
            assert(s[k] == y);
        } else if k > i {
            assert(s.insert(i, x)[k - 1 + 1] == s[k - 1]);
            assert(s[k - 1] == y);
        }
    }
    assert forall|y: A| (s.contains(y) || y == x) implies s.insert(i, x).contains(y) by {
        if s.contains(y) {
            let k = choose|k: int| 0 <= k < s.len() && #[trigger] s[k] == y;
            if k < i {
                assert(s.insert(i, x)[k] == y);
            } else {
                assert(s.insert(i, x)[k + 1] == y);
            }
        } else {
            assert(s.insert(i, x)[i] == y);
        }
    }
}

/// Inserting anywhere adds the element to the multiset of elements.
proof fn lemma_to_multiset_insert<A>(s: Seq<A>, i: int, x: A)
    requires
        0 <= i <= s.len(),
    ensures
        s.insert(i, x).to_multiset() == s.to_multiset().insert(x),
{
    broadcast use vstd::seq_lib::group_to_multiset_ensures;

    assert(s.insert(i, x) =~= s.subrange(0, i).push(x) + s.subrange(i, s.len() as int));
    vstd::seq_lib::lemma_multiset_commutative(
        s.subrange(0, i).push(x),
        s.subrange(i, s.len() as int),
    );
    vstd::seq_lib::lemma_multiset_commutative(s.subrange(0, i), s.subrange(i, s.len() as int));
    assert(s =~= s.subrange(0, i) + s.subrange(i, s.len() as int));
    assert(s.insert(i, x).to_multiset() =~= s.to_multiset().insert(x));
}

/// Sort names and drop duplicates: the result is strictly ascending and
/// holds exactly the names of the input.
#[verifier::loop_isolation(false)]
pub fn sort_dedup(cmds: &Vec<String>) -> (r: Vec<String>)
    ensures
        strict_sorted(r.deep_view()),
        forall|x: Seq<char>| #[trigger]
            r.deep_view().contains(x) <==> cmds.deep_view().contains(x),
{
    let n = cmds.len();
    let mut r: Vec<String> = Vec::new();
    let mut i: usize = 0;
    while i < n
        invariant
            i <= n,
            strict_sorted(r.deep_view()),
            forall|x: Seq<char>| #[trigger]
                r.deep_view().contains(x) <==> cmds.deep_view().take(i as int).contains(x),
        decreases n - i,
    {
        let x = cmds[i].clone();
        let ghost xv = x@;
        proof {
            assert(xv == cmds.deep_view()[i as int]);
            lemma_take_one_more(cmds.deep_view(), i as int);
        }
        let m = r.len();
        let mut pos: usize = 0;
        while pos < m && crate::text::str_lt(r[pos].as_str(), x.as_str())
            invariant
                pos <= m,
                forall|k: int| 0 <= k < pos ==> lex_lt(#[trigger] r.deep_view()[k], xv),
            decreases m - pos,
        {
            proof {
                assert(r.deep_view()[pos as int] == r@[pos as int]@);
            }
            pos = pos + 1;
        }
        let ghost rdv = r.deep_view();
        if pos < m && str_eq(r[pos].as_str(), x.as_str()) {
            proof {
                assert(rdv[pos as int] == r@[pos as int]@);
                assert(rdv[pos as int] == xv);
                assert(rdv.contains(xv));
                assert forall|y: Seq<char>| #[trigger] r.deep_view().contains(y)
                    <==> cmds.deep_view().take(i + 1).contains(y) by {
                    assert(rdv.contains(y) <==> cmds.deep_view().take(i as int).contains(y));
                    assert(cmds.deep_view().take(i + 1).contains(y) <==> (cmds.deep_view().take(
                        i as int,
                    ).contains(y) || y == xv));
                }
            }
        } else {
            proof {
                if (pos as int) < rdv.len() {
                    assert(rdv[pos as int] == r@[pos as int]@);
                    crate::text::lemma_lex_total(xv, rdv[pos as int]);
                    assert(lex_lt(xv, rdv[pos as int]));
                }
            }
            let ghost pv = r@;
            let ghost xs = x;
            r.insert(pos, x);
            proof {
                assert(r@ == pv.insert(pos as int, xs));
                crate::text::lemma_deep_seq_insert(pv, pos as int, xs);
                assert(rdv =~= crate::text::deep_seq(pv));
                assert(r.deep_view() =~= crate::text::deep_seq(pv.insert(pos as int, xs)));
                assert(r.deep_view() == rdv.insert(pos as int, xv));
                rdv.insert_ensures(pos as int, xv);
                lemma_insert_contains(rdv, pos as int, xv);
                assert forall|y: Seq<char>| #[trigger] r.deep_view().contains(y)
                    <==> cmds.deep_view().take(i + 1).contains(y) by {
                    assert(r.deep_view().contains(y) <==> (rdv.contains(y) || y == xv));
                    assert(rdv.contains(y) <==> cmds.deep_view().take(i as int).contains(y));
                    assert(cmds.deep_view().take(i + 1).contains(y) <==> (cmds.deep_view().take(
                        i as int,
                    ).contains(y) || y == xv));
                }
                assert forall|u: int, v: int|
                    0 <= u < v < r.deep_view().len() implies lex_lt(
                    #[trigger] r.deep_view()[u],
                    #[trigger] r.deep_view()[v],
                ) by {
                    let nw = r.deep_view();
                    if v < pos {
                        assert(nw[u] == rdv[u] && nw[v] == rdv[v]);
                    } else if v == pos {
                        assert(nw[u] == rdv[u] && nw[v] == xv);
                    } else if u < pos {
                        assert(nw[u] == rdv[u]);
                        assert(nw[(v - 1) + 1] == rdv[v - 1]);
                        assert(pos <= v - 1);
                        if v - 1 == pos {
                            crate::text::lemma_lex_lt_le(rdv[u], xv, rdv[v - 1]);
                        }
                    } else if u == pos {
                        assert(nw[u] == xv);
                        assert(nw[(v - 1) + 1] == rdv[v - 1]);
                        if v - 1 > pos {
                            crate::text::lemma_lex_lt_le(xv, rdv[pos as int], rdv[v - 1]);
                        }
                    } else {
                        assert(nw[(u - 1) + 1] == rdv[u - 1]);
                        assert(nw[(v - 1) + 1] == rdv[v - 1]);
                    }
                }
            }
        }
        i = i + 1;
    }
    proof {
        assert(cmds.deep_view().take(n as int) =~= cmds.deep_view());
    }
    r
}

/// The candidates for the directory entries that match the partial path's
/// filename prefix, sorted by display text. `entries` pairs each entry
/// name with whether it is a directory.
#[verifier::loop_isolation(false)]
pub fn filename_candidates(
    partial: &str,
    entries: &Vec<(String, bool)>,
    home: &Option<String>,
) -> (r: Vec<Candidate>)
    ensures
        sorted_by_display(r.deep_view()),
        r.deep_view().to_multiset() == spec_file_cands(
            partial@,
            entries.deep_view(),
            home.deep_view(),
        ).to_multiset(),
{
    let parts = split_partial(partial, home);
    let fprefix = parts.1;
    let repl_prefix = replacement_prefix(partial, home);
    let n = entries.len();
    let mut built: Vec<Candidate> = Vec::new();
    let mut i: usize = 0;
    while i < n
        invariant
            i <= n,
            built.deep_view() == spec_file_cands(
                partial@,
                entries.deep_view().take(i as int),
                home.deep_view(),
            ),
        decreases n - i,
    {
        proof {
            assert(entries.deep_view().take(i + 1).drop_last() =~~= entries.deep_view().take(
                i as int,
            ));
            assert(entries.deep_view().take(i + 1).last() == entries.deep_view()[i as int]);
            let k = i as int;
            assert(entries.deep_view()[k] == (entries@[k].0@, entries@[k].1));
        }
        if str_starts_with(entries[i].0.as_str(), fprefix.as_str()) {
            let mut display_chars = str_chars(entries[i].0.as_str());
            let mut repl_chars = str_chars(repl_prefix.as_str());
            crate::text::append_str_chars(&mut repl_chars, entries[i].0.as_str());
            if entries[i].1 {
                display_chars.push('/');
                repl_chars.push('/');
            }
            let cand = Candidate {
                display: chars_to_string(&display_chars),
                replacement: chars_to_string(&repl_chars),
                is_builtin: false,
            };
            let ghost cv = cand;
            let ghost pv = built@;
            let ghost pdv = built.deep_view();
            proof {
                let name = entries.deep_view()[i as int].0;
                let is_dir = entries.deep_view()[i as int].1;
                if is_dir {
                    assert(display_chars@ =~= name + seq!['/']);
                    assert(repl_chars@ =~= spec_repl_prefix(partial@, home.deep_view()) + name
                        + seq!['/']);
                } else {
                    assert(display_chars@ =~= name + Seq::<char>::empty());
                    assert(repl_chars@ =~= spec_repl_prefix(partial@, home.deep_view()) + name
                        + Seq::<char>::empty());
                }
                assert(cv.deep_view() == spec_entry_cand(
                    partial@,
                    home.deep_view(),
                    name,
                    is_dir,
                ));
            }
            built.push(cand);
            proof {
                assert(built@ == pv.push(cv));
                assert(pdv =~= deep_seq(pv));
                lemma_deep_seq_push(pv, cv);
                assert(built.deep_view() =~= deep_seq(pv.push(cv)));
                assert(built.deep_view() == pdv.push(cv.deep_view()));
            }
        }
        i = i + 1;
    }
    proof {
        assert(entries.deep_view().take(n as int) =~~= entries.deep_view());
    }
    // insertion sort by display text
    let ghost total = built.deep_view().to_multiset();
    let mut out: Vec<Candidate> = Vec::new();
    proof {
        broadcast use vstd::seq_lib::group_to_multiset_ensures;

        assert(out.deep_view() =~~= Seq::<CandidateView>::empty());
        assert(out.deep_view().to_multiset().add(built.deep_view().to_multiset()) =~= total);
    }
    while built.len() > 0
        invariant
            sorted_by_display(out.deep_view()),
            out.deep_view().to_multiset().add(built.deep_view().to_multiset()) == total,
        decreases built.len(),
    {
        let ghost bv = built@;
        let ghost bdv = built.deep_view();
        let c = match built.pop() {
            Some(c) => c,
            None => {
                proof {
                    assert(false);
                }
                Candidate { display: String::new(), replacement: String::new(), is_builtin: false }
            },
        };
        let ghost cv = c;
        proof {
            broadcast use vstd::seq_lib::group_to_multiset_ensures;

            assert(built@ =~= bv.drop_last());
            assert(built.deep_view() =~= bdv.drop_last());
            assert(bdv =~= bdv.drop_last().push(cv.deep_view()));
            assert(bdv.to_multiset() == built.deep_view().to_multiset().insert(cv.deep_view()));
        }
        let m = out.len();
        let mut pos: usize = 0;
        while pos < m && str_le(out[pos].display.as_str(), c.display.as_str())
            invariant
                pos <= m,
                forall|k: int|
                    0 <= k < pos ==> lex_le(
                        (#[trigger] out.deep_view()[k]).display,
                        cv.deep_view().display,
                    ),
            decreases m - pos,
        {
            proof {
                assert(out.deep_view()[pos as int] == out@[pos as int]@);
            }
            pos = pos + 1;
        }
        let ghost odv = out.deep_view();
        proof {
            if (pos as int) < odv.len() {
                assert(odv[pos as int] == out@[pos as int]@);
                crate::text::lemma_lex_total(cv.deep_view().display, odv[pos as int].display);
            }
        }
        let ghost ov = out@;
        out.insert(pos, c);
        proof {
            broadcast use vstd::seq_lib::group_to_multiset_ensures;

            assert(out@ == ov.insert(pos as int, cv));
            crate::text::lemma_deep_seq_insert(ov, pos as int, cv);
            assert(odv =~= crate::text::deep_seq(ov));
            assert(out.deep_view() =~= crate::text::deep_seq(ov.insert(pos as int, cv)));
            assert(out.deep_view() == odv.insert(pos as int, cv.deep_view()));
            odv.insert_ensures(pos as int, cv.deep_view());
            lemma_to_multiset_insert(odv, pos as int, cv.deep_view());
            assert(out.deep_view().to_multiset().add(built.deep_view().to_multiset()) =~= total);
            assert forall|u: int, v: int|
                0 <= u < v < out.deep_view().len() implies lex_le(
                (#[trigger] out.deep_view()[u]).display,
                (#[trigger] out.deep_view()[v]).display,
            ) by {
                let nw = out.deep_view();
                let cd = cv.deep_view().display;
                if v < pos {
                    assert(nw[u] == odv[u] && nw[v] == odv[v]);
                } else if v == pos {
                    assert(nw[u] == odv[u] && nw[v] == cv.deep_view());
                } else if u < pos {
                    assert(nw[u] == odv[u]);
                    assert(nw[(v - 1) + 1] == odv[v - 1]);
                    if v - 1 == pos {
                        crate::text::lemma_lex_transitive(odv[u].display, cd, odv[v - 1].display);
                    }
                } else if u == pos {
                    assert(nw[u] == cv.deep_view());
                    assert(nw[(v - 1) + 1] == odv[v - 1]);
                    if v - 1 > pos {
                        crate::text::lemma_lex_transitive(
                            cd,
                            odv[pos as int].display,
                            odv[v - 1].display,
                        );
                    }
                } else {
                    assert(nw[(u - 1) + 1] == odv[u - 1]);
                    assert(nw[(v - 1) + 1] == odv[v - 1]);
                }
            }
        }
    }
    proof {
        broadcast use vstd::seq_lib::group_to_multiset_ensures;

        assert(built.deep_view() =~~= Seq::<CandidateView>::empty());
        assert(out.deep_view().to_multiset() =~= total);
    }
    out
}

} // verus!
