//! The tokenizer: splits one raw input line into argument strings, honouring
//! single and double quotes, collapsing unquoted runs of blanks, and applying
//! variable expansion (`$NAME`, `${NAME}`) and tilde expansion to each token.
//!
//! Variable values come from an explicit environment [`Table`] and the home
//! directory is an explicit `Option<String>`, so every function here is a
//! pure function of its arguments. Variable names are ASCII letters, digits
//! and underscore, and must start with a letter or underscore.

use vstd::prelude::*;
use crate::table::{Table, spec_lookup};
use crate::text::{append_str_chars, chars_to_string, str_chars, subrange_chars};

verus! {

/// An unquoted token separator: space or tab.
pub open spec fn is_blank(c: char) -> bool {
    c == ' ' || c == '\t'
}

/// A quote delimiter.
pub open spec fn is_quote(c: char) -> bool {
    c == '"' || c == '\''
}

/// A character that may start a variable name.
pub open spec fn is_name_start(c: char) -> bool {
    (97 <= c as u32 && c as u32 <= 122)  // 'a'..='z'
    || (65 <= c as u32 && c as u32 <= 90)  // 'A'..='Z'
    || c == '_'
}

/// A character that may continue a variable name.
pub open spec fn is_name_char(c: char) -> bool {
    is_name_start(c) || (48 <= c as u32 && c as u32 <= 57)  // '0'..='9'
}

/// The position of the first occurrence of `c` in `s` at or after `i`.
pub open spec fn spec_find(s: Seq<char>, i: int, c: char) -> Option<int>
    decreases s.len() - i,
    when 0 <= i <= s.len()
{
    if i >= s.len() {
        None
    } else if s[i] == c {
        Some(i)
    } else {
        spec_find(s, i + 1, c)
    }
}

/// A found position lies in `[i, s.len())` and holds `c`.
pub proof fn lemma_find_range(s: Seq<char>, i: int, c: char)
    requires
        0 <= i <= s.len(),
    ensures
        spec_find(s, i, c) matches Some(j) ==> i <= j < s.len() && s[j] == c,
    decreases s.len() - i,
{
    if i < s.len() && s[i] != c {
        lemma_find_range(s, i + 1, c);
    }
}

/// The end of the run of name characters starting at `i`.
pub open spec fn spec_name_end(s: Seq<char>, i: int) -> int
    decreases s.len() - i,
    when 0 <= i <= s.len()
{
    if i >= s.len() {
        i
    } else if is_name_char(s[i]) {
        spec_name_end(s, i + 1)
    } else {
        i
    }
}

/// The end of a name run lies between its start and the end of the string.
pub proof fn lemma_name_end_range(s: Seq<char>, i: int)
    requires
        0 <= i <= s.len(),
    ensures
        i <= spec_name_end(s, i) <= s.len(),
    decreases s.len() - i,
{
    if i < s.len() && is_name_char(s[i]) {
        lemma_name_end_range(s, i + 1);
    }
}

/// The named variable's value, or the empty string when it is unset.
pub open spec fn lookup_or_empty(env: Seq<(Seq<char>, Seq<char>)>, name: Seq<char>) -> Seq<char> {
    match spec_lookup(env, name) {
        Some(v) => v,
        None => Seq::empty(),
    }
}

/// One left-to-right scan of `s` from position `i`, with `out` already
/// produced: each `$NAME` or `${NAME}` is replaced by the variable's value
/// (empty when unset); an unterminated `${` is passed through literally; a
/// `$` followed by nothing that can start a name stays literal.
pub open spec fn spec_expand_vars_at(
    s: Seq<char>,
    i: int,
    out: Seq<char>,
    env: Seq<(Seq<char>, Seq<char>)>,
) -> Seq<char>
    decreases s.len() - i,
    when 0 <= i <= s.len()
{
    if i >= s.len() {
        out
    } else if s[i] == '$' {
        if i + 1 >= s.len() {
            out.push('$')
        } else if s[i + 1] == '{' {
            match spec_find(s, i + 2, '}') {
                Some(j) => {
                    proof {
                        lemma_find_range(s, i + 2, '}');
                    }
                    spec_expand_vars_at(s, j + 1, out + lookup_or_empty(env, s.subrange(i + 2, j)), env)
                },
                None => out + seq!['$', '{'] + s.subrange(i + 2, s.len() as int),
            }
        } else if is_name_start(s[i + 1]) {
            let j = spec_name_end(s, i + 1);
            proof {
                lemma_name_end_range(s, i + 1);
            }
            spec_expand_vars_at(s, j, out + lookup_or_empty(env, s.subrange(i + 1, j)), env)
        } else {
            spec_expand_vars_at(s, i + 1, out.push('$'), env)
        }
    } else {
        spec_expand_vars_at(s, i + 1, out.push(s[i]), env)
    }
}

/// `s` with every variable reference replaced by its value.
pub open spec fn spec_expand_vars(s: Seq<char>, env: Seq<(Seq<char>, Seq<char>)>) -> Seq<char> {
    spec_expand_vars_at(s, 0, Seq::empty(), env)
}

/// True exactly when `c` can continue a variable name.
fn name_char(c: char) -> (r: bool)
    ensures
        r == is_name_char(c),
{
    let u = c as u32;
    (97 <= u && u <= 122) || (65 <= u && u <= 90) || c == '_' || (48 <= u && u <= 57)
}

/// True exactly when `c` can start a variable name.
fn name_start(c: char) -> (r: bool)
    ensures
        r == is_name_start(c),
{
    let u = c as u32;
    (97 <= u && u <= 122) || (65 <= u && u <= 90) || c == '_'
}

/// Variable expansion over a character vector.
fn expand_vars_chars(s: &Vec<char>, env: &Table) -> (r: Vec<char>)
    ensures
        r@ == spec_expand_vars(s@, env@),
{
    let n = s.len();
    let mut out: Vec<char> = Vec::new();
    let mut i: usize = 0;
    proof {
        assert(out@ =~= Seq::<char>::empty());
    }
    while i < n
        invariant
            n == s@.len(),
            i <= n,
            spec_expand_vars(s@, env@) == spec_expand_vars_at(s@, i as int, out@, env@),
        decreases n - i,
    {
        let ghost out0 = out@;
        let c = s[i];
        if c == '$' {
            if i + 1 >= n {
                out.push('$');
                i = i + 1;
            } else if s[i + 1] == '{' {
                // scan for the closing brace
                let mut j: usize = i + 2;
                while j < n && s[j] != '}'
                    invariant
                        i + 2 <= j <= n,
                        n == s@.len(),
                        spec_find(s@, i + 2, '}') == spec_find(s@, j as int, '}'),
                    decreases n - j,
                {
                    j = j + 1;
                }
                if j < n {
                    // closing brace found at j
                    proof {
                        assert(spec_find(s@, i + 2, '}') == Some(j as int));
                    }
                    let name = subrange_chars(s, i + 2, j);
                    let name_string = chars_to_string(&name);
                    match env.lookup(name_string.as_str()) {
                        Some(v) => {
                            append_str_chars(&mut out, v.as_str());
                        },
                        None => {},
                    }
                    proof {
                        assert(out@ =~= out0 + lookup_or_empty(env@, s@.subrange(i + 2, j as int)));
                    }
                    i = j + 1;
                } else {
                    // unterminated ${ : emit it literally and stop scanning
                    proof {
                        assert(spec_find(s@, i + 2, '}') is None);
                    }
                    out.push('$');
                    out.push('{');
                    let rest = subrange_chars(s, i + 2, n);
                    let rest_string = chars_to_string(&rest);
                    append_str_chars(&mut out, rest_string.as_str());
                    proof {
                        assert(out@ =~= out0 + seq!['$', '{'] + s@.subrange(i + 2, n as int));
                    }
                    i = n;
                }
            } else if name_start(s[i + 1]) {
                let mut j: usize = i + 1;
                while j < n && name_char(s[j])
                    invariant
                        i + 1 <= j <= n,
                        n == s@.len(),
                        spec_name_end(s@, i + 1) == spec_name_end(s@, j as int),
                    decreases n - j,
                {
                    j = j + 1;
                }
                proof {
                    assert(spec_name_end(s@, i + 1) == j as int);
                }
                let name = subrange_chars(s, i + 1, j);
                let name_string = chars_to_string(&name);
                match env.lookup(name_string.as_str()) {
                    Some(v) => {
                        append_str_chars(&mut out, v.as_str());
                    },
                    None => {},
                }
                proof {
                    assert(out@ =~= out0 + lookup_or_empty(env@, s@.subrange(i + 1, j as int)));
                }
                i = j;
            } else {
                out.push('$');
                i = i + 1;
            }
        } else {
            out.push(c);
            i = i + 1;
        }
    }
    proof {
        assert(spec_expand_vars_at(s@, n as int, out@, env@) == out@);
    }
    out
}

/// `input` with every variable reference replaced by the named environment
/// variable's value, or by the empty string where the variable is unset.
pub fn expand_variables(input: &str, env: &Table) -> (r: String)
    ensures
        r@ == spec_expand_vars(input@, env@),
{
    let chars = str_chars(input);
    let out = expand_vars_chars(&chars, env);
    chars_to_string(&out)
}

/// Tilde expansion: a token that is exactly `~` becomes the home directory;
/// one starting with `~/` becomes the home directory joined with the rest;
/// anything else, or any token when no home directory is known, is unchanged.
pub open spec fn spec_expand_tilde(s: Seq<char>, home: Option<Seq<char>>) -> Seq<char> {
    match home {
        None => s,
        Some(h) => if s == seq!['~'] {
            h
        } else if s.len() >= 2 && s[0] == '~' && s[1] == '/' {
            h + seq!['/'] + s.skip(2)
        } else {
            s
        },
    }
}

/// Tilde expansion over a character vector.
fn expand_tilde_chars(t: &Vec<char>, home: &Option<String>) -> (r: Vec<char>)
    ensures
        r@ == spec_expand_tilde(t@, home.deep_view()),
{
    match home {
        None => {
            let r = subrange_chars(t, 0, t.len());
            proof {
                assert(t@.subrange(0, t@.len() as int) =~= t@);
            }
            r
        },
        Some(h) => {
            if t.len() == 1 && t[0] == '~' {
                proof {
                    assert(t@ =~= seq!['~']);
                }
                str_chars(h.as_str())
            } else if t.len() >= 2 && t[0] == '~' && t[1] == '/' {
                let mut r = str_chars(h.as_str());
                r.push('/');
                let rest = subrange_chars(t, 2, t.len());
                let rest_string = chars_to_string(&rest);
                append_str_chars(&mut r, rest_string.as_str());
                proof {
                    assert(t@ != seq!['~']) by {
                        assert(t@.len() >= 2);
                    }
                    assert(r@ =~= h@ + seq!['/'] + t@.skip(2));
                }
                r
            } else {
                let r = subrange_chars(t, 0, t.len());
                proof {
                    assert(t@.subrange(0, t@.len() as int) =~= t@);
                    if t@ == seq!['~'] {
                        assert(t@.len() == 1 && t@[0] == '~');
                        assert(false);
                    }
                }
                r
            }
        },
    }
}

/// `path` with a leading tilde expanded against the given home directory.
pub fn expand_tilde_with(path: &str, home: &Option<String>) -> (r: String)
    ensures
        r@ == spec_expand_tilde(path@, home.deep_view()),
{
    let chars = str_chars(path);
    let out = expand_tilde_chars(&chars, home);
    chars_to_string(&out)
}

/// Relies on `dirs::home_dir`: the current user's home directory, read from
/// the `HOME` environment variable or from the system user database, `None`
/// when neither yields one. The result depends on the process environment,
/// so nothing is assumed about its value.
#[verifier::external_body]
fn host_home_dir() -> (r: Option<String>) {
    dirs::home_dir().map(|p| p.to_string_lossy().to_string())
}

/// `path` with a leading tilde expanded against the home directory the host
/// reports at the time of the call.
pub fn expand_tilde(path: &str) -> (r: String)
    ensures
        exists|home: Option<Seq<char>>| r@ == spec_expand_tilde(path@, home),
        !(path@.len() >= 1 && path@[0] == '~') ==> r@ == path@,
{
    let home = host_home_dir();
    let r = expand_tilde_with(path, &home);
    proof {
        assert(r@ == spec_expand_tilde(path@, home.deep_view()));
        if !(path@.len() >= 1 && path@[0] == '~') {
            if path@ == seq!['~'] {
                assert(path@.len() == 1 && path@[0] == '~');
            }
            assert(r@ == path@);
        }
    }
    r
}

/// The raw tokens of `s` from position `i` on: `cur` is the token collected
/// so far, `in_quotes` and `quote` describe the enclosing quote, if any.
/// Outside quotes, a quote character opens a quoted span and blanks end the
/// current token; inside quotes, only the same quote character closes the
/// span and every other character is literal. A trailing unterminated quote
/// is accepted; whatever was collected becomes the final token.
pub open spec fn spec_raw_tokens(
    s: Seq<char>,
    i: int,
    in_quotes: bool,
    quote: char,
    cur: Seq<char>,
) -> Seq<Seq<char>>
    decreases s.len() - i,
    when 0 <= i <= s.len()
{
    if i >= s.len() {
        if cur.len() > 0 {
            seq![cur]
        } else {
            seq![]
        }
    } else {
        let c = s[i];
        if !in_quotes && is_quote(c) {
            spec_raw_tokens(s, i + 1, true, c, cur)
        } else if in_quotes && c == quote {
            spec_raw_tokens(s, i + 1, false, quote, cur)
        } else if !in_quotes && is_blank(c) {
            if cur.len() > 0 {
                seq![cur] + spec_raw_tokens(s, i + 1, false, quote, seq![])
            } else {
                spec_raw_tokens(s, i + 1, false, quote, cur)
            }
        } else {
            spec_raw_tokens(s, i + 1, in_quotes, quote, cur.push(c))
        }
    }
}

/// A finished token: variable expansion, then tilde expansion.
pub open spec fn spec_finish_token(
    t: Seq<char>,
    env: Seq<(Seq<char>, Seq<char>)>,
    home: Option<Seq<char>>,
) -> Seq<char> {
    spec_expand_tilde(spec_expand_vars(t, env), home)
}

/// The argument strings of one raw input line: the raw tokens of the line,
/// each finished by variable and tilde expansion.
pub open spec fn spec_tokenize(
    s: Seq<char>,
    env: Seq<(Seq<char>, Seq<char>)>,
    home: Option<Seq<char>>,
) -> Seq<Seq<char>> {
    spec_raw_tokens(s, 0, false, '"', seq![]).map_values(|t: Seq<char>| spec_finish_token(t, env, home))
}

/// A string with no blank and no quote character tokenizes to exactly one
/// raw token: the whole string (prefixed by whatever was already
/// collected).
proof fn lemma_raw_tokens_plain(s: Seq<char>, i: int, quote: char, cur: Seq<char>)
    requires
        0 <= i <= s.len(),
        forall|j: int| i <= j < s.len() ==> !is_blank(#[trigger] s[j]) && !is_quote(s[j]),
        cur.len() + s.len() - i > 0,
    ensures
        spec_raw_tokens(s, i, false, quote, cur) == seq![cur + s.skip(i)],
    decreases s.len() - i,
{
    if i >= s.len() {
        assert(cur + s.skip(i) =~= cur);
    } else {
        lemma_raw_tokens_plain(s, i + 1, quote, cur.push(s[i]));
        assert(cur.push(s[i]) + s.skip(i + 1) =~= cur + s.skip(i));
    }
}

/// A run of name characters reaching the end of the string ends the name
/// scan exactly there.
proof fn lemma_name_end_all(s: Seq<char>, i: int)
    requires
        0 <= i <= s.len(),
        forall|j: int| i <= j < s.len() ==> is_name_char(#[trigger] s[j]),
    ensures
        spec_name_end(s, i) == s.len(),
    decreases s.len() - i,
{
    if i < s.len() {
        lemma_name_end_all(s, i + 1);
    }
}

/// Setting a variable is visible to the tokenizer: once the environment
/// binds `name` to `value`, the input `$name` tokenizes to exactly
/// `[value]`, for every name of letters, digits and underscores that starts
/// with a letter or underscore, and every value that tilde expansion leaves
/// alone (one that is not `~` and does not start with `~/`).
pub proof fn lemma_tokenize_variable(
    env: Seq<(Seq<char>, Seq<char>)>,
    name: Seq<char>,
    value: Seq<char>,
    home: Option<Seq<char>>,
)
    requires
        name.len() > 0,
        is_name_start(name[0]),
        forall|j: int| 0 <= j < name.len() ==> is_name_char(#[trigger] name[j]),
        spec_lookup(env, name) == Some(value),
        value != seq!['~'],
        !(value.len() >= 2 && value[0] == '~' && value[1] == '/'),
    ensures
        spec_tokenize(seq!['$'] + name, env, home) == seq![value],
{
    let s = seq!['$'] + name;
    assert(s[0] == '$');
    assert(s.len() == name.len() + 1);
    // one raw token: neither '$' nor any name character is a blank or quote
    assert forall|j: int| 0 <= j < s.len() implies !is_blank(#[trigger] s[j]) && !is_quote(
        s[j],
    ) by {
        if j > 0 {
            assert(s[j] == name[j - 1]);
            assert(is_name_char(name[j - 1]));
        }
    }
    lemma_raw_tokens_plain(s, 0, '"', seq![]);
    assert(seq![] + s.skip(0) =~= s);
    assert(spec_raw_tokens(s, 0, false, '"', seq![]) == seq![s]);
    // variable expansion replaces the whole token by the value
    assert forall|j: int| 1 <= j < s.len() implies is_name_char(#[trigger] s[j]) by {
        assert(s[j] == name[j - 1]);
    }
    lemma_name_end_all(s, 1);
    assert(s[1] == name[0]);
    assert(!(s[1] == '{')) by {
        assert(is_name_start(name[0]));
    }
    assert(s.subrange(1, s.len() as int) =~= name);
    assert(spec_expand_vars_at(s, 0, seq![], env) == spec_expand_vars_at(
        s,
        s.len() as int,
        seq![] + value,
        env,
    ));
    assert(seq![] + value =~= value);
    assert(spec_expand_vars(s, env) == value);
    // tilde expansion leaves the value alone
    assert(spec_expand_tilde(value, home) == value);
    assert(spec_finish_token(s, env, home) == value);
    // mapping the finish over the single raw token
    assert(spec_tokenize(s, env, home) =~~= seq![value]);
}

/// A raw token, finished.
fn finish_token(cur: &Vec<char>, env: &Table, home: &Option<String>) -> (r: String)
    ensures
        r@ == spec_finish_token(cur@, env@, home.deep_view()),
{
    let expanded = expand_vars_chars(cur, env);
    let tilded = expand_tilde_chars(&expanded, home);
    chars_to_string(&tilded)
}

/// Split `input` into argument strings: quote-aware splitting on blanks,
/// then variable and tilde expansion of each token.
pub fn parse_arguments(input: &str, env: &Table, home: &Option<String>) -> (args: Vec<String>)
    ensures
        args.deep_view() == spec_tokenize(input@, env@, home.deep_view()),
{
    let chars = str_chars(input);
    let n = chars.len();
    let mut args: Vec<String> = Vec::new();
    let mut cur: Vec<char> = Vec::new();
    let mut in_quotes: bool = false;
    let mut quote: char = '"';
    let mut i: usize = 0;
    let ghost raw_full = spec_raw_tokens(input@, 0, false, '"', seq![]);
    let ghost mut raw_done: Seq<Seq<char>> = seq![];
    proof {
        assert(cur@ =~= Seq::<char>::empty());
        assert(raw_full =~~= raw_done + spec_raw_tokens(input@, 0, false, '"', cur@));
        assert(args.deep_view() =~~= raw_done.map_values(
            |t: Seq<char>| spec_finish_token(t, env@, home.deep_view()),
        ));
    }
    while i < n
        invariant
            n == input@.len(),
            chars@ == input@,
            i <= n,
            raw_full == spec_raw_tokens(input@, 0, false, '"', seq![]),
            raw_full == raw_done + spec_raw_tokens(input@, i as int, in_quotes, quote, cur@),
            args.deep_view() == raw_done.map_values(
                |t: Seq<char>| spec_finish_token(t, env@, home.deep_view()),
            ),
        decreases n - i,
    {
        let c = chars[i];
        if !in_quotes && (c == '"' || c == '\'') {
            in_quotes = true;
            quote = c;
            i = i + 1;
        } else if in_quotes && c == quote {
            in_quotes = false;
            i = i + 1;
        } else if !in_quotes && (c == ' ' || c == '\t') {
            if cur.len() > 0 {
                let tok = finish_token(&cur, env, home);
                args.push(tok);
                proof {
                    let f = |t: Seq<char>| spec_finish_token(t, env@, home.deep_view());
                    let rest = spec_raw_tokens(input@, i + 1, false, quote, seq![]);
                    assert(spec_raw_tokens(input@, i as int, in_quotes, quote, cur@)
                        == seq![cur@] + rest);
                    assert(raw_done + (seq![cur@] + rest) =~~= raw_done.push(cur@) + rest);
                    assert(raw_done.push(cur@).map_values(f) =~~= raw_done.map_values(f).push(
                        f(cur@),
                    ));
                    assert(args.deep_view() =~~= raw_done.push(cur@).map_values(f));
                    raw_done = raw_done.push(cur@);
                }
                cur = Vec::new();
                proof {
                    assert(cur@ =~= Seq::<char>::empty());
                }
            }
            i = i + 1;
        } else {
            cur.push(c);
            i = i + 1;
        }
    }
    if cur.len() > 0 {
        let tok = finish_token(&cur, env, home);
        args.push(tok);
        proof {
            let f = |t: Seq<char>| spec_finish_token(t, env@, home.deep_view());
            assert(spec_raw_tokens(input@, n as int, in_quotes, quote, cur@) == seq![cur@]);
            assert(raw_done + seq![cur@] =~~= raw_done.push(cur@));
            assert(raw_done.push(cur@).map_values(f) =~~= raw_done.map_values(f).push(f(cur@)));
            assert(args.deep_view() =~~= raw_done.push(cur@).map_values(f));
            raw_done = raw_done.push(cur@);
        }
    } else {
        proof {
            assert(spec_raw_tokens(input@, n as int, in_quotes, quote, cur@) =~~= Seq::<Seq<char>>::empty());
            assert(raw_done + Seq::<Seq<char>>::empty() =~~= raw_done);
        }
    }
    proof {
        assert(raw_done =~~= raw_full);
        assert(args.deep_view() =~~= spec_tokenize(input@, env@, home.deep_view()));
    }
    args
}

} // verus!
