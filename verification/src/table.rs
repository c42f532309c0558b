//! An ordered string-to-string table, used both for the session's
//! environment variables and for its alias definitions. Entries keep their
//! insertion order; defining an existing key overwrites its value in place,
//! so listings are reproducible.

use vstd::prelude::*;
use crate::text::str_eq;

verus! {

/// A key's value: the value of the first entry whose key is `k`, if any.
pub open spec fn spec_lookup(t: Seq<(Seq<char>, Seq<char>)>, k: Seq<char>) -> Option<Seq<char>>
    decreases t.len(),
{
    if t.len() == 0 {
        None
    } else if t[0].0 == k {
        Some(t[0].1)
    } else {
        spec_lookup(t.drop_first(), k)
    }
}

/// The table after binding `k` to `v`: the first entry keyed `k` is replaced
/// in place, or a new entry is appended when none exists.
pub open spec fn spec_define(
    t: Seq<(Seq<char>, Seq<char>)>,
    k: Seq<char>,
    v: Seq<char>,
) -> Seq<(Seq<char>, Seq<char>)>
    decreases t.len(),
{
    if t.len() == 0 {
        seq![(k, v)]
    } else if t[0].0 == k {
        seq![(k, v)] + t.drop_first()
    } else {
        seq![t[0]] + spec_define(t.drop_first(), k, v)
    }
}

/// After a definition, looking a key up finds the new value for that key and
/// leaves every other key's answer unchanged.
pub proof fn lemma_define_then_lookup(
    t: Seq<(Seq<char>, Seq<char>)>,
    k: Seq<char>,
    v: Seq<char>,
    q: Seq<char>,
)
    ensures
        spec_lookup(spec_define(t, k, v), q) == if q == k {
            Some(v)
        } else {
            spec_lookup(t, q)
        },
    decreases t.len(),
{
    if t.len() == 0 {
        assert(spec_define(t, k, v) =~~= seq![(k, v)]);
        assert(spec_define(t, k, v).drop_first() =~~= Seq::<(Seq<char>, Seq<char>)>::empty());
    } else if t[0].0 == k {
        assert(spec_define(t, k, v).drop_first() =~~= t.drop_first());
    } else {
        assert(spec_define(t, k, v).drop_first() =~~= spec_define(t.drop_first(), k, v));
        lemma_define_then_lookup(t.drop_first(), k, v, q);
    }
}

/// An insertion-ordered mapping from names to replacement strings.
pub struct Table {
    entries: Vec<(String, String)>,
}

impl View for Table {
    type V = Seq<(Seq<char>, Seq<char>)>;

    closed spec fn view(&self) -> Seq<(Seq<char>, Seq<char>)> {
        self.entries.deep_view()
    }
}

impl Table {
    /// An empty table.
    pub fn new() -> (t: Table)
        ensures
            t@ == Seq::<(Seq<char>, Seq<char>)>::empty(),
    {
        let t = Table { entries: Vec::new() };
        proof {
            assert(t@ =~~= Seq::<(Seq<char>, Seq<char>)>::empty());
        }
        t
    }

    /// The value bound to `name`, if any.
    pub fn lookup(&self, name: &str) -> (r: Option<String>)
        ensures
            r.deep_view() == spec_lookup(self@, name@),
    {
        let n = self.entries.len();
        let mut i: usize = 0;
        proof {
            assert(self@.skip(0) =~~= self@);
        }
        while i < n
            invariant
                n == self.entries.len(),
                i <= n,
                spec_lookup(self@, name@) == spec_lookup(self@.skip(i as int), name@),
            decreases n - i,
        {
            proof {
                assert(self@.skip(i as int).drop_first() =~~= self@.skip(i + 1));
                assert(self@.skip(i as int)[0] == self@[i as int]);
            }
            if str_eq(self.entries[i].0.as_str(), name) {
                return Some(self.entries[i].1.clone());
            }
            i = i + 1;
        }
        proof {
            assert(self@.skip(n as int) =~~= Seq::<(Seq<char>, Seq<char>)>::empty());
        }
        None
    }

    /// Bind `name` to `value`, overwriting in place or appending.
    pub fn define(&mut self, name: &str, value: &str)
        ensures
            final(self)@ == spec_define(old(self)@, name@, value@),
    {
        let n = self.entries.len();
        let mut i: usize = 0;
        while i < n
            invariant
                n == self.entries.len(),
                i <= n,
                self@ == old(self)@,
                forall|j: int| 0 <= j < i ==> self@[j].0 != name@,
            decreases n - i,
        {
            if str_eq(self.entries[i].0.as_str(), name) {
                let pair = (name.to_owned(), value.to_owned());
                self.entries.set(i, pair);
                proof {
                    lemma_define_updates_in_place(old(self)@, name@, value@, i as int);
                    assert(self@ =~~= old(self)@.update(i as int, (name@, value@)));
                }
                return;
            }
            i = i + 1;
        }
        let pair = (name.to_owned(), value.to_owned());
        self.entries.push(pair);
        proof {
            lemma_define_appends_when_absent(old(self)@, name@, value@);
            assert(self@ =~~= old(self)@.push((name@, value@)));
        }
    }

    /// Every entry, in insertion order.
    pub fn list(&self) -> (r: Vec<(String, String)>)
        ensures
            r.deep_view() == self@,
    {
        let n = self.entries.len();
        let mut r: Vec<(String, String)> = Vec::new();
        let mut i: usize = 0;
        while i < n
            invariant
                n == self.entries.len(),
                i <= n,
                r.deep_view() =~~= self@.take(i as int),
            decreases n - i,
        {
            let pair = (self.entries[i].0.clone(), self.entries[i].1.clone());
            r.push(pair);
            i = i + 1;
            proof {
                assert(r.deep_view() =~~= self@.take(i as int));
            }
        }
        proof {
            assert(self@.take(n as int) =~~= self@);
        }
        r
    }
}

/// Defining a key that first occurs at position `i` rewrites exactly that
/// position.
proof fn lemma_define_updates_in_place(
    t: Seq<(Seq<char>, Seq<char>)>,
    k: Seq<char>,
    v: Seq<char>,
    i: int,
)
    requires
        0 <= i < t.len(),
        t[i].0 == k,
        forall|j: int| 0 <= j < i ==> t[j].0 != k,
    ensures
        spec_define(t, k, v) == t.update(i, (k, v)),
    decreases i,
{
    if i == 0 {
        assert(spec_define(t, k, v) =~~= t.update(0, (k, v)));
    } else {
        lemma_define_updates_in_place(t.drop_first(), k, v, i - 1);
        assert(t.drop_first().update(i - 1, (k, v)) =~~= t.update(i, (k, v)).drop_first());
        assert(spec_define(t, k, v) =~~= seq![t[0]] + spec_define(t.drop_first(), k, v));
        assert(spec_define(t, k, v) =~~= t.update(i, (k, v)));
    }
}

/// Defining a key that occurs nowhere appends a new entry.
proof fn lemma_define_appends_when_absent(
    t: Seq<(Seq<char>, Seq<char>)>,
    k: Seq<char>,
    v: Seq<char>,
)
    requires
        forall|j: int| 0 <= j < t.len() ==> t[j].0 != k,
    ensures
        spec_define(t, k, v) == t.push((k, v)),
    decreases t.len(),
{
    if t.len() == 0 {
        assert(spec_define(t, k, v) =~~= t.push((k, v)));
    } else {
        lemma_define_appends_when_absent(t.drop_first(), k, v);
        assert(spec_define(t, k, v) =~~= seq![t[0]] + t.drop_first().push((k, v)));
        assert(spec_define(t, k, v) =~~= t.push((k, v)));
    }
}

} // verus!
