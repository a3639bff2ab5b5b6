//! String interning: maps each distinct wire name to a stable small
//! identifier. Equal strings yield equal identifiers within a session, and
//! identifiers, once handed out, never change.

use vstd::prelude::*;
use crate::text::str_eq;

verus! {

/// First index of `s` in `t`; meaningful only when `t` contains `s`.
pub open spec fn idx_of(t: Seq<Seq<char>>, s: Seq<char>) -> int
    decreases t.len(),
{
    if t.len() == 0 {
        0
    } else if t[0] == s {
        0
    } else {
        1 + idx_of(t.drop_first(), s)
    }
}

/// When `t` contains `s`, `idx_of` is the first index holding `s`.
pub proof fn lemma_idx_of_props(t: Seq<Seq<char>>, s: Seq<char>)
    requires
        t.contains(s),
    ensures
        0 <= idx_of(t, s) < t.len(),
        t[idx_of(t, s)] == s,
        forall|k: int| 0 <= k < idx_of(t, s) ==> t[k] != s,
    decreases t.len(),
{
    if t.len() > 0 && t[0] != s {
        assert(t.drop_first().contains(s)) by {
            let w = choose|w: int| 0 <= w < t.len() && t[w] == s;
            assert(t.drop_first()[w - 1] == s);
        }
        lemma_idx_of_props(t.drop_first(), s);
        assert forall|k: int| 0 <= k < idx_of(t, s) implies t[k] != s by {
            if k > 0 {
                assert(t.drop_first()[k - 1] == t[k]);
            }
        }
    }
}

/// `idx_of` is determined by the first match.
pub proof fn lemma_idx_of_first(t: Seq<Seq<char>>, s: Seq<char>, i: int)
    requires
        0 <= i < t.len(),
        t[i] == s,
        forall|k: int| 0 <= k < i ==> t[k] != s,
    ensures
        idx_of(t, s) == i,
    decreases t.len(),
{
    if t[0] != s {
        assert(t.drop_first()[i - 1] == s);
        assert forall|k: int| 0 <= k < i - 1 implies t.drop_first()[k] != s by {
            assert(t.drop_first()[k] == t[k + 1]);
        }
        lemma_idx_of_first(t.drop_first(), s, i - 1);
    }
}

/// Extending the table does not move an entry already present.
pub proof fn lemma_idx_of_prefix(t1: Seq<Seq<char>>, t2: Seq<Seq<char>>, s: Seq<char>)
    requires
        t1.is_prefix_of(t2),
        t1.contains(s),
    ensures
        idx_of(t2, s) == idx_of(t1, s),
{
    lemma_idx_of_props(t1, s);
    let i = idx_of(t1, s);
    assert(t2[i] == s) by {
        assert(t2.subrange(0, t1.len() as int)[i] == t2[i]);
    }
    assert forall|k: int| 0 <= k < i implies t2[k] != s by {
        assert(t2.subrange(0, t1.len() as int)[k] == t2[k]);
        assert(t1[k] != s);
    }
    lemma_idx_of_first(t2, s, i);
}

/// Prefixes chain: a prefix of a prefix is a prefix.
pub proof fn lemma_prefix_transitive(a: Seq<Seq<char>>, b: Seq<Seq<char>>, c: Seq<Seq<char>>)
    requires
        a.is_prefix_of(b),
        b.is_prefix_of(c),
    ensures
        a.is_prefix_of(c),
{
    assert forall|k: int| 0 <= k < a.len() implies c.subrange(0, a.len() as int)[k] == a[k] by {
        assert(b.subrange(0, a.len() as int)[k] == a[k]);
        assert(c.subrange(0, b.len() as int)[k] == b[k]);
    }
    assert(a =~= c.subrange(0, a.len() as int));
}

/// The session-wide intern table: identifier `i` names the `i`-th distinct
/// string seen.
pub struct IdStringDb {
    pub table: Vec<String>,
}

impl View for IdStringDb {
    type V = Seq<Seq<char>>;

    open spec fn view(&self) -> Seq<Seq<char>> {
        self.table.deep_view()
    }
}

impl IdStringDb {
    /// No two table entries are equal, so equal identifiers mean equal
    /// strings.
    pub open spec fn inv(&self) -> bool {
        forall|i: int, j: int| 0 <= i < j < self@.len() ==> self@[i] != self@[j]
    }

    /// An empty intern table.
    pub fn new() -> (r: IdStringDb)
        ensures
            r@ =~= Seq::<Seq<char>>::empty(),
            r.inv(),
    {
        IdStringDb { table: Vec::new() }
    }

    /// How many identifiers have been handed out.
    pub fn len(&self) -> (r: usize)
        ensures
            r == self@.len(),
    {
        self.table.len()
    }

    /// The string behind an identifier.
    pub fn lookup(&self, id: usize) -> (r: &str)
        requires
            id < self@.len(),
        ensures
            r@ == self@[id as int],
    {
        self.table[id].as_str()
    }

    /// Identifier for `s`: the index of its first occurrence, appending `s`
    /// to the table when it is new. Equal strings always yield equal
    /// identifiers, and the table only ever grows at its end.
    pub fn id(&mut self, s: &str) -> (r: usize)
        requires
            old(self).inv(),
        ensures
            final(self).inv(),
            old(self)@.contains(s@) ==> final(self)@ == old(self)@,
            !old(self)@.contains(s@) ==> final(self)@ =~= old(self)@.push(s@),
            old(self)@.is_prefix_of(final(self)@),
            final(self)@.contains(s@),
            r == idx_of(final(self)@, s@),
            r < final(self)@.len() && final(self)@[r as int] == s@,
    {
        let n = self.table.len();
        let mut i: usize = 0;
        while i < n
            invariant
                0 <= i <= n,
                n == self@.len(),
                self.table == old(self).table,
                old(self).inv(),
                forall|k: int| 0 <= k < i ==> self@[k] != s@,
            decreases n - i,
        {
            if str_eq(self.table[i].as_str(), s) {
                proof {
                    assert(self@[i as int] == s@);
                    assert(self@.contains(s@));
                    lemma_idx_of_first(self@, s@, i as int);
                    assert(self@.is_prefix_of(self@)) by {
                        assert(self@.subrange(0, self@.len() as int) =~= self@);
                    }
                }
                return i;
            }
            i = i + 1;
        }
        proof {
            assert(!self@.contains(s@));
        }
        self.table.push(String::from_str(s));
        proof {
            assert(self@ =~= old(self)@.push(s@));
            lemma_idx_of_first(self@, s@, n as int);
            assert(old(self)@.is_prefix_of(self@)) by {
                assert(self@.subrange(0, n as int) =~= old(self)@);
            }
        }
        n
    }
}

} // verus!
