//! The ordered key/value table that the parser fills while in its
//! key/value state: text keys mapped to text values, keys unique, a
//! repeated key overwriting the earlier value. The table's view is the
//! finite map from key text to value text.

use vstd::prelude::*;

verus! {

/// The map that a sequence of entries denotes, later entries winning.
pub open spec fn map_of_entries(es: Seq<(String, String)>) -> Map<Seq<char>, Seq<char>>
    decreases es.len(),
{
    if es.len() == 0 {
        Map::empty()
    } else {
        map_of_entries(es.drop_last()).insert(es.last().0@, es.last().1@)
    }
}

/// No two entries carry the same key text.
pub open spec fn distinct_keys(es: Seq<(String, String)>) -> bool {
    forall|i: int, j: int| 0 <= i < j < es.len() ==> es[i].0@ != es[j].0@
}

/// A key is in the denoted map exactly when some entry carries it.
pub proof fn lemma_map_of_entries_contains(es: Seq<(String, String)>, k: Seq<char>)
    ensures
        map_of_entries(es).contains_key(k) <==> exists|i: int| 0 <= i < es.len() && es[i].0@ == k,
    decreases es.len(),
{
    if es.len() > 0 {
        lemma_map_of_entries_contains(es.drop_last(), k);
        if map_of_entries(es).contains_key(k) {
            if k == es.last().0@ {
                assert(es[es.len() - 1].0@ == k);
            } else {
                let i = choose|i: int|
                    0 <= i < es.drop_last().len() && es.drop_last()[i].0@ == k;
                assert(es[i].0@ == k);
            }
        }
        if exists|i: int| 0 <= i < es.len() && es[i].0@ == k {
            let i = choose|i: int| 0 <= i < es.len() && es[i].0@ == k;
            if i < es.len() - 1 {
                assert(es.drop_last()[i].0@ == k);
            }
        }
    }
}

/// With its key unique in the table, an entry decides the map's value.
pub proof fn lemma_map_of_entries_get(es: Seq<(String, String)>, i: int)
    requires
        0 <= i < es.len(),
        forall|j: int| 0 <= j < es.len() && j != i ==> es[j].0@ != es[i].0@,
    ensures
        map_of_entries(es).contains_key(es[i].0@),
        map_of_entries(es)[es[i].0@] == es[i].1@,
    decreases es.len(),
{
    if i < es.len() - 1 {
        lemma_map_of_entries_get(es.drop_last(), i);
        assert(es.last().0@ != es[i].0@);
    }
}

/// Overwriting the entry that carries a key denotes a plain map insert.
pub proof fn lemma_map_of_entries_update(es: Seq<(String, String)>, i: int, p: (String, String))
    requires
        0 <= i < es.len(),
        forall|j: int| 0 <= j < es.len() && j != i ==> es[j].0@ != es[i].0@,
        p.0@ == es[i].0@,
    ensures
        map_of_entries(es.update(i, p)) == map_of_entries(es).insert(p.0@, p.1@),
    decreases es.len(),
{
    let k = es[i].0@;
    if i == es.len() - 1 {
        assert(es.update(i, p).drop_last() =~= es.drop_last());
        assert(es.update(i, p).last() == p);
        assert(map_of_entries(es.drop_last()).insert(k, p.1@) =~= map_of_entries(
            es.drop_last(),
        ).insert(k, es.last().1@).insert(k, p.1@));
    } else {
        let d = es.drop_last();
        lemma_map_of_entries_update(d, i, p);
        assert(es.update(i, p).drop_last() =~= d.update(i, p));
        assert(es.update(i, p).last() == es.last());
        assert(es.last().0@ != k);
        assert(map_of_entries(d).insert(k, p.1@).insert(es.last().0@, es.last().1@)
            =~= map_of_entries(d).insert(es.last().0@, es.last().1@).insert(k, p.1@));
    }
}

/// Key/value metadata collected from the dump, keys unique, a later
/// occurrence of a key overwriting the earlier value.
pub struct KeyValueTable {
    entries: Vec<(String, String)>,
}

impl View for KeyValueTable {
    type V = Map<Seq<char>, Seq<char>>;

    closed spec fn view(&self) -> Map<Seq<char>, Seq<char>> {
        map_of_entries(self.entries@)
    }
}

impl KeyValueTable {
    /// Keys are pairwise distinct; every operation preserves this.
    pub closed spec fn wf(self) -> bool {
        distinct_keys(self.entries@)
    }

    /// The entries in order of first appearance.
    pub closed spec fn entries_view(self) -> Seq<(String, String)> {
        self.entries@
    }

    pub fn new() -> (t: KeyValueTable)
        ensures
            t.wf(),
            t@ == Map::<Seq<char>, Seq<char>>::empty(),
            t.entries_view() == Seq::<(String, String)>::empty(),
    {
        KeyValueTable { entries: Vec::new() }
    }

    /// Bind `key` to `value`, overwriting any earlier binding of `key`.
    pub fn insert(&mut self, key: String, value: String)
        requires
            old(self).wf(),
        ensures
            final(self).wf(),
            final(self)@ == old(self)@.insert(key@, value@),
    {
        let ghost es0 = self.entries@;
        let n = self.entries.len();
        let mut i: usize = 0;
        loop
            invariant
                n == self.entries@.len(),
                self.entries@ == es0,
                i <= n,
                forall|j: int| 0 <= j < i ==> self.entries@[j].0@ != key@,
            ensures
                self.entries@ == es0,
                i <= n,
                forall|j: int| 0 <= j < i ==> self.entries@[j].0@ != key@,
                i < n ==> self.entries@[i as int].0@ == key@,
            decreases n - i,
        {
            if i < n {
                if crate::text::str_eq(self.entries[i].0.as_str(), key.as_str()) {
                    break;
                } else {
                    i += 1;
                }
            } else {
                break;
            }
        }
        if i < n {
            proof {
                assert forall|j: int| 0 <= j < es0.len() && j != i implies es0[j].0@
                    != es0[i as int].0@ by {
                    if j < i {
                    } else {
                        assert(es0[i as int].0@ != es0[j].0@);
                    }
                }
                lemma_map_of_entries_update(es0, i as int, (key, value));
            }
            self.entries[i] = (key, value);
            proof {
                assert(self.entries@ == es0.update(i as int, (key, value)));
            }
        } else {
            self.entries.push((key, value));
            proof {
                assert(self.entries@.drop_last() =~= es0);
                assert(self.entries@.last() == (key, value));
            }
        }
    }

    /// Look a key up; the result is the map's value at that key text.
    pub fn get(&self, key: &str) -> (r: Option<String>)
        requires
            self.wf(),
        ensures
            match r {
                Some(v) => self@.contains_key(key@) && v@ == self@[key@],
                None => !self@.contains_key(key@),
            },
    {
        let n = self.entries.len();
        let mut i: usize = 0;
        while i < n
            invariant
                n == self.entries@.len(),
                i <= n,
                self.wf(),
                forall|j: int| 0 <= j < i ==> self.entries@[j].0@ != key@,
        decreases n - i,
        {
            if crate::text::str_eq(self.entries[i].0.as_str(), key) {
                proof {
                    assert forall|j: int|
                        0 <= j < self.entries@.len() && j != i implies self.entries@[j].0@
                        != self.entries@[i as int].0@ by {
                        if j < i {
                        } else {
                            assert(self.entries@[i as int].0@ != self.entries@[j].0@);
                        }
                    }
                    lemma_map_of_entries_get(self.entries@, i as int);
                }
                return Some(self.entries[i].1.clone());
            }
            i += 1;
        }
        proof {
            lemma_map_of_entries_contains(self.entries@, key@);
        }
        None
    }

    /// The number of bindings held.
    pub fn len(&self) -> (n: usize)
        ensures
            n == self.entries_view().len(),
    {
        self.entries.len()
    }

    /// The bindings in order of first appearance, for presentation.
    pub fn pairs(&self) -> (r: &Vec<(String, String)>)
        ensures
            r@ == self.entries_view(),
    {
        &self.entries
    }
}

} // verus!
