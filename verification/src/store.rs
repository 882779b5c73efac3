//! The byte-keyed, byte-valued store owned by a VM.
//!
//! Keys are unique; insertion order carries no meaning.  The store is
//! held as an association vector so that every operation is verified
//! against the store's abstract `Map` view.

use vstd::prelude::*;
use vstd::slice::slice_to_vec;

verus! {

/// Byte-for-byte equality of two byte slices.
fn bytes_eq(a: &[u8], b: &[u8]) -> (r: bool)
    ensures
        r == (a@ == b@),
{
    if a.len() != b.len() {
        return false;
    }
    let mut i: usize = 0;
    while i < a.len()
        invariant
            0 <= i <= a@.len(),
            a@.len() == b@.len(),
            forall|j: int| 0 <= j < i ==> a@[j] == b@[j],
        decreases a@.len() - i,
    {
        if a[i] != b[i] {
            return false;
        }
        i += 1;
    }
    proof {
        assert(a@ =~= b@);
    }
    true
}

/// The length a guest is told for key `k`: the stored value's length,
/// or zero when `k` is absent.
pub open spec fn spec_length_of(m: Map<Seq<u8>, Seq<u8>>, k: Seq<u8>) -> nat {
    if m.contains_key(k) {
        m[k].len()
    } else {
        0
    }
}

/// The abstract contents of a sequence of store entries: later entries
/// overwrite earlier ones with the same key.
pub open spec fn map_of_entries(es: Seq<(Seq<u8>, Seq<u8>)>) -> Map<Seq<u8>, Seq<u8>>
    decreases es.len(),
{
    if es.len() == 0 {
        Map::empty()
    } else {
        map_of_entries(es.drop_last()).insert(es.last().0, es.last().1)
    }
}

/// No two entries share a key.
pub open spec fn distinct_keys(es: Seq<(Seq<u8>, Seq<u8>)>) -> bool {
    forall|i: int, j: int| 0 <= i < j < es.len() ==> es[i].0 != es[j].0
}

/// Whether each entry fits in memory, as every entry of a real
/// [`Store`] does.
pub open spec fn entries_fit(es: Seq<(Seq<u8>, Seq<u8>)>) -> bool {
    forall|i: int|
        0 <= i < es.len() ==> (#[trigger] es[i]).0.len() <= usize::MAX && es[i].1.len()
            <= usize::MAX
}

/// A key is in the map exactly when some entry holds it.
pub proof fn lemma_map_of_entries_contains(es: Seq<(Seq<u8>, Seq<u8>)>, k: Seq<u8>)
    ensures
        map_of_entries(es).contains_key(k) <==> exists|i: int| 0 <= i < es.len() && es[i].0 == k,
    decreases es.len(),
{
    if es.len() == 0 {
    } else {
        lemma_map_of_entries_contains(es.drop_last(), k);
        if es.last().0 == k {
            assert(es[es.len() - 1].0 == k);
        } else {
            if map_of_entries(es).contains_key(k) {
                let i = choose|i: int|
                    0 <= i < es.drop_last().len() && es.drop_last()[i].0 == k;
                assert(es[i].0 == k);
            }
            if exists|i: int| 0 <= i < es.len() && es[i].0 == k {
                let i = choose|i: int| 0 <= i < es.len() && es[i].0 == k;
                assert(es.drop_last()[i].0 == k);
            }
        }
    }
}

/// With distinct keys, each entry's key maps to that entry's value.
pub proof fn lemma_map_of_entries_index(es: Seq<(Seq<u8>, Seq<u8>)>, i: int)
    requires
        distinct_keys(es),
        0 <= i < es.len(),
    ensures
        map_of_entries(es).contains_key(es[i].0),
        map_of_entries(es)[es[i].0] == es[i].1,
    decreases es.len(),
{
    if i == es.len() - 1 {
    } else {
        lemma_map_of_entries_index(es.drop_last(), i);
        assert(es.drop_last()[i] == es[i]);
        assert(es.last().0 != es[i].0);
    }
}

/// Overwriting the value of the entry at `i` updates the map at that key.
pub proof fn lemma_map_of_entries_update(es: Seq<(Seq<u8>, Seq<u8>)>, i: int, v: Seq<u8>)
    requires
        distinct_keys(es),
        0 <= i < es.len(),
    ensures
        map_of_entries(es.update(i, (es[i].0, v))) == map_of_entries(es).insert(es[i].0, v),
    decreases es.len(),
{
    let es2 = es.update(i, (es[i].0, v));
    if i == es.len() - 1 {
        assert(es2.drop_last() =~= es.drop_last());
        assert(map_of_entries(es2) =~= map_of_entries(es).insert(es[i].0, v));
    } else {
        lemma_map_of_entries_update(es.drop_last(), i, v);
        assert(es2.drop_last() =~= es.drop_last().update(i, (es[i].0, v)));
        assert(es.drop_last()[i] == es[i]);
        assert(es2.last() == es.last());
        assert(es.last().0 != es[i].0);
        assert(map_of_entries(es2) =~= map_of_entries(es).insert(es[i].0, v));
    }
}

/// Appending an entry inserts its key into the map.
pub proof fn lemma_map_of_entries_push(es: Seq<(Seq<u8>, Seq<u8>)>, k: Seq<u8>, v: Seq<u8>)
    ensures
        map_of_entries(es.push((k, v))) == map_of_entries(es).insert(k, v),
{
    assert(es.push((k, v)).drop_last() =~= es);
}

/// A mapping from byte-sequence keys to byte-sequence values.
pub struct Store {
    entries: Vec<(Vec<u8>, Vec<u8>)>,
}

impl View for Store {
    type V = Map<Seq<u8>, Seq<u8>>;

    open spec fn view(&self) -> Map<Seq<u8>, Seq<u8>> {
        map_of_entries(self.entries_view())
    }
}

impl Store {
    /// The store's entries, in insertion order, as abstract byte sequences.
    pub closed spec fn entries_view(&self) -> Seq<(Seq<u8>, Seq<u8>)> {
        self.entries@.map(|i: int, e: (Vec<u8>, Vec<u8>)| (e.0@, e.1@))
    }

    /// Well-formed: no two entries share a key.
    pub open spec fn wf(&self) -> bool {
        distinct_keys(self.entries_view())
    }

    pub fn new() -> (r: Store)
        ensures
            r.wf(),
            r@ == Map::<Seq<u8>, Seq<u8>>::empty(),
            r.entries_view() == Seq::<(Seq<u8>, Seq<u8>)>::empty(),
    {
        let r = Store { entries: Vec::new() };
        proof {
            assert(r.entries_view() =~= Seq::<(Seq<u8>, Seq<u8>)>::empty());
        }
        r
    }

    /// How many entries the store holds.
    pub fn entry_count(&self) -> (n: usize)
        ensures
            n == self.entries_view().len(),
    {
        self.entries.len()
    }

    /// The key of the entry at position `i`.
    pub fn key_at(&self, i: usize) -> (k: &Vec<u8>)
        requires
            i < self.entries_view().len(),
        ensures
            k@ == self.entries_view()[i as int].0,
    {
        &self.entries[i].0
    }

    /// The value of the entry at position `i`.
    pub fn value_at(&self, i: usize) -> (v: &Vec<u8>)
        requires
            i < self.entries_view().len(),
        ensures
            v@ == self.entries_view()[i as int].1,
    {
        &self.entries[i].1
    }

    /// The position of the entry holding `key`, if any.
    fn find(&self, key: &[u8]) -> (r: Option<usize>)
        ensures
            match r {
                Some(i) => i < self.entries_view().len() && self.entries_view()[i as int].0
                    == key@,
                None => forall|i: int|
                    0 <= i < self.entries_view().len() ==> self.entries_view()[i].0 != key@,
            },
    {
        let mut i: usize = 0;
        while i < self.entries.len()
            invariant
                0 <= i <= self.entries_view().len(),
                self.entries_view().len() == self.entries@.len(),
                forall|j: int| 0 <= j < i ==> self.entries_view()[j].0 != key@,
            decreases self.entries@.len() - i,
        {
            if bytes_eq(self.entries[i].0.as_slice(), key) {
                return Some(i);
            }
            i += 1;
        }
        None
    }

    /// Looks `key` up, returning a reference to the stored value.
    pub fn get(&self, key: &[u8]) -> (r: Option<&Vec<u8>>)
        requires
            self.wf(),
        ensures
            match r {
                Some(v) => self@.contains_key(key@) && v@ == self@[key@],
                None => !self@.contains_key(key@),
            },
    {
        proof {
            lemma_map_of_entries_contains(self.entries_view(), key@);
        }
        match self.find(key) {
            Some(i) => {
                proof {
                    lemma_map_of_entries_index(self.entries_view(), i as int);
                }
                Some(&self.entries[i].1)
            },
            None => None,
        }
    }

    /// The stored value's length, or zero when `key` is absent.
    pub fn length_of(&self, key: &[u8]) -> (n: usize)
        requires
            self.wf(),
        ensures
            n == spec_length_of(self@, key@),
    {
        match self.get(key) {
            Some(v) => v.len(),
            None => 0,
        }
    }

    /// Inserts or overwrites `key -> value`.
    pub fn insert(&mut self, key: Vec<u8>, value: Vec<u8>)
        requires
            old(self).wf(),
        ensures
            final(self).wf(),
            final(self)@ == old(self)@.insert(key@, value@),
            !old(self)@.contains_key(key@) ==> final(self).entries_view() == old(
                self,
            ).entries_view().push((key@, value@)),
    {
        proof {
            lemma_map_of_entries_contains(self.entries_view(), key@);
        }
        match self.find(key.as_slice()) {
            Some(i) => {
                proof {
                    lemma_map_of_entries_update(self.entries_view(), i as int, value@);
                }
                let ghost old_entries = self.entries_view();
                self.entries[i] = (key, value);
                proof {
                    assert(self.entries_view() =~= old_entries.update(
                        i as int,
                        (old_entries[i as int].0, value@),
                    ));
                }
            },
            None => {
                proof {
                    lemma_map_of_entries_push(self.entries_view(), key@, value@);
                }
                let ghost old_entries = self.entries_view();
                self.entries.push((key, value));
                proof {
                    assert(self.entries_view() =~= old_entries.push((key@, value@)));
                    assert forall|i: int, j: int|
                        0 <= i < j < self.entries_view().len() implies self.entries_view()[i].0
                        != self.entries_view()[j].0 by {
                        if j < self.entries_view().len() - 1 {
                        } else {
                            assert(self.entries_view()[i].0 != key@);
                        }
                    }
                }
            },
        }
    }

    /// A store held in memory has entries that fit in memory.
    pub proof fn lemma_entries_fit(&self)
        ensures
            entries_fit(self.entries_view()),
            self.entries_view().len() <= usize::MAX,
    {
        assert(self.entries.len() == self.entries@.len());
        assert forall|i: int| 0 <= i < self.entries_view().len() implies (
        #[trigger] self.entries_view()[i]).0.len() <= usize::MAX && self.entries_view()[i].1.len()
            <= usize::MAX by {
            let e = self.entries@[i];
            assert(e.0.len() == e.0@.len());
            assert(e.1.len() == e.1@.len());
        }
    }

    /// An independent copy of the store.
    pub fn snapshot(&self) -> (r: Store)
        ensures
            r.entries_view() == self.entries_view(),
            r@ == self@,
            r.wf() == self.wf(),
    {
        let mut entries: Vec<(Vec<u8>, Vec<u8>)> = Vec::new();
        let mut i: usize = 0;
        while i < self.entries.len()
            invariant
                0 <= i <= self.entries@.len(),
                entries@.len() == i,
                forall|j: int|
                    0 <= j < i ==> (#[trigger] entries@[j]).0@ == self.entries_view()[j].0
                        && entries@[j].1@ == self.entries_view()[j].1,
            decreases self.entries@.len() - i,
        {
            let k = slice_to_vec(self.entries[i].0.as_slice());
            let v = slice_to_vec(self.entries[i].1.as_slice());
            entries.push((k, v));
            i += 1;
        }
        let r = Store { entries };
        proof {
            assert(r.entries_view() =~= self.entries_view());
        }
        r
    }
}

} // verus!
