//! The ordered key/value container that is the unit of BSON encoding.

use vstd::prelude::*;

use crate::bson::Bson;
use crate::bson::Val;
use crate::bson::clone_bson;
use crate::bson::val_of;
use crate::key_index::key_index_get;
use crate::key_index::key_index_insert;
use crate::key_index::key_index_new;
use crate::key_index::key_index_view;
use crate::key_index::KeyIndex;

verus! {

broadcast use vstd::std_specs::vec::group_vec_axioms;

/// Represents a BSON document: an ordered mapping from string keys to
/// `Bson` values.
///
/// Entries live in `slots` in insertion order; `index` maps each key
/// to its slot, so that lookup does not scan.  Replacing the value of
/// an existing key reuses its slot and therefore keeps its position.
#[derive(Debug, PartialEq)]
pub struct Document {
    slots: Vec<(String, Bson)>,
    index: KeyIndex,
}

/// The models of a sequence of document slots, in order.
pub open spec fn entries_of(slots: Seq<(String, Bson)>) -> Seq<(Seq<char>, Val)>
    decreases slots,
{
    if slots.len() == 0 {
        Seq::empty()
    } else {
        entries_of(slots.drop_last()).push((slots.last().0@, val_of(slots.last().1)))
    }
}

/// The model of a document: its key/value entries in insertion order.
pub closed spec fn doc_entries(d: Document) -> Seq<(Seq<char>, Val)>
    decreases d,
{
    entries_of(d.slots@)
}

impl View for Document {
    type V = Seq<(Seq<char>, Val)>;

    open spec fn view(&self) -> Seq<(Seq<char>, Val)> {
        doc_entries(*self)
    }
}

/// Whether some entry of `es` has the key `k`.
pub open spec fn has_key(es: Seq<(Seq<char>, Val)>, k: Seq<char>) -> bool {
    exists|i: int| 0 <= i < es.len() && es[i].0 == k
}

/// The position of the entry with key `k`.
pub open spec fn key_slot(es: Seq<(Seq<char>, Val)>, k: Seq<char>) -> int
    recommends
        has_key(es, k),
{
    choose|i: int| 0 <= i < es.len() && es[i].0 == k
}

/// The value stored under key `k`.
pub open spec fn value_of(es: Seq<(Seq<char>, Val)>, k: Seq<char>) -> Val
    recommends
        has_key(es, k),
{
    es[key_slot(es, k)].1
}

/// Adding one entry to an entry list with the container's semantics:
/// an existing key keeps its position and takes the new value, a new
/// key is appended at the end.
pub open spec fn insert_entry(
    es: Seq<(Seq<char>, Val)>,
    e: (Seq<char>, Val),
) -> Seq<(Seq<char>, Val)> {
    if has_key(es, e.0) {
        es.update(key_slot(es, e.0), e)
    } else {
        es.push(e)
    }
}

/// Folding a raw entry list into a container, entry by entry, with
/// `insert_entry`.  This is what building a document by repeated
/// insertion yields.
pub open spec fn fold_entries(es: Seq<(Seq<char>, Val)>) -> Seq<(Seq<char>, Val)>
    decreases es.len(),
{
    if es.len() == 0 {
        Seq::empty()
    } else {
        insert_entry(fold_entries(es.drop_last()), es.last())
    }
}

/// No two entries of `es` share a key.
pub open spec fn distinct_keys(es: Seq<(Seq<char>, Val)>) -> bool {
    forall|i: int, j: int| 0 <= i < es.len() && 0 <= j < es.len() && i != j
        ==> (#[trigger] es[i]).0 != (#[trigger] es[j]).0
}

/// `entries_of` maps the slot models pointwise over the sequence.
pub proof fn lemma_entries_of(slots: Seq<(String, Bson)>)
    ensures
        entries_of(slots).len() == slots.len(),
        forall|i: int| 0 <= i < slots.len()
            ==> entries_of(slots)[i] == ((#[trigger] slots[i]).0@, slots[i].1@),
    decreases slots,
{
    if slots.len() > 0 {
        lemma_entries_of(slots.drop_last());
        assert forall|i: int| 0 <= i < slots.len()
            implies entries_of(slots)[i] == ((#[trigger] slots[i]).0@, slots[i].1@) by {
            if i < slots.len() - 1 {
                assert(slots.drop_last()[i] == slots[i]);
            }
        }
    }
}

impl Document {
    /// The internal consistency of a document: the index maps exactly
    /// the keys of the slots, each to its slot number.
    #[verifier::type_invariant]
    pub closed spec fn wf(self) -> bool {
        &&& forall|i: int| 0 <= i < self.slots@.len() ==> {
            &&& key_index_view(self.index).contains_key((#[trigger] self.slots@[i]).0@)
            &&& key_index_view(self.index)[self.slots@[i].0@] == i
        }
        &&& forall|k: Seq<char>| #[trigger] key_index_view(self.index).contains_key(k) ==> {
            &&& 0 <= key_index_view(self.index)[k] < self.slots@.len()
            &&& self.slots@[key_index_view(self.index)[k] as int].0@ == k
        }
    }

    /// Entries of a well-formed document have pairwise distinct keys.
    pub proof fn lemma_wf_distinct(self)
        requires
            self.wf(),
        ensures
            distinct_keys(self@),
    {
        lemma_entries_of(self.slots@);
        assert forall|i: int, j: int|
            0 <= i < self@.len() && 0 <= j < self@.len() && i != j
            implies (#[trigger] self@[i]).0 != (#[trigger] self@[j]).0 by {
            if self.slots@[i].0@ == self.slots@[j].0@ {
                assert(key_index_view(self.index)[self.slots@[i].0@] == i);
                assert(key_index_view(self.index)[self.slots@[j].0@] == j);
            }
        }
    }

    /// Create a new, empty `Document`.
    pub fn new() -> (d: Document)
        ensures
            d@ == Seq::<(Seq<char>, Val)>::empty(),
    {
        let d = Document { slots: Vec::new(), index: key_index_new() };
        proof {
            assert(d@ =~= Seq::<(Seq<char>, Val)>::empty());
        }
        d
    }

    /// The number of entries in the document.
    pub fn len(&self) -> (n: usize)
        ensures
            n == self@.len(),
    {
        proof {
            lemma_entries_of(self.slots@);
        }
        self.slots.len()
    }

    /// The entry at position `i`, in insertion order.
    pub fn entry_at(&self, i: usize) -> (p: &(String, Bson))
        requires
            i < self@.len(),
        ensures
            p.0@ == self@[i as int].0,
            p.1@ == self@[i as int].1,
            (decreases_to!(*self => *p)),
    {
        proof {
            lemma_entries_of(self.slots@);
            assert(decreases_to!(*self => self.slots));
            assert(decreases_to!(self.slots => self.slots@[i as int]));
        }
        &self.slots[i]
    }

    /// Get the value stored under the provided key, or `None` if the
    /// key is absent.
    pub fn get(&self, key: &str) -> (r: Option<&Bson>)
        ensures
            match r {
                Some(v) => has_key(self@, key@) && v@ == value_of(self@, key@),
                None => !has_key(self@, key@),
            },
    {
        proof {
            use_type_invariant(self);
            lemma_entries_of(self.slots@);
        }
        match key_index_get(&self.index, key) {
            Some(i) => {
                let p = &self.slots[i];
                proof {
                    assert(self@[i as int].0 == key@);
                    self.lemma_wf_distinct();
                    assert(key_slot(self@, key@) == i as int);
                }
                Some(&p.1)
            },
            None => {
                proof {
                    if has_key(self@, key@) {
                        let i = key_slot(self@, key@);
                        assert(self@[i] == (self.slots@[i].0@, self.slots@[i].1@));
                    }
                }
                None
            },
        }
    }

    /// Insert an element into the `Document` under the given key.
    ///
    /// Returns the previous value stored under the key, or `None` if
    /// the key was absent.  Replacing the value of an existing key
    /// keeps the key's position; a new key is appended at the end.
    pub fn insert(&mut self, key: String, value: Bson) -> (prev: Option<Bson>)
        ensures
            has_key(old(self)@, key@) ==> {
                &&& final(self)@ == old(self)@.update(
                    key_slot(old(self)@, key@),
                    (key@, value@),
                )
                &&& prev matches Some(p) && p@ == value_of(old(self)@, key@)
            },
            !has_key(old(self)@, key@) ==> {
                &&& final(self)@ == old(self)@.push((key@, value@))
                &&& prev is None
            },
    {
        proof {
            use_type_invariant(&*self);
            lemma_entries_of(self.slots@);
            self.lemma_wf_distinct();
        }
        let ghost old_entries = self@;
        let ghost old_slots = self.slots@;
        let ghost old_index = self.index;
        let r = key_index_get(&self.index, key.as_str());
        let key_for_index = key.as_str().to_owned();
        let mut tmp = Document::new();
        core::mem::swap(self, &mut tmp);
        let Document { mut slots, mut index } = tmp;
        match r {
            Some(i) => {
                let ghost gi = i as int;
                let mut pair = (key, value);
                core::mem::swap(&mut slots[i], &mut pair);
                let ghost new_slots = slots@;
                let mut built = Document { slots, index };
                proof {
                    assert(old_entries[gi].0 == key@);
                    assert(key_slot(old_entries, key@) == gi);
                    lemma_entries_of(new_slots);
                    assert forall|j: int| 0 <= j < new_slots.len()
                        implies entries_of(new_slots)[j]
                            == old_entries.update(gi, (key@, value@))[j] by {
                        if j == gi {
                            assert(new_slots[j] == (key, value));
                        } else {
                            assert(new_slots[j] == old_slots[j]);
                        }
                    }
                    assert(built@ =~= old_entries.update(gi, (key@, value@)));
                }
                core::mem::swap(self, &mut built);
                Some(pair.1)
            },
            None => {
                proof {
                    if has_key(old_entries, key@) {
                        let i = key_slot(old_entries, key@);
                        assert(0 <= i < old_entries.len() && old_entries[i].0 == key@);
                        assert(old_entries[i] == (old_slots[i].0@, old_slots[i].1@));
                    }
                }
                let n = slots.len();
                key_index_insert(&mut index, key_for_index, n);
                slots.push((key, value));
                let ghost new_slots = slots@;
                let mut built = Document { slots, index };
                proof {
                    assert(new_slots.drop_last() =~= new_slots.subrange(0, n as int));
                    assert(new_slots.subrange(0, n as int) =~= old_slots);
                    lemma_entries_of(new_slots);
                    assert(built@ =~= old_entries.push((key@, value@)));
                }
                core::mem::swap(self, &mut built);
                None
            },
        }
    }
}

/// Clone a document by inserting each entry, in order, into a fresh
/// one; the clone has the same entries.
pub fn clone_doc(d: &Document) -> (r: Document)
    ensures
        r@ == d@,
    decreases *d, 0int,
{
    proof {
        use_type_invariant(d);
        d.lemma_wf_distinct();
    }
    let n = d.len();
    let mut r = Document::new();
    let mut i: usize = 0;
    proof {
        assert(r@ =~= d@.take(0));
    }
    while i < n
        invariant
            n == d@.len(),
            0 <= i <= n,
            distinct_keys(d@),
            r@ == d@.take(i as int),
        decreases n - i,
    {
        let p = d.entry_at(i);
        let k = p.0.as_str().to_owned();
        let v = clone_bson(&p.1);
        proof {
            if has_key(d@.take(i as int), d@[i as int].0) {
                let j = key_slot(d@.take(i as int), d@[i as int].0);
                assert(d@.take(i as int)[j] == d@[j]);
            }
        }
        r.insert(k, v);
        proof {
            assert(r@ =~= d@.take(i + 1));
        }
        i = i + 1;
    }
    proof {
        assert(d@.take(n as int) =~= d@);
    }
    r
}

impl Clone for Document {
    /// Cloning is structural: the clone has the same entries, in the
    /// same order.
    fn clone(&self) -> (r: Document)
        ensures
            r@ == self@,
    {
        clone_doc(self)
    }
}

} // verus!
