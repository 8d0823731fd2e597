//! The datastore: a mapping from owned keys to tagged values, with
//! typed accessors that refuse a key whose stored tag disagrees.

use vstd::prelude::*;

use crate::ascii::{bytes_eq, copy_bytes};
use crate::memds::{msg_not_set, msg_not_string, MemDS, MemV, SetDS, StringDS};
use crate::Error;

verus! {

broadcast use crate::ascii::lemma_vec_u8_deep_view, crate::ascii::lemma_slice_u8_deep_view, vstd::set::group_set_axioms, vstd::set::axiom_set_insert_len, vstd::seq_lib::seq_to_set_is_finite;

/// One key and its stored value.
#[derive(Debug)]
pub struct Entry {
    pub key: Vec<u8>,
    pub val: MemDS,
}

/// The mapping a sequence of entries stands for.
pub open spec fn entries_map(s: Seq<Entry>) -> Map<Seq<u8>, MemV>
    decreases s.len(),
{
    if s.len() == 0 {
        Map::empty()
    } else {
        entries_map(s.drop_last()).insert(s.last().key@, s.last().val.deep_view())
    }
}

/// A key is in the mapping exactly when some entry holds it.
proof fn lemma_entries_map_dom(s: Seq<Entry>, k: Seq<u8>)
    ensures
        entries_map(s).contains_key(k) <==> exists|i: int| 0 <= i < s.len() && s[i].key@ == k,
    decreases s.len(),
{
    if s.len() > 0 {
        lemma_entries_map_dom(s.drop_last(), k);
        if entries_map(s).contains_key(k) {
            if s.last().key@ == k {
                assert(s[s.len() - 1].key@ == k);
            } else {
                let i = choose|i: int| 0 <= i < s.len() - 1 && s.drop_last()[i].key@ == k;
                assert(s[i].key@ == k);
            }
        }
        if exists|i: int| 0 <= i < s.len() && s[i].key@ == k {
            let i = choose|i: int| 0 <= i < s.len() && s[i].key@ == k;
            if i < s.len() - 1 {
                assert(s.drop_last()[i].key@ == k);
            }
        }
    }
}

/// With unique keys, the mapping sends each entry's key to its value.
proof fn lemma_entries_map_at(s: Seq<Entry>, i: int)
    requires
        forall|p: int, q: int| 0 <= p < q < s.len() ==> s[p].key@ != s[q].key@,
        0 <= i < s.len(),
    ensures
        entries_map(s).contains_key(s[i].key@),
        entries_map(s)[s[i].key@] == s[i].val.deep_view(),
    decreases s.len(),
{
    lemma_entries_map_dom(s, s[i].key@);
    if i < s.len() - 1 {
        assert(s[i].key@ != s.last().key@);
        assert(s.drop_last()[i] == s[i]);
        lemma_entries_map_at(s.drop_last(), i);
    }
}

/// Replacing the entry at a position by one with the same key updates
/// the mapping at that key.
proof fn lemma_entries_map_update(s: Seq<Entry>, i: int, e: Entry)
    requires
        forall|p: int, q: int| 0 <= p < q < s.len() ==> s[p].key@ != s[q].key@,
        0 <= i < s.len(),
        e.key@ == s[i].key@,
    ensures
        entries_map(s.update(i, e)) == entries_map(s).insert(e.key@, e.val.deep_view()),
    decreases s.len(),
{
    let u = s.update(i, e);
    if i == s.len() - 1 {
        assert(u.drop_last() =~= s.drop_last());
        assert(u.last() == e);
        assert(entries_map(u) =~= entries_map(s).insert(e.key@, e.val.deep_view()));
    } else {
        assert(u.drop_last() =~= s.drop_last().update(i, e));
        assert(u.last() == s.last());
        lemma_entries_map_update(s.drop_last(), i, e);
        assert(e.key@ != s.last().key@);
        assert(entries_map(u) == entries_map(s.drop_last()).insert(
            e.key@,
            e.val.deep_view(),
        ).insert(s.last().key@, s.last().val.deep_view()));
        assert(entries_map(s.drop_last()).insert(e.key@, e.val.deep_view()).insert(
            s.last().key@,
            s.last().val.deep_view(),
        ) =~= entries_map(s).insert(e.key@, e.val.deep_view()));
    }
}

/// Appending an entry inserts its key into the mapping.
proof fn lemma_entries_map_push(s: Seq<Entry>, e: Entry)
    ensures
        entries_map(s.push(e)) == entries_map(s).insert(e.key@, e.val.deep_view()),
{
    assert(s.push(e).drop_last() =~= s);
    assert(s.push(e).last() == e);
}

/// The datastore. Each key appears once; a stored set is kept without
/// duplicate members.
#[derive(Debug)]
pub struct Database {
    data: Vec<Entry>,
}

impl View for Database {
    type V = Map<Seq<u8>, MemV>;

    closed spec fn view(&self) -> Map<Seq<u8>, MemV> {
        entries_map(self.data@)
    }
}

impl Database {
    /// Keys are unique and stored sets hold no duplicates.
    pub closed spec fn wf(&self) -> bool {
        &&& forall|p: int, q: int|
            0 <= p < q < self.data@.len() ==> self.data@[p].key@ != self.data@[q].key@
        &&& forall|i: int| 0 <= i < self.data@.len() ==> (#[trigger] self.data@[i].val).wf_set()
    }

    /// An empty datastore.
    pub fn new() -> (r: Database)
        ensures
            r.wf(),
            r@ == Map::<Seq<u8>, MemV>::empty(),
    {
        let r = Database { data: Vec::new() };
        proof {
            assert(r.data@.len() == 0);
        }
        r
    }

    /// How many keys are stored.
    pub fn entry_count(&self) -> (r: usize)
        ensures
            r == self.spec_entry_count(),
    {
        self.data.len()
    }

    /// The number of entries.
    pub closed spec fn spec_entry_count(&self) -> nat {
        self.data@.len()
    }

    /// The key and value stored at one position, for walking the whole
    /// store.
    pub fn entry_at(&self, i: usize) -> (r: (&Vec<u8>, &MemDS))
        requires
            self.wf(),
            i < self.spec_entry_count(),
        ensures
            self@.contains_key(r.0@) && self@[r.0@] == r.1.deep_view(),
            r.1.wf_set(),
    {
        proof {
            lemma_entries_map_at(self.data@, i as int);
        }
        let e = &self.data[i];
        (&e.key, &e.val)
    }

    /// The position holding the key, if any.
    fn find(&self, key: &[u8]) -> (r: Option<usize>)
        requires
            self.wf(),
        ensures
            match r {
                Some(i) => i < self.data@.len() && self.data@[i as int].key@ == key@
                    && self@.contains_key(key@) && self@[key@] == self.data@[
                    i as int
                ].val.deep_view() && self.data@[i as int].val.wf_set(),
                None => !self@.contains_key(key@),
            },
    {
        let mut i: usize = 0;
        while i < self.data.len()
            invariant
                self.wf(),
                0 <= i <= self.data@.len(),
                forall|j: int| 0 <= j < i ==> self.data@[j].key@ != key@,
            decreases self.data@.len() - i,
        {
            if bytes_eq(self.data[i].key.as_slice(), key) {
                proof {
                    lemma_entries_map_at(self.data@, i as int);
                }
                return Some(i);
            }
            i = i + 1;
        }
        proof {
            lemma_entries_map_dom(self.data@, key@);
        }
        None
    }

    /// Reads the string stored under the key: the bytes, `None` when
    /// the key is absent, or the `is not string` failure when the key
    /// holds a set. The store is unchanged.
    pub fn get(&self, key: &[u8]) -> (r: Result<Option<Vec<u8>>, Error>)
        requires
            self.wf(),
        ensures
            !self@.contains_key(key@) ==> (r matches Ok(o) && o is None),
            self@.contains_key(key@) ==> (self@[key@] matches MemV::Str(s) ==> (r matches Ok(o)
                && o matches Some(v) && v@ == s)),
            self@.contains_key(key@) && self@[key@] is Elems ==> (r matches Err(e)
                && e matches Error::Handle(m) && m@ == msg_not_string(key@)),
    {
        match self.find(key) {
            None => Ok(None),
            Some(i) => match self.data[i].val.string(key) {
                Ok(s) => Ok(Some(s.fetch())),
                Err(e) => Err(e),
            },
        }
    }

    /// Stores the value as a string under the key, whatever was there.
    pub fn set(&mut self, key: &[u8], value: &[u8]) -> (r: Result<(), Error>)
        requires
            old(self).wf(),
        ensures
            final(self).wf(),
            r is Ok,
            final(self)@ == old(self)@.insert(key@, MemV::Str(value@)),
    {
        let e = Entry { key: copy_bytes(key), val: MemDS::Str(StringDS::from(value)) };
        match self.find(key) {
            Some(i) => {
                proof {
                    lemma_entries_map_update(self.data@, i as int, e);
                }
                let slot = vstd::std_specs::vec::vec_index_mut(&mut self.data, i);
                *slot = e;
            },
            None => {
                proof {
                    lemma_entries_map_push(self.data@, e);
                    lemma_entries_map_dom(self.data@, key@);
                }
                self.data.push(e);
            },
        }


        Ok(())
    }

    /// Increments the integer stored under the key. An absent key is
    /// created as `"0"` and incremented, so the call answers one. A
    /// key holding a set fails with the `is not string` message; a
    /// string that does not decode as a signed 64-bit integer, or that
    /// holds the largest one, fails with the integer-parse failure.
    /// The store is unchanged on failure.
    pub fn incr(&mut self, key: &[u8]) -> (r: Result<i64, Error>)
        requires
            old(self).wf(),
        ensures
            final(self).wf(),
            !old(self)@.contains_key(key@) ==> (r matches Ok(v) && v == 1 && final(self)@ == old(
                self,
            )@.insert(key@, MemV::Str(crate::num::dec_rep_int(1)))),
            old(self)@.contains_key(key@) ==> (old(self)@[key@] matches MemV::Str(s) ==>
            if crate::num::i64_rep_ok(s) && crate::num::i64_val(s) < i64::MAX {
                r matches Ok(v) && v == crate::num::i64_val(s) + 1 && final(self)@ == old(
                    self,
                )@.insert(key@, MemV::Str(crate::num::dec_rep_int(crate::num::i64_val(s) + 1)))
            } else {
                r matches Err(e) && e matches Error::Parse(pe) && pe
                    == crate::command_args::Error::Parse && final(self)@ == old(self)@
            }),
            old(self)@.contains_key(key@) && old(self)@[key@] is Elems ==> (r matches Err(e)
                && e matches Error::Handle(m) && m@ == msg_not_string(key@) && final(self)@ == old(
                self,
            )@),
    {
        match self.find(key) {
            None => {
                let e = Entry { key: copy_bytes(key), val: MemDS::Str(StringDS::from(
                    crate::num::format_i64(1).as_slice(),
                )) };
                proof {
                    lemma_entries_map_push(self.data@, e);
                    lemma_entries_map_dom(self.data@, key@);
                }
                self.data.push(e);
                Ok(1)
            },
            Some(i) => {
                let cur = match self.data[i].val.string(key) {
                    Ok(s) => s.fetch(),
                    Err(e) => {
                        return Err(e);
                    },
                };
                match crate::num::parse_i64(cur.as_slice()) {
                    Some(v) => {
                        if v < i64::MAX {
                            let nv = v + 1;
                            let e = Entry { key: copy_bytes(key), val: MemDS::Str(StringDS::from(
                                crate::num::format_i64(nv).as_slice(),
                            )) };
                            proof {
                                lemma_entries_map_update(self.data@, i as int, e);
                            }
                            let slot = vstd::std_specs::vec::vec_index_mut(&mut self.data, i);
                            *slot = e;
                            Ok(nv)
                        } else {
                            Err(Error::Parse(crate::command_args::Error::Parse))
                        }
                    },
                    None => Err(Error::Parse(crate::command_args::Error::Parse)),
                }
            },
        }
    }

    /// Adds the elements to the set stored under the key, creating an
    /// empty set first when the key is absent; answers how many
    /// members were newly added. A key holding a string fails with the
    /// `is not set` message and the store is unchanged.
    pub fn sadd(&mut self, key: &[u8], elements: &Vec<Vec<u8>>) -> (r: Result<usize, Error>)
        requires
            old(self).wf(),
        ensures
            final(self).wf(),
            !old(self)@.contains_key(key@) ==> (r matches Ok(c) && final(self)@ == old(
                self,
            )@.insert(key@, MemV::Elems(elements.deep_view().to_set())) && c
                == elements.deep_view().to_set().len()),
            old(self)@.contains_key(key@) ==> (old(self)@[key@] matches MemV::Elems(s) ==>
            r matches Ok(c) && final(self)@ == old(self)@.insert(
                key@,
                MemV::Elems(s + elements.deep_view().to_set()),
            ) && c + s.len() == (s + elements.deep_view().to_set()).len()),
            old(self)@.contains_key(key@) && old(self)@[key@] is Str ==> (r matches Err(e)
                && e matches Error::Handle(m) && m@ == msg_not_set(key@) && final(self)@ == old(
                self,
            )@),
    {
        match self.find(key) {
            None => {
                let mut sd = SetDS::empty();
                let c = sd.add(elements);
                proof {
                    assert(Set::<Seq<u8>>::empty() + elements.deep_view().to_set() =~=
                        elements.deep_view().to_set());
                }
                let e = Entry { key: copy_bytes(key), val: MemDS::SetVal(sd) };
                proof {
                    lemma_entries_map_push(self.data@, e);
                    lemma_entries_map_dom(self.data@, key@);
                }
                self.data.push(e);
                Ok(c)
            },
            Some(i) => {
                let slot = vstd::std_specs::vec::vec_index_mut(&mut self.data, i);
                match slot.val.set_mut(key) {
                    Ok(sd) => {
                        let c = sd.add(elements);
                        proof {
                            lemma_entries_map_update(old(self).data@, i as int, *final(slot));
                        }
                        Ok(c)
                    },
                    Err(e) => {
                        proof {
                            assert(old(self).data@.update(i as int, old(self).data@[i as int])
                                =~= old(self).data@);
                        }
                        Err(e)
                    },
                }
            },
        }
    }

    /// Reads the members of the set stored under the key: one copy of
    /// each member in an unspecified order, `None` when the key is
    /// absent, or the `is not set` failure when the key holds a
    /// string. The store is unchanged.
    pub fn smembers(&self, key: &[u8]) -> (r: Result<Option<Vec<Vec<u8>>>, Error>)
        requires
            self.wf(),
        ensures
            !self@.contains_key(key@) ==> (r matches Ok(o) && o is None),
            self@.contains_key(key@) ==> (self@[key@] matches MemV::Elems(s) ==> (r matches Ok(o)
                && o matches Some(v) && v.deep_view().to_set() == s
                && v.deep_view().no_duplicates())),
            self@.contains_key(key@) && self@[key@] is Str ==> (r matches Err(e)
                && e matches Error::Handle(m) && m@ == msg_not_set(key@)),
    {
        match self.find(key) {
            None => Ok(None),
            Some(i) => match self.data[i].val.set(key) {
                Ok(s) => Ok(Some(s.members())),
                Err(e) => Err(e),
            },
        }
    }
}

/// What one SADD leaves under a key: the stored members joined with
/// the added elements, over an empty set when the key was absent.
pub open spec fn stored_set(m: Map<Seq<u8>, MemV>, k: Seq<u8>) -> Set<Seq<u8>> {
    if m.contains_key(k) {
        match m[k] {
            MemV::Elems(s) => s,
            MemV::Str(_) => Set::empty(),
        }
    } else {
        Set::empty()
    }
}

/// The map after one successful SADD of the element set `es`.
pub open spec fn sadd_map(m: Map<Seq<u8>, MemV>, k: Seq<u8>, es: Set<Seq<u8>>) -> Map<
    Seq<u8>,
    MemV,
> {
    m.insert(k, MemV::Elems(stored_set(m, k) + es))
}

/// Two SADDs on one key, serialized in either order by the store's
/// single lock, leave the same map, and the key then holds exactly
/// the initial members joined with both element sets: the final
/// cardinality is that of `initial + x + y`.
pub proof fn lemma_sadd_atomic(m: Map<Seq<u8>, MemV>, k: Seq<u8>, x: Set<Seq<u8>>, y: Set<Seq<u8>>)
    ensures
        sadd_map(sadd_map(m, k, x), k, y) == sadd_map(sadd_map(m, k, y), k, x),
        stored_set(sadd_map(sadd_map(m, k, x), k, y), k) == stored_set(m, k) + x + y,
{
    assert(stored_set(sadd_map(m, k, x), k) =~= stored_set(m, k) + x);
    assert(stored_set(sadd_map(m, k, y), k) =~= stored_set(m, k) + y);
    assert(stored_set(m, k) + x + y =~= stored_set(m, k) + y + x);
    assert(sadd_map(sadd_map(m, k, x), k, y) =~= sadd_map(sadd_map(m, k, y), k, x));
}

} // verus!
