//! The tagged values of the datastore: a string or a set of strings.

use vstd::prelude::*;

use crate::ascii::{bytes_eq, copy_bytes, push_bytes};
use crate::Error;

verus! {

broadcast use crate::ascii::lemma_vec_u8_deep_view, crate::ascii::lemma_slice_u8_deep_view, vstd::seq_lib::group_seq_lib_default, vstd::prelude::Seq::lemma_push_to_set_commute, vstd::set_lib::group_set_properties, vstd::set::group_set_axioms, vstd::set::axiom_set_insert_len, vstd::seq_lib::seq_to_set_is_finite;

/// Model of a stored value: the bytes of a string, or the set of
/// byte strings a set holds.
pub enum MemV {
    Str(Seq<u8>),
    Elems(Set<Seq<u8>>),
}

/// A stored string.
#[derive(Debug)]
pub struct StringDS {
    s: Vec<u8>,
}

impl View for StringDS {
    type V = Seq<u8>;

    closed spec fn view(&self) -> Seq<u8> {
        self.s@
    }
}

impl StringDS {
    /// A stored string holding a copy of the given bytes.
    pub fn from(s: &[u8]) -> (r: StringDS)
        ensures
            r@ == s@,
    {
        StringDS { s: copy_bytes(s) }
    }

    /// An owned copy of the stored bytes.
    pub fn fetch(&self) -> (r: Vec<u8>)
        ensures
            r@ == self@,
    {
        copy_bytes(self.s.as_slice())
    }
}

/// A stored set of byte strings, kept without duplicates.
#[derive(Debug)]
pub struct SetDS {
    s: Vec<Vec<u8>>,
}

impl View for SetDS {
    type V = Set<Seq<u8>>;

    closed spec fn view(&self) -> Set<Seq<u8>> {
        self.s.deep_view().to_set()
    }
}

impl SetDS {
    /// The members are stored once each.
    pub closed spec fn wf(&self) -> bool {
        self.s.deep_view().no_duplicates()
    }

    /// The empty set.
    pub fn empty() -> (r: SetDS)
        ensures
            r.wf(),
            r@ == Set::<Seq<u8>>::empty(),
    {
        let r = SetDS { s: Vec::new() };
        proof {
            assert(r.s.deep_view() =~~= Seq::<Seq<u8>>::empty());
            assert(r@ =~= Set::<Seq<u8>>::empty());
        }
        r
    }

    /// A set holding one member, a copy of the given bytes.
    pub fn from(s: &[u8]) -> (r: SetDS)
        ensures
            r.wf(),
            r@ == Set::<Seq<u8>>::empty().insert(s@),
    {
        let mut v: Vec<Vec<u8>> = Vec::new();
        v.push(copy_bytes(s));
        let r = SetDS { s: v };
        proof {
            assert(r.s.deep_view() =~~= seq![s@]);
            assert(seq![s@] =~= Seq::<Seq<u8>>::empty().push(s@));
            assert(r@ =~= Set::<Seq<u8>>::empty().insert(s@));
        }
        r
    }

    /// Whether the set holds the given member.
    fn contains_elem(&self, e: &[u8]) -> (r: bool)
        ensures
            r == self@.contains(e@),
    {
        let mut i: usize = 0;
        while i < self.s.len()
            invariant
                0 <= i <= self.s@.len(),
                forall|j: int| 0 <= j < i ==> self.s.deep_view()[j] != e@,
            decreases self.s@.len() - i,
        {
            if bytes_eq(self.s[i].as_slice(), e) {
                proof {
                    assert(self.s.deep_view()[i as int] == e@);
                    assert(self.s.deep_view().contains(e@));
                }
                return true;
            }
            i = i + 1;
        }
        proof {
            assert(!self.s.deep_view().contains(e@));
        }
        false
    }

    /// Adds a copy of each element; answers how many were newly
    /// inserted, that is, by how much the cardinality grew.
    pub fn add(&mut self, elements: &Vec<Vec<u8>>) -> (count: usize)
        requires
            old(self).wf(),
        ensures
            final(self).wf(),
            final(self)@ == old(self)@ + elements.deep_view().to_set(),
            count + old(self)@.len() == final(self)@.len(),
    {
        proof {
            assert(elements.deep_view().take(0) =~~= Seq::<Seq<u8>>::empty());
            assert(old(self)@ + elements.deep_view().take(0).to_set() =~= old(self)@);
        }
        let mut count: usize = 0;
        let mut i: usize = 0;
        while i < elements.len()
            invariant
                0 <= i <= elements.deep_view().len(),
                count <= i,
                self.wf(),
                self@ == old(self)@ + elements.deep_view().take(i as int).to_set(),
                count + old(self)@.len() == self@.len(),
        decreases elements.deep_view().len() - i,
        {
            let ghost pre = self.s.deep_view();
            let e = &elements[i];
            proof {
                assert(e.deep_view() == elements.deep_view()[i as int]);
            }
            let is_new = !self.contains_elem(e.as_slice());
            if is_new {
                self.s.push(copy_bytes(e.as_slice()));
                count = count + 1;
                proof {
                    assert(self.s.deep_view() =~~= pre.push(e@));
                    assert(self.s.deep_view().to_set() == pre.to_set().insert(e@));
                    assert(self.wf()) by {
                        assert(forall|j: int|
                            0 <= j < pre.len() ==> #[trigger] pre[j] == self.s.deep_view()[j]);
                    }
                }
            } else {
                proof {
                    assert(self@.insert(e@) =~= self@);
                }
            }
            proof {
                assert(elements.deep_view().take(i + 1) =~~= elements.deep_view().take(
                    i as int,
                ).push(e@));
                assert(elements.deep_view().take(i + 1).to_set() == elements.deep_view().take(
                    i as int,
                ).to_set().insert(e@));
                assert(self@ =~= old(self)@ + elements.deep_view().take(i + 1).to_set());
            }
            i = i + 1;
        }
        proof {
            assert(elements.deep_view().take(elements.deep_view().len() as int) =~~=
                elements.deep_view());
        }
        count
    }

    /// The members, one copy of each, in an unspecified order.
    pub fn members(&self) -> (r: Vec<Vec<u8>>)
        requires
            self.wf(),
        ensures
            r.deep_view().to_set() == self@,
            r.deep_view().no_duplicates(),
    {
        let mut r: Vec<Vec<u8>> = Vec::new();
        let mut i: usize = 0;
        while i < self.s.len()
            invariant
                0 <= i <= self.s@.len(),
                r.deep_view() == self.s.deep_view().take(i as int),
            decreases self.s@.len() - i,
        {
            let ghost pre = r.deep_view();
            r.push(copy_bytes(self.s[i].as_slice()));
            proof {
                assert(r.deep_view() =~~= pre.push(self.s.deep_view()[i as int]));
                assert(r.deep_view() =~~= self.s.deep_view().take(i + 1));
            }
            i = i + 1;
        }
        proof {
            assert(r.deep_view() =~~= self.s.deep_view());
        }
        r
    }
}

/// A stored value: a string or a set.
#[derive(Debug)]
pub enum MemDS {
    Str(StringDS),
    SetVal(SetDS),
}

impl DeepView for MemDS {
    type V = MemV;

    open spec fn deep_view(&self) -> MemV {
        match self {
            MemDS::Str(s) => MemV::Str(s@),
            MemDS::SetVal(s) => MemV::Elems(s@),
        }
    }
}

/// The message sent when a key does not hold a string:
/// `ERR key <key> is not string`.
pub open spec fn msg_not_string(key: Seq<u8>) -> Seq<u8> {
    seq![69u8, 82u8, 82u8, 32u8, 107u8, 101u8, 121u8, 32u8] + key + seq![
        32u8,
        105u8,
        115u8,
        32u8,
        110u8,
        111u8,
        116u8,
        32u8,
        115u8,
        116u8,
        114u8,
        105u8,
        110u8,
        103u8,
    ]
}

/// The message sent when a key does not hold a set:
/// `ERR key <key> is not set`.
pub open spec fn msg_not_set(key: Seq<u8>) -> Seq<u8> {
    seq![69u8, 82u8, 82u8, 32u8, 107u8, 101u8, 121u8, 32u8] + key + seq![
        32u8,
        105u8,
        115u8,
        32u8,
        110u8,
        111u8,
        116u8,
        32u8,
        115u8,
        101u8,
        116u8,
    ]
}

/// Builds the `is not string` message for a key.
pub fn build_msg_not_string(key: &[u8]) -> (r: Vec<u8>)
    ensures
        r@ == msg_not_string(key@),
{
    let head: [u8; 8] = [69, 82, 82, 32, 107, 101, 121, 32];
    let tail: [u8; 14] = [32, 105, 115, 32, 110, 111, 116, 32, 115, 116, 114, 105, 110, 103];
    let mut r: Vec<u8> = Vec::new();
    push_bytes(&mut r, head.as_slice());
    push_bytes(&mut r, key);
    push_bytes(&mut r, tail.as_slice());
    proof {
        assert(r@ =~= msg_not_string(key@));
    }
    r
}

/// Builds the `is not set` message for a key.
pub fn build_msg_not_set(key: &[u8]) -> (r: Vec<u8>)
    ensures
        r@ == msg_not_set(key@),
{
    let head: [u8; 8] = [69, 82, 82, 32, 107, 101, 121, 32];
    let tail: [u8; 11] = [32, 105, 115, 32, 110, 111, 116, 32, 115, 101, 116];
    let mut r: Vec<u8> = Vec::new();
    push_bytes(&mut r, head.as_slice());
    push_bytes(&mut r, key);
    push_bytes(&mut r, tail.as_slice());
    proof {
        assert(r@ =~= msg_not_set(key@));
    }
    r
}

impl MemDS {
    /// The stored string, or the `is not string` failure for this key.
    pub fn string(&self, key: &[u8]) -> (r: Result<&StringDS, Error>)
        ensures
            match self.deep_view() {
                MemV::Str(s) => r matches Ok(ds) && ds@ == s,
                MemV::Elems(_) => r matches Err(e) && e matches Error::Handle(m) && m@
                    == msg_not_string(key@),
            },
    {
        match self {
            MemDS::Str(s) => Ok(s),
            MemDS::SetVal(_) => Err(Error::Handle(build_msg_not_string(key))),
        }
    }

    /// The stored set, or the `is not set` failure for this key.
    pub fn set(&self, key: &[u8]) -> (r: Result<&SetDS, Error>)
        ensures
            match self.deep_view() {
                MemV::Elems(s) => r matches Ok(ds) && ds@ == s && (self.wf_set() ==> ds.wf()),
                MemV::Str(_) => r matches Err(e) && e matches Error::Handle(m) && m@ == msg_not_set(
                    key@,
                ),
            },
    {
        match self {
            MemDS::SetVal(s) => Ok(s),
            MemDS::Str(_) => Err(Error::Handle(build_msg_not_set(key))),
        }
    }

    /// The stored set, to be changed in place, or the `is not set`
    /// failure for this key.
    pub fn set_mut(&mut self, key: &[u8]) -> (r: Result<&mut SetDS, Error>)
        ensures
            match *old(self) {
                MemDS::SetVal(s) => r matches Ok(ds) && *ds == s && *final(self) == MemDS::SetVal(
                    *final(ds),
                ),
                MemDS::Str(_) => r matches Err(e) && e matches Error::Handle(m) && m@
                    == msg_not_set(key@) && *final(self) == *old(self),
            },
    {
        match self {
            MemDS::SetVal(s) => Ok(s),
            MemDS::Str(_) => Err(Error::Handle(build_msg_not_set(key))),
        }
    }

    /// A stored set is kept without duplicates.
    pub open spec fn wf_set(&self) -> bool {
        match self {
            MemDS::SetVal(s) => s.wf(),
            MemDS::Str(_) => true,
        }
    }
}

} // verus!
