//! Agreements: messages that every agent is assumed to already know and
//! accept at a given time, and the synchronized store that holds them.

use vstd::pervasive::VecAdditionalExecFns;
use vstd::prelude::*;

use crate::auxillary::{Authored, Identifiable};
use crate::collections::{
    first_with_key, has_key, lemma_first_with_key_skip, lemma_first_with_key_some,
    lemma_replace_by_key_at, lemma_replace_by_key_missing, replace_by_key, InfallibleMap,
    InfallibleMapSync,
};
use crate::messages::Message;

verus! {

/// A message that everybody agreed upon, bound to the timestamp at which it
/// applies.  Agreements are created by a synchronizer-driven consensus step
/// external to this core; within it they live in a synchronized store.
#[derive(Clone, Copy, Debug, PartialEq, Eq, Structural)]
pub struct Agreement {
    /// The message embedded in this agreement.
    pub message: Message,
    /// The timestamp at which this agreement applies.
    pub at: u64,
}

impl Authored for Agreement {
    open spec fn author_id_spec(&self) -> u64 {
        self.message.author_id
    }

    fn author_id(&self) -> (r: u64) {
        self.message.author_id
    }
}

impl Identifiable for Agreement {
    open spec fn id_spec(&self) -> u64 {
        self.message.id
    }

    fn id(&self) -> (r: u64) {
        self.message.id
    }
}

impl crate::collections::InfallibleSet<Message> for Agreement {
    open spec fn contents(&self) -> Seq<Message> {
        seq![self.message]
    }

    fn len(&self) -> (r: usize) {
        1
    }
}

/// The synchronized store of agreements.
///
/// Every agent sees the same contents at any instant; mutating it is
/// reserved to the synchronizer role, which replaces an agreement wholesale
/// by the identifier of its message.
#[derive(Clone, Debug)]
pub struct Agreements {
    /// The agreements, in insertion order.
    data: Vec<Agreement>,
}

impl View for Agreements {
    type V = Seq<Agreement>;

    closed spec fn view(&self) -> Seq<Agreement> {
        self.data@
    }
}

impl Agreements {
    /// Constructor for an empty store.
    pub fn new() -> (r: Self)
        ensures
            r@ == Seq::<Agreement>::empty(),
    {
        Agreements { data: Vec::new() }
    }

    /// Returns the agreement at the given position, in insertion order.
    pub fn at(&self, i: usize) -> (r: Agreement)
        requires
            i < self@.len(),
        ensures
            r == self@[i as int],
    {
        *vstd::std_specs::vec::vec_index(&self.data, i)
    }

    /// Checks whether the given agreement itself — message and timestamp —
    /// is a member of the store.
    pub fn contains(&self, a: &Agreement) -> (r: bool)
        ensures
            r == self@.contains(*a),
    {
        let n = self.data.len();
        let mut i: usize = 0;
        while i < n
            invariant
                n == self@.len(),
                i <= n,
                forall|k: int| 0 <= k < i ==> self@[k] != *a,
            decreases n - i,
        {
            if *vstd::std_specs::vec::vec_index(&self.data, i) == *a {
                return true;
            }
            i += 1;
        }
        false
    }

    /// Removes every agreement; the synchronizer then writes the new list.
    pub fn clear(&mut self)
        ensures
            final(self)@ == Seq::<Agreement>::empty(),
    {
        self.data.clear();
    }
}

impl InfallibleMap<Agreement> for Agreements {
    open spec fn contents(&self) -> Seq<Agreement> {
        self@
    }

    fn len(&self) -> (r: usize) {
        self.data.len()
    }

    fn contains_key(&self, id: u64) -> (r: bool) {
        let n = self.data.len();
        let mut i: usize = 0;
        while i < n
            invariant
                n == self@.len(),
                i <= n,
                forall|k: int| 0 <= k < i ==> self@[k].message.id != id,
            decreases n - i,
        {
            if vstd::std_specs::vec::vec_index(&self.data, i).message.id == id {
                assert(self@[i as int].id_spec() == id);
                return true;
            }
            i += 1;
        }
        assert(forall|k: int| 0 <= k < n ==> self@[k].id_spec() != id);
        false
    }

    fn get(&self, id: u64) -> (r: Option<Agreement>) {
        let n = self.data.len();
        let mut i: usize = 0;
        while i < n
            invariant
                n == self@.len(),
                i <= n,
                forall|k: int| 0 <= k < i ==> self@[k].id_spec() != id,
            decreases n - i,
        {
            let a = *vstd::std_specs::vec::vec_index(&self.data, i);
            if a.message.id == id {
                proof {
                    lemma_first_with_key_skip(self@, id, i as int);
                    assert(self@.skip(i as int).first() == self@[i as int]);
                }
                return Some(a);
            }
            i += 1;
        }
        proof {
            lemma_first_with_key_skip(self@, id, n as int);
            assert(self@.skip(n as int) =~= Seq::<Agreement>::empty());
        }
        None
    }
}

impl InfallibleMapSync<Agreement> for Agreements {
    fn add(&mut self, elem: Agreement) -> (r: Option<Agreement>) {
        let n = self.data.len();
        let mut i: usize = 0;
        while i < n
            invariant
                n == self@.len(),
                self@ == old(self)@,
                i <= n,
                forall|k: int| 0 <= k < i ==> self@[k].id_spec() != elem.id_spec(),
            decreases n - i,
        {
            let a = *vstd::std_specs::vec::vec_index(&self.data, i);
            if a.message.id == elem.message.id {
                self.data.set(i, elem);
                proof {
                    lemma_replace_by_key_at(old(self)@, elem, i as int);
                    lemma_first_with_key_skip(old(self)@, elem.id_spec(), i as int);
                    assert(old(self)@.skip(i as int).first() == old(self)@[i as int]);
                }
                return Some(a);
            }
            i += 1;
        }
        self.data.push(elem);
        proof {
            lemma_replace_by_key_missing(old(self)@, elem);
            lemma_first_with_key_some(old(self)@, elem.id_spec());
            assert(!has_key(old(self)@, elem.id_spec()));
        }
        None
    }
}

} // verus!
