//! Messages and order-independent message sets.
//!
//! A [`Message`] is a single statement: an identifier, the identifier of its
//! author, and an opaque payload handle that only the policy extractor ever
//! interprets.  A [`MessageSet`] aggregates messages with *set semantics*:
//! insertion order is irrelevant to membership, equality and hashing, so two
//! justifications built by different agents from the same logical content
//! compare and hash identically.

use vstd::prelude::*;

use crate::auxillary::{Authored, Identifiable};

verus! {

/// A single immutable statement published by an agent.
#[derive(Clone, Copy, Debug, PartialEq, Eq, Structural)]
pub struct Message {
    /// The identifier of this message, unique among messages.
    pub id: u64,
    /// The identifier of the agent that authored this message.
    pub author_id: u64,
    /// An opaque handle to the content of the message.  The core never
    /// interprets it; it is only handed to the external policy extractor.
    pub payload: u64,
}

impl Message {
    /// Constructor for a message with the given identifier, author and
    /// payload handle.
    pub fn new(id: u64, author_id: u64, payload: u64) -> (r: Self)
        ensures
            r == (Message { id, author_id, payload }),
    {
        Message { id, author_id, payload }
    }
}

impl Authored for Message {
    open spec fn author_id_spec(&self) -> u64 {
        self.author_id
    }

    fn author_id(&self) -> (r: u64) {
        self.author_id
    }
}

impl Identifiable for Message {
    open spec fn id_spec(&self) -> u64 {
        self.id
    }

    fn id(&self) -> (r: u64) {
        self.id
    }
}

/// A constructor capability for message-like objects.
pub trait ConstructableMessage: Authored + Identifiable + Sized {
    /// The payload handle carried, as a specification-level value.
    spec fn payload_spec(&self) -> u64;

    /// Builds a new message-like object with the given identifier, author
    /// and payload handle.
    fn new(id: u64, author_id: u64, payload: u64) -> (r: Self)
        ensures
            r.id_spec() == id,
            r.author_id_spec() == author_id,
            r.payload_spec() == payload,
    ;
}

impl ConstructableMessage for Message {
    open spec fn payload_spec(&self) -> u64 {
        self.payload
    }

    fn new(id: u64, author_id: u64, payload: u64) -> (r: Self) {
        Message { id, author_id, payload }
    }
}

/// Inserts a message into a duplicate-free sequence, keeping it
/// duplicate-free: an already-present message is dropped.
pub open spec fn set_insert(s: Seq<Message>, m: Message) -> Seq<Message> {
    if s.contains(m) {
        s
    } else {
        s.push(m)
    }
}

/// Inserts every element of `elems`, in order, into the set contents `s`.
pub open spec fn insert_all(s: Seq<Message>, elems: Seq<Message>) -> Seq<Message>
    decreases elems.len(),
{
    if elems.len() == 0 {
        s
    } else {
        set_insert(insert_all(s, elems.drop_last()), elems.last())
    }
}

/// The contents of the message set built by inserting every element of `s`
/// in order into an initially empty set.  Duplicates collapse onto their
/// first occurrence.
pub open spec fn from_seq(s: Seq<Message>) -> Seq<Message>
    decreases s.len(),
{
    if s.len() == 0 {
        Seq::empty()
    } else {
        set_insert(from_seq(s.drop_last()), s.last())
    }
}

/// A collection of messages with set semantics.
///
/// The view `self@` is the underlying sequence of distinct messages in
/// insertion order; equality and hashing of the whole set do not depend on
/// that order.
#[derive(Clone, Debug)]
pub struct MessageSet {
    /// The messages, free of duplicates.
    data: Vec<Message>,
}

impl View for MessageSet {
    type V = Seq<Message>;

    closed spec fn view(&self) -> Seq<Message> {
        self.data@
    }
}

impl MessageSet {
    /// Constructor for the MessageSet that initializes it without elements.
    pub fn new() -> (r: Self)
        ensures
            r@ == Seq::<Message>::empty(),
    {
        MessageSet { data: Vec::new() }
    }

    /// Constructor for the MessageSet that initializes it without elements,
    /// but with memory capacity for at least the given number of them.
    pub fn with_capacity(capacity: usize) -> (r: Self)
        ensures
            r@ == Seq::<Message>::empty(),
    {
        MessageSet { data: Vec::with_capacity(capacity) }
    }

    /// Returns how many messages there are in this set.
    pub fn len(&self) -> (r: usize)
        ensures
            r == self@.len(),
    {
        self.data.len()
    }

    /// Returns whether there are no messages in this set.
    pub fn is_empty(&self) -> (r: bool)
        ensures
            r == (self@.len() == 0),
    {
        self.data.is_empty()
    }

    /// Returns the message at the given position, in insertion order.
    pub fn at(&self, i: usize) -> (r: Message)
        requires
            i < self@.len(),
        ensures
            r == self@[i as int],
    {
        *vstd::std_specs::vec::vec_index(&self.data, i)
    }

    /// Checks whether a particular message is a member of this set.
    pub fn contains(&self, elem: &Message) -> (r: bool)
        ensures
            r == self@.contains(*elem),
    {
        let n = self.data.len();
        let mut i: usize = 0;
        while i < n
            invariant
                n == self@.len(),
                i <= n,
                forall|k: int| 0 <= k < i ==> self@[k] != *elem,
            decreases n - i,
        {
            if *vstd::std_specs::vec::vec_index(&self.data, i) == *elem {
                return true;
            }
            i += 1;
        }
        false
    }

    /// Retrieves a particular message from this set.
    ///
    /// This may seem redundant (the caller already holds `elem`), but it
    /// answers membership and hands back the stored instance in one step.
    pub fn get(&self, elem: &Message) -> (r: Option<Message>)
        ensures
            r == (if self@.contains(*elem) {
                Some(*elem)
            } else {
                None::<Message>
            }),
    {
        if self.contains(elem) {
            Some(*elem)
        } else {
            None
        }
    }

    /// Adds a new message to the set.
    ///
    /// Returns true if the message was not yet present (it has been
    /// appended), or false if it already was (the set is unchanged).
    pub fn add(&mut self, elem: Message) -> (r: bool)
        ensures
            final(self)@ == set_insert(old(self)@, elem),
            r == !old(self)@.contains(elem),
    {
        if self.contains(&elem) {
            false
        } else {
            self.data.push(elem);
            true
        }
    }

    /// Removes a message from the set.
    ///
    /// Returns true if the message was present (its first occurrence has
    /// been removed), or false if it was not (the set is unchanged).
    pub fn remove(&mut self, elem: &Message) -> (r: bool)
        ensures
            r == old(self)@.contains(*elem),
            !old(self)@.contains(*elem) ==> final(self)@ == old(self)@,
            old(self)@.contains(*elem) ==> final(self)@ == old(self)@.remove(
                old(self)@.index_of_first(*elem).unwrap(),
            ),
    {
        let n = self.data.len();
        let mut i: usize = 0;
        while i < n
            invariant
                n == self@.len(),
                i <= n,
                self@ == old(self)@,
                forall|k: int| 0 <= k < i ==> self@[k] != *elem,
            decreases n - i,
        {
            if *vstd::std_specs::vec::vec_index(&self.data, i) == *elem {
                self.data.remove(i);
                proof {
                    old(self)@.index_of_first_ensures(*elem);
                }
                return true;
            }
            i += 1;
        }
        proof {
            old(self)@.index_of_first_ensures(*elem);
        }
        false
    }

    /// Removes every message from the set.
    pub fn clear(&mut self)
        ensures
            final(self)@ == Seq::<Message>::empty(),
    {
        self.data.clear();
    }

    /// Builds a message set from a vector of messages; duplicates collapse
    /// onto their first occurrence.
    pub fn from_vec(value: Vec<Message>) -> (r: Self)
        ensures
            r@ == from_seq(value@),
    {
        let mut out = MessageSet::with_capacity(value.len());
        let n = value.len();
        let mut i: usize = 0;
        while i < n
            invariant
                n == value@.len(),
                i <= n,
                out@ == from_seq(value@.take(i as int)),
            decreases n - i,
        {
            proof {
                assert(value@.take(i + 1).drop_last() =~= value@.take(i as int));
            }
            out.add(*vstd::std_specs::vec::vec_index(&value, i));
            i += 1;
        }
        proof {
            assert(value@.take(n as int) =~= value@);
        }
        out
    }

    /// Adds every message yielded by the given vector to this set, in order.
    pub fn extend(&mut self, elems: Vec<Message>)
        ensures
            final(self)@ == insert_all(old(self)@, elems@),
    {
        let n = elems.len();
        let mut i: usize = 0;
        while i < n
            invariant
                n == elems@.len(),
                i <= n,
                self@ == insert_all(old(self)@, elems@.take(i as int)),
            decreases n - i,
        {
            proof {
                assert(elems@.take(i + 1).drop_last() =~= elems@.take(i as int));
                assert(elems@.take(i + 1).last() == elems@[i as int]);
            }
            self.add(*vstd::std_specs::vec::vec_index(&elems, i));
            i += 1;
        }
        proof {
            assert(elems@.take(n as int) =~= elems@);
        }
    }

    /// Computes the order-independent hash of this set: equal sets always
    /// hash equally, whatever order their members arrived in.
    pub fn canonical_hash(&self) -> (r: u64)
        ensures
            r == set_hash(self@),
    {
        let n = self.data.len();
        let mut hs: Vec<u64> = Vec::with_capacity(n);
        let mut i: usize = 0;
        while i < n
            invariant
                n == self@.len(),
                i <= n,
                hs@ == hashes_of(self@.take(i as int)),
            decreases n - i,
        {
            hs.push(message_hash(vstd::std_specs::vec::vec_index(&self.data, i)));
            proof {
                assert(hashes_of(self@.take(i + 1)) =~= hashes_of(self@.take(i as int)).push(
                    msg_hash(self@[i as int]),
                ));
            }
            i += 1;
        }
        proof {
            assert(self@.take(n as int) =~= self@);
        }
        let sorted = sort_hashes(hs);
        proof {
            lemma_u64_le_total();
            hashes_of(self@).lemma_sort_by_ensures(u64_le());
            vstd::seq_lib::lemma_sorted_unique(
                sorted@,
                hashes_of(self@).sort_by(u64_le()),
                u64_le(),
            );
        }
        let m = sorted.len();
        let mut h: u64 = HASH_SEED;
        let mut j: usize = 0;
        while j < m
            invariant
                m == sorted@.len(),
                j <= m,
                h == fold_hash(sorted@.take(j as int)),
            decreases m - j,
        {
            let x = *vstd::std_specs::vec::vec_index(&sorted, j);
            h = (h ^ x).wrapping_mul(HASH_PRIME);
            proof {
                assert(sorted@.take(j + 1).drop_last() =~= sorted@.take(j as int));
                assert(sorted@.take(j + 1).last() == x);
            }
            j += 1;
        }
        proof {
            assert(sorted@.take(m as int) =~= sorted@);
        }
        h
    }
}

impl crate::collections::InfallibleSet<Message> for MessageSet {
    open spec fn contents(&self) -> Seq<Message> {
        self@
    }

    fn len(&self) -> (r: usize) {
        self.len()
    }
}

impl crate::collections::InfallibleSetSync<Message> for MessageSet {
    fn add(&mut self, elem: Message) -> (r: bool) {
        self.add(elem)
    }
}

impl crate::collections::InfallibleSetMut<Message> for MessageSet {
    fn insert(&mut self, elem: Message) -> (r: bool) {
        let existed = self.contains(&elem);
        self.add(elem);
        existed
    }

    fn remove(&mut self, elem: &Message) -> (r: bool) {
        self.remove(elem)
    }
}

/// Offset basis of the deterministic per-message hash.
pub const HASH_SEED: u64 = 0xcbf29ce484222325;

/// Multiplier of the deterministic per-message hash.
pub const HASH_PRIME: u64 = 0x100000001b3;

/// Folds one word into a running hash value.
pub open spec fn mix(h: u64, x: u64) -> u64 {
    (h ^ x).wrapping_mul(HASH_PRIME)
}

/// The deterministic, non-randomized hash of a single message.  The same
/// message always hashes alike, in every process and on every machine, so
/// that whole-set hashes can be compared across agents.
pub open spec fn msg_hash(m: Message) -> u64 {
    mix(mix(mix(HASH_SEED, m.id), m.author_id), m.payload)
}

/// The per-element hashes of a sequence of messages.
pub open spec fn hashes_of(s: Seq<Message>) -> Seq<u64> {
    s.map_values(|m: Message| msg_hash(m))
}

/// The ordering by which per-element hashes are sorted.
pub open spec fn u64_le() -> spec_fn(u64, u64) -> bool {
    |a: u64, b: u64| a <= b
}

/// Folds a sequence of words into a single hash value, left to right.
pub open spec fn fold_hash(s: Seq<u64>) -> u64
    decreases s.len(),
{
    if s.len() == 0 {
        HASH_SEED
    } else {
        mix(fold_hash(s.drop_last()), s.last())
    }
}

/// The order-independent hash of set contents: hash every member with the
/// fixed per-message hash, sort those hashes, then fold the sorted sequence.
pub open spec fn set_hash(s: Seq<Message>) -> u64 {
    fold_hash(hashes_of(s).sort_by(u64_le()))
}

/// The hash ordering is total.
pub proof fn lemma_u64_le_total()
    ensures
        vstd::relations::total_ordering(u64_le()),
{
    assert forall|a: u64, b: u64| #[trigger] u64_le()(a, b) || u64_le()(b, a) by {
        assert(u64_le()(a, b) == (a <= b));
        assert(u64_le()(b, a) == (b <= a));
    }
}

/// Computes the deterministic hash of a single message.
pub fn message_hash(m: &Message) -> (r: u64)
    ensures
        r == msg_hash(*m),
{
    let h0 = (HASH_SEED ^ m.id).wrapping_mul(HASH_PRIME);
    let h1 = (h0 ^ m.author_id).wrapping_mul(HASH_PRIME);
    (h1 ^ m.payload).wrapping_mul(HASH_PRIME)
}

/// Inserting a word anywhere in a sequence inserts it into its multiset.
proof fn lemma_insert_to_multiset(s: Seq<u64>, k: int, x: u64)
    requires
        0 <= k <= s.len(),
    ensures
        s.insert(k, x).to_multiset() =~= s.to_multiset().insert(x),
{
    broadcast use vstd::seq_lib::group_to_multiset_ensures;
    broadcast use vstd::multiset::group_multiset_axioms;

    assert(s =~= s.take(k) + s.skip(k));
    vstd::seq_lib::lemma_multiset_commutative(s.take(k), s.skip(k));
    assert(s.insert(k, x) =~= s.take(k).push(x) + s.skip(k));
    vstd::seq_lib::lemma_multiset_commutative(s.take(k).push(x), s.skip(k));
    assert(s.take(k).push(x).to_multiset() =~= s.take(k).to_multiset().insert(x));
}

/// Inserting a word between the elements below it and the elements above it
/// keeps a sequence sorted.
proof fn lemma_sorted_insert(s: Seq<u64>, k: int, x: u64)
    requires
        vstd::relations::sorted_by(s, u64_le()),
        0 <= k <= s.len(),
        forall|i: int| 0 <= i < k ==> s[i] <= x,
        forall|i: int| k <= i < s.len() ==> x <= s[i],
    ensures
        vstd::relations::sorted_by(s.insert(k, x), u64_le()),
{
    let t = s.insert(k, x);
    assert forall|i: int, j: int| 0 <= i < j < t.len() implies u64_le()(t[i], t[j]) by {
        assert(forall|a: int, b: int|
            0 <= a < b < s.len() ==> #[trigger] u64_le()(s[a], s[b]) == (s[a] <= s[b]));
        assert(u64_le()(t[i], t[j]) == (t[i] <= t[j]));
        if i < k {
            assert(t[i] == s[i]);
        } else if i == k {
            assert(t[i] == x);
        } else {
            assert(t[i] == s[i - 1]);
        }
        if j < k {
            assert(t[j] == s[j]);
        } else if j == k {
            assert(t[j] == x);
        } else {
            assert(t[j] == s[j - 1]);
        }
    }
}

/// Sorts a vector of hash words into non-decreasing order.
fn sort_hashes(v: Vec<u64>) -> (r: Vec<u64>)
    ensures
        vstd::relations::sorted_by(r@, u64_le()),
        r@.to_multiset() == v@.to_multiset(),
{
    proof {
        broadcast use vstd::seq_lib::group_to_multiset_ensures;
    }
    let n = v.len();
    let mut out: Vec<u64> = Vec::with_capacity(n);
    let mut i: usize = 0;
    while i < n
        invariant
            n == v@.len(),
            i <= n,
            vstd::relations::sorted_by(out@, u64_le()),
            out@.to_multiset() == v@.take(i as int).to_multiset(),
        decreases n - i,
    {
        let x = *vstd::std_specs::vec::vec_index(&v, i);
        // Find the first position whose element is above `x`.
        let m = out.len();
        let mut k: usize = 0;
        while k < m && *vstd::std_specs::vec::vec_index(&out, k) <= x
            invariant
                m == out@.len(),
                k <= m,
                forall|t: int| 0 <= t < k ==> out@[t] <= x,
            decreases m - k,
        {
            k += 1;
        }
        proof {
            if k < m {
                assert(x <= out@[k as int]);
                assert forall|t: int| k <= t < m implies x <= out@[t] by {
                    if t > k {
                        assert(u64_le()(out@[k as int], out@[t]));
                    }
                }
            }
            lemma_sorted_insert(out@, k as int, x);
            lemma_insert_to_multiset(out@, k as int, x);
            broadcast use vstd::seq_lib::group_to_multiset_ensures;

            assert(v@.take(i + 1) =~= v@.take(i as int).push(x));
        }
        out.insert(k, x);
        i += 1;
    }
    proof {
        assert(v@.take(n as int) =~= v@);
    }
    out
}

/// Sequences holding the same messages with the same multiplicities hash,
/// element for element, to the same multiset of words.
proof fn lemma_hashes_multiset(a: Seq<Message>, b: Seq<Message>)
    requires
        a.to_multiset() == b.to_multiset(),
    ensures
        hashes_of(a).to_multiset() == hashes_of(b).to_multiset(),
    decreases a.len(),
{
    broadcast use vstd::seq_lib::group_to_multiset_ensures;
    broadcast use vstd::multiset::group_multiset_axioms;

    if a.len() == 0 {
        assert(b.to_multiset().len() == 0);
        assert(b.len() == 0);
        assert(hashes_of(a) =~= Seq::<u64>::empty());
        assert(hashes_of(b) =~= Seq::<u64>::empty());
    } else {
        let x = a.last();
        let a1 = a.drop_last();
        assert(a =~= a1.push(x));
        assert(a.to_multiset() =~= a1.to_multiset().insert(x));
        assert(a.to_multiset().count(x) > 0);
        assert(b.to_multiset().count(x) > 0);
        assert(b.contains(x));
        let i = choose|i: int| 0 <= i < b.len() && b[i] == x;
        let b1 = b.remove(i);
        assert(b1.to_multiset() =~= b.to_multiset().remove(x));
        assert(a1.to_multiset() =~= a.to_multiset().remove(x));
        assert(a1.to_multiset() == b1.to_multiset());
        lemma_hashes_multiset(a1, b1);
        assert(hashes_of(b1) =~= hashes_of(b).remove(i));
        assert(hashes_of(b).remove(i).to_multiset() =~= hashes_of(b).to_multiset().remove(
            hashes_of(b)[i],
        ));
        assert(hashes_of(b)[i] == msg_hash(x));
        assert(hashes_of(a) =~= hashes_of(a1).push(msg_hash(x)));
        assert(hashes_of(a).to_multiset() =~= hashes_of(a1).to_multiset().insert(msg_hash(x)));
        assert(hashes_of(b).to_multiset().count(msg_hash(x)) > 0) by {
            assert(hashes_of(b).contains(hashes_of(b)[i]));
        }
        assert(hashes_of(a).to_multiset() =~= hashes_of(b).to_multiset());
    }
}

/// Sequences holding the same messages with the same multiplicities have
/// the same order-independent hash.
pub proof fn lemma_set_hash_of_multiset(a: Seq<Message>, b: Seq<Message>)
    requires
        a.to_multiset() == b.to_multiset(),
    ensures
        set_hash(a) == set_hash(b),
{
    lemma_hashes_multiset(a, b);
    lemma_u64_le_total();
    hashes_of(a).lemma_sort_by_ensures(u64_le());
    hashes_of(b).lemma_sort_by_ensures(u64_le());
    vstd::seq_lib::lemma_sorted_unique(
        hashes_of(a).sort_by(u64_le()),
        hashes_of(b).sort_by(u64_le()),
        u64_le(),
    );
}

/// Finds the position of the first occurrence of a message in a vector.
fn find_in(v: &Vec<Message>, elem: &Message) -> (r: Option<usize>)
    ensures
        match r {
            Some(j) => j < v@.len() && v@[j as int] == *elem,
            None => !v@.contains(*elem),
        },
{
    let n = v.len();
    let mut j: usize = 0;
    while j < n
        invariant
            n == v@.len(),
            j <= n,
            forall|k: int| 0 <= k < j ==> v@[k] != *elem,
        decreases n - j,
    {
        if *vstd::std_specs::vec::vec_index(v, j) == *elem {
            return Some(j);
        }
        j += 1;
    }
    None
}

impl vstd::std_specs::cmp::PartialEqSpecImpl for MessageSet {
    open spec fn obeys_eq_spec() -> bool {
        true
    }

    open spec fn eq_spec(&self, other: &MessageSet) -> bool {
        self@.to_multiset() == other@.to_multiset()
    }
}

impl PartialEq for MessageSet {
    /// Order-independent equality by the cross-out algorithm: reject at once
    /// if the sizes differ, then let every element of `self` claim a match
    /// from a shrinking pool of `other`'s elements, so that no element is
    /// matched twice.  Two sets are equal exactly when they hold the same
    /// messages with the same multiplicities, in any order.
    fn eq(&self, other: &Self) -> (r: bool) {
        proof {
            broadcast use vstd::seq_lib::group_to_multiset_ensures;
            broadcast use vstd::multiset::group_multiset_axioms;
        }
        let n = self.data.len();
        if n != other.data.len() {
            proof {
                broadcast use vstd::seq_lib::group_to_multiset_ensures;

                assert(self@.to_multiset().len() == self@.len());
                assert(other@.to_multiset().len() == other@.len());
            }
            return false;
        }
        // Collect the pool of elements of `other` still open to be matched.
        let mut to_cross: Vec<Message> = Vec::with_capacity(n);
        let mut i: usize = 0;
        while i < n
            invariant
                n == other@.len(),
                i <= n,
                to_cross@ == other@.take(i as int),
            decreases n - i,
        {
            to_cross.push(*vstd::std_specs::vec::vec_index(&other.data, i));
            proof {
                assert(other@.take(i + 1) =~= other@.take(i as int).push(other@[i as int]));
            }
            i += 1;
        }
        proof {
            assert(to_cross@ =~= other@);
        }
        // Cross out a matching pool element for each element of `self`.
        let mut i: usize = 0;
        while i < n
            invariant
                n == self@.len(),
                i <= n,
                to_cross@.len() == n - i,
                self@.take(i as int).to_multiset().add(to_cross@.to_multiset())
                    == other@.to_multiset(),
            decreases n - i,
        {
            proof {
                broadcast use vstd::seq_lib::group_to_multiset_ensures;
                broadcast use vstd::multiset::group_multiset_axioms;
            }
            let elem = *vstd::std_specs::vec::vec_index(&self.data, i);
            match find_in(&to_cross, &elem) {
                Some(j) => {
                    let ghost old_pool = to_cross@;
                    to_cross.remove(j);
                    proof {
                        assert(old_pool.remove(j as int).to_multiset() =~= old_pool.to_multiset()
                            .remove(elem));
                        assert(self@.take(i + 1) =~= self@.take(i as int).push(elem));
                        assert(old_pool.to_multiset().count(elem) > 0);
                        assert(self@.take(i + 1).to_multiset().add(to_cross@.to_multiset())
                            =~= other@.to_multiset());
                    }
                },
                None => {
                    proof {
                        assert(self@ =~= self@.take(i as int) + self@.skip(i as int));
                        vstd::seq_lib::lemma_multiset_commutative(
                            self@.take(i as int),
                            self@.skip(i as int),
                        );
                        assert(self@.skip(i as int)[0] == elem);
                        assert(self@.skip(i as int).contains(elem));
                        assert(self@.skip(i as int).to_multiset().count(elem) > 0);
                        assert(to_cross@.to_multiset().count(elem) == 0);
                        assert(self@.to_multiset().count(elem) != other@.to_multiset().count(
                            elem,
                        ));
                    }
                    return false;
                },
            }
            i += 1;
        }
        proof {
            assert(to_cross@ =~= Seq::<Message>::empty());
            assert(self@.take(n as int) =~= self@);
            assert(self@.to_multiset() =~= other@.to_multiset());
        }
        true
    }
}

impl Eq for MessageSet {}

/// Membership in the built set coincides with membership in the sequence it
/// was built from.
pub proof fn lemma_from_seq_contains(s: Seq<Message>)
    ensures
        forall|m: Message| #[trigger] from_seq(s).contains(m) <==> s.contains(m),
    decreases s.len(),
{
    if s.len() > 0 {
        lemma_from_seq_contains(s.drop_last());
        let fs = from_seq(s.drop_last());
        assert forall|m: Message| #[trigger] from_seq(s).contains(m) implies s.contains(m) by {
            if fs.contains(s.last()) {
                assert(from_seq(s) == fs);
                assert(from_seq(s.drop_last()).contains(m));
                assert(s.drop_last().contains(m));
                let i = choose|i: int| 0 <= i < s.drop_last().len() && s.drop_last()[i] == m;
                assert(s[i] == m);
            } else {
                assert(from_seq(s) == fs.push(s.last()));
                let j = choose|j: int|
                    0 <= j < fs.push(s.last()).len() && fs.push(s.last())[j] == m;
                if j < fs.len() {
                    assert(fs[j] == m);
                    assert(from_seq(s.drop_last()).contains(m));
                    assert(s.drop_last().contains(m));
                    let i = choose|i: int| 0 <= i < s.drop_last().len() && s.drop_last()[i] == m;
                    assert(s[i] == m);
                } else {
                    assert(m == s.last());
                    assert(s[s.len() - 1] == m);
                }
            }
        }
        assert forall|m: Message| s.contains(m) implies #[trigger] from_seq(s).contains(m) by {
            let i = choose|i: int| 0 <= i < s.len() && s[i] == m;
            if i < s.len() - 1 {
                assert(s.drop_last()[i] == m);
                assert(s.drop_last().contains(m));
                assert(fs.contains(m));
                let j = choose|j: int| 0 <= j < fs.len() && fs[j] == m;
                if !fs.contains(s.last()) {
                    assert(fs.push(s.last())[j] == m);
                }
            } else {
                if fs.contains(s.last()) {
                    assert(from_seq(s) == fs);
                } else {
                    assert(fs.push(s.last())[fs.len() as int] == s.last());
                }
            }
        }
    }
}

/// The built set never holds the same message twice.
pub proof fn lemma_from_seq_no_duplicates(s: Seq<Message>)
    ensures
        from_seq(s).no_duplicates(),
    decreases s.len(),
{
    if s.len() > 0 {
        lemma_from_seq_no_duplicates(s.drop_last());
        lemma_from_seq_contains(s.drop_last());
    }
}

/// Inserting into set contents adds exactly one membership.
pub proof fn lemma_set_insert_contains(s: Seq<Message>, e: Message)
    ensures
        forall|m: Message| #[trigger] set_insert(s, e).contains(m) <==> s.contains(m) || m == e,
{
    if s.contains(e) {
    } else {
        assert forall|m: Message| #[trigger] set_insert(s, e).contains(m) implies s.contains(m)
            || m == e by {
            let j = choose|j: int| 0 <= j < s.push(e).len() && s.push(e)[j] == m;
            if j < s.len() {
                assert(s[j] == m);
            }
        }
        assert forall|m: Message| s.contains(m) || m == e implies #[trigger] set_insert(
            s,
            e,
        ).contains(m) by {
            if s.contains(m) {
                let j = choose|j: int| 0 <= j < s.len() && s[j] == m;
                assert(s.push(e)[j] == m);
            } else {
                assert(s.push(e)[s.len() as int] == e);
            }
        }
    }
}

/// Membership after inserting many elements is the union of memberships.
pub proof fn lemma_insert_all_contains(s: Seq<Message>, elems: Seq<Message>)
    ensures
        forall|m: Message| #[trigger] insert_all(s, elems).contains(m) <==> s.contains(m)
            || elems.contains(m),
    decreases elems.len(),
{
    if elems.len() == 0 {
    } else {
        let e1 = elems.drop_last();
        lemma_insert_all_contains(s, e1);
        lemma_set_insert_contains(insert_all(s, e1), elems.last());
        assert forall|m: Message| elems.contains(m) implies e1.contains(m) || m == elems.last() by {
            let j = choose|j: int| 0 <= j < elems.len() && elems[j] == m;
            if j < elems.len() - 1 {
                assert(e1[j] == m);
            }
        }
        assert forall|m: Message| e1.contains(m) implies elems.contains(m) by {
            let j = choose|j: int| 0 <= j < e1.len() && e1[j] == m;
            assert(elems[j] == m);
        }
        assert(elems[elems.len() - 1] == elems.last());
        assert(elems.contains(elems.last()));
    }
}

/// Inserting many elements into duplicate-free contents keeps them
/// duplicate-free.
pub proof fn lemma_insert_all_no_duplicates(s: Seq<Message>, elems: Seq<Message>)
    requires
        s.no_duplicates(),
    ensures
        insert_all(s, elems).no_duplicates(),
    decreases elems.len(),
{
    if elems.len() > 0 {
        lemma_insert_all_no_duplicates(s, elems.drop_last());
    }
}

/// Two duplicate-free sequences with the same members hold the same
/// multiset: set contents compare equal exactly when their memberships
/// agree.
pub proof fn lemma_set_eq_by_members(a: Seq<Message>, b: Seq<Message>)
    requires
        a.no_duplicates(),
        b.no_duplicates(),
        forall|m: Message| a.contains(m) <==> b.contains(m),
    ensures
        a.to_multiset() == b.to_multiset(),
{
    broadcast use vstd::seq_lib::group_to_multiset_ensures;
    broadcast use vstd::multiset::group_multiset_axioms;

    a.lemma_multiset_has_no_duplicates();
    b.lemma_multiset_has_no_duplicates();
    assert forall|m: Message| a.to_multiset().count(m) == b.to_multiset().count(m) by {
        if a.contains(m) {
            assert(a.to_multiset().count(m) == 1);
            assert(b.to_multiset().count(m) == 1);
        } else {
            assert(a.to_multiset().count(m) == 0);
            assert(b.to_multiset().count(m) == 0);
        }
    }
    assert(a.to_multiset() =~= b.to_multiset());
}

/// Duplicates collapse: sets built from two sequences with the same members
/// are equal, however often either sequence repeats a member.
pub proof fn lemma_duplicates_collapse(s1: Seq<Message>, s2: Seq<Message>)
    requires
        forall|m: Message| s1.contains(m) <==> s2.contains(m),
    ensures
        from_seq(s1).to_multiset() == from_seq(s2).to_multiset(),
{
    lemma_from_seq_contains(s1);
    lemma_from_seq_contains(s2);
    lemma_from_seq_no_duplicates(s1);
    lemma_from_seq_no_duplicates(s2);
    lemma_set_eq_by_members(from_seq(s1), from_seq(s2));
}

/// Order-independence: message sets built from any two orderings of the
/// same elements are equal and have the same order-independent hash.
pub proof fn lemma_order_independence(s1: Seq<Message>, s2: Seq<Message>)
    requires
        s1.to_multiset() == s2.to_multiset(),
    ensures
        from_seq(s1).to_multiset() == from_seq(s2).to_multiset(),
        set_hash(from_seq(s1)) == set_hash(from_seq(s2)),
{
    broadcast use vstd::seq_lib::group_to_multiset_ensures;

    assert forall|m: Message| s1.contains(m) <==> s2.contains(m) by {
        assert(s1.contains(m) <==> s1.to_multiset().count(m) > 0);
        assert(s2.contains(m) <==> s2.to_multiset().count(m) > 0);
    }
    lemma_duplicates_collapse(s1, s2);
    lemma_set_hash_of_multiset(from_seq(s1), from_seq(s2));
}

} // verus!
