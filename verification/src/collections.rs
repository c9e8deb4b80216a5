//! The collection abstraction: read access to groups of entities, and the
//! two ways mutation propagates.
//!
//! *Synchronized* mutation assumes a single shared view: every agent that
//! can mutate such a store sees the same resulting state (an external
//! consensus mechanism achieves this; it is out of scope here).
//! *Asynchronous* mutation takes a [`Recipient`] selector and only reaches
//! the chosen recipients' local views; no cross-agent consistency is implied
//! by this layer.  Every operation of a store could, in general, fail with
//! a store-specific error; the stores of this crate are proved never to
//! fail, so they offer the capabilities in their infallible refinement
//! directly, and the error path survives only in the error types of the
//! viewpoint boundary.

use vstd::prelude::*;

use crate::auxillary::Identifiable;

verus! {

/// Selects who an asynchronous update is sent to.
#[derive(Clone, Copy, Debug, PartialEq, Eq, Structural)]
pub enum Recipient<I> {
    /// Send it to all agents.
    All,
    /// Send it to one specific agent.
    One(I),
}

impl<I> Recipient<I> {
    /// Maps the identifier of the addressed agent, if any; the callback is
    /// only invoked for a [`Recipient::One`].
    pub fn map<T, F: FnOnce(I) -> T>(self, callback: F) -> (r: Recipient<T>)
        requires
            self matches Recipient::One(id) ==> call_requires(callback, (id,)),
        ensures
            match (self, r) {
                (Recipient::All, Recipient::All) => true,
                (Recipient::One(id), Recipient::One(t)) => call_ensures(callback, (id,), t),
                _ => false,
            },
    {
        match self {
            Recipient::All => Recipient::All,
            Recipient::One(id) => Recipient::One(callback(id)),
        }
    }
}

/// A set of exactly one element: it lets anything that is not a collection
/// be read through the collection interface.
#[derive(Clone, Copy, Debug, PartialEq, Eq, Structural)]
pub struct Singleton<T>(pub T);

impl<T> Singleton<T> {
    /// Constructor for the Singleton; equivalent to writing
    /// `Singleton(elem)`.
    pub fn new(elem: T) -> (r: Self)
        ensures
            r == (Singleton(elem)),
    {
        Singleton(elem)
    }

    /// Reads the single element back.
    pub fn get(&self) -> (r: &T)
        ensures
            *r == self.0,
    {
        &self.0
    }

    /// Returns how many elements there are: always exactly one.
    pub fn len(&self) -> (r: usize)
        ensures
            r == 1,
    {
        1
    }
}

/// One asynchronous delivery: an element sent to a chosen set of agents.
#[derive(Clone, Copy, Debug)]
pub struct Delivery<E> {
    /// Who the element was sent to.
    pub to: Recipient<u64>,
    /// The element that was sent.
    pub elem: E,
}

/// Whether a delivery reaches the local view of the given agent.
pub open spec fn delivered_to<E>(d: Delivery<E>, agent: u64) -> bool {
    match d.to {
        Recipient::All => true,
        Recipient::One(i) => i == agent,
    }
}

/// The elements of a delivery sequence that are visible to the given agent,
/// in delivery order.
pub open spec fn visible_of<E>(s: Seq<Delivery<E>>, agent: u64) -> Seq<E>
    decreases s.len(),
{
    if s.len() == 0 {
        Seq::empty()
    } else {
        let rest = visible_of(s.drop_last(), agent);
        if delivered_to(s.last(), agent) {
            rest.push(s.last().elem)
        } else {
            rest
        }
    }
}

/// The first element of `s` carrying the identifier `id`, if any.
pub open spec fn first_with_key<E: Identifiable>(s: Seq<E>, id: u64) -> Option<E>
    decreases s.len(),
{
    if s.len() == 0 {
        None
    } else if s.first().id_spec() == id {
        Some(s.first())
    } else {
        first_with_key(s.drop_first(), id)
    }
}

/// Whether some element of `s` carries the identifier `id`.
pub open spec fn has_key<E: Identifiable>(s: Seq<E>, id: u64) -> bool {
    exists|i: int| 0 <= i < s.len() && s[i].id_spec() == id
}

/// The first match for an identifier is found beyond any prefix without a
/// match.
pub proof fn lemma_first_with_key_skip<E: Identifiable>(s: Seq<E>, id: u64, i: int)
    requires
        0 <= i <= s.len(),
        forall|k: int| 0 <= k < i ==> s[k].id_spec() != id,
    ensures
        first_with_key(s, id) == first_with_key(s.skip(i), id),
    decreases i,
{
    if i > 0 {
        assert(s[0].id_spec() != id);
        assert(first_with_key(s, id) == first_with_key(s.drop_first(), id));
        assert(s.drop_first().skip(i - 1) =~= s.skip(i));
        lemma_first_with_key_skip(s.drop_first(), id, i - 1);
    } else {
        assert(s.skip(0) =~= s);
    }
}

/// A sequence holds a key exactly when searching for it finds an element.
pub proof fn lemma_first_with_key_some<E: Identifiable>(s: Seq<E>, id: u64)
    ensures
        has_key(s, id) <==> first_with_key(s, id) is Some,
        first_with_key(s, id) matches Some(e) ==> e.id_spec() == id && s.contains(e),
    decreases s.len(),
{
    if s.len() > 0 {
        lemma_first_with_key_some(s.drop_first(), id);
        if s.first().id_spec() == id {
            assert(s[0].id_spec() == id);
        } else {
            assert(has_key(s.drop_first(), id) <==> has_key(s, id)) by {
                if has_key(s, id) {
                    let i = choose|i: int| 0 <= i < s.len() && s[i].id_spec() == id;
                    assert(s.drop_first()[i - 1].id_spec() == id);
                }
                if has_key(s.drop_first(), id) {
                    let i = choose|i: int|
                        0 <= i < s.drop_first().len() && s.drop_first()[i].id_spec() == id;
                    assert(s[i + 1].id_spec() == id);
                }
            }
            if first_with_key(s, id) is Some {
                let e = first_with_key(s.drop_first(), id).unwrap();
                assert(s.drop_first().contains(e));
                let i = choose|i: int|
                    0 <= i < s.drop_first().len() && s.drop_first()[i] == e;
                assert(s[i + 1] == e);
            }
        }
    }
}

/// Propagation: a new delivery extends the view of exactly the agents it
/// addresses, and leaves every other agent's view as it was.
pub proof fn lemma_delivery_reaches<E>(
    s: Seq<Delivery<E>>,
    to: Recipient<u64>,
    elem: E,
    agent: u64,
)
    ensures
        delivered_to((Delivery { to, elem }), agent) ==> visible_of(
            s.push((Delivery { to, elem })),
            agent,
        ) == visible_of(s, agent).push(elem),
        !delivered_to((Delivery { to, elem }), agent) ==> visible_of(
            s.push((Delivery { to, elem })),
            agent,
        ) == visible_of(s, agent),
{
    assert(s.push((Delivery { to, elem })).drop_last() =~= s);
}

/// An element is visible exactly when some delivery addressed to the agent
/// carried it.
pub proof fn lemma_visible_contains<E>(s: Seq<Delivery<E>>, agent: u64)
    ensures
        forall|e: E| #[trigger] visible_of(s, agent).contains(e) <==> exists|j: int|
            0 <= j < s.len() && delivered_to(#[trigger] s[j], agent) && s[j].elem == e,
    decreases s.len(),
{
    if s.len() > 0 {
        let s1 = s.drop_last();
        lemma_visible_contains(s1, agent);
        let v1 = visible_of(s1, agent);
        assert forall|e: E| #[trigger] visible_of(s, agent).contains(e) implies exists|j: int|
            0 <= j < s.len() && delivered_to(#[trigger] s[j], agent) && s[j].elem == e by {
            if delivered_to(s.last(), agent) {
                let k = choose|k: int|
                    0 <= k < v1.push(s.last().elem).len() && v1.push(s.last().elem)[k] == e;
                if k < v1.len() {
                    assert(v1[k] == e);
                    assert(v1.contains(e));
                    let j = choose|j: int|
                        0 <= j < s1.len() && delivered_to(s1[j], agent) && s1[j].elem == e;
                    assert(delivered_to(s[j], agent) && s[j].elem == e);
                } else {
                    assert(delivered_to(s[s.len() - 1], agent) && s[s.len() - 1].elem == e);
                }
            } else {
                assert(v1.contains(e));
                let j = choose|j: int|
                    0 <= j < s1.len() && delivered_to(s1[j], agent) && s1[j].elem == e;
                assert(delivered_to(s[j], agent) && s[j].elem == e);
            }
        }
        assert forall|e: E, j: int|
            0 <= j < s.len() && delivered_to(#[trigger] s[j], agent) && s[j].elem
                == e implies #[trigger] visible_of(s, agent).contains(e) by {
            if j < s.len() - 1 {
                assert(delivered_to(s1[j], agent) && s1[j].elem == e);
                assert(v1.contains(e));
                let k = choose|k: int| 0 <= k < v1.len() && v1[k] == e;
                if delivered_to(s.last(), agent) {
                    assert(v1.push(s.last().elem)[k] == e);
                }
            } else {
                assert(delivered_to(s.last(), agent));
                assert(v1.push(s.last().elem)[v1.len() as int] == e);
            }
        }
    }
}

/// A key is visible exactly when some delivery addressed to the agent
/// carried an element with that identifier.
pub proof fn lemma_visible_has_key<E: Identifiable>(s: Seq<Delivery<E>>, agent: u64, id: u64)
    ensures
        has_key(visible_of(s, agent), id) <==> exists|j: int|
            0 <= j < s.len() && delivered_to(#[trigger] s[j], agent) && s[j].elem.id_spec() == id,
{
    lemma_visible_contains(s, agent);
    let v = visible_of(s, agent);
    if has_key(v, id) {
        let i = choose|i: int| 0 <= i < v.len() && v[i].id_spec() == id;
        assert(v.contains(v[i]));
    }
    if exists|j: int|
        0 <= j < s.len() && delivered_to(#[trigger] s[j], agent) && s[j].elem.id_spec() == id {
        let j = choose|j: int|
            0 <= j < s.len() && delivered_to(s[j], agent) && s[j].elem.id_spec() == id;
        assert(v.contains(s[j].elem));
        let i = choose|i: int| 0 <= i < v.len() && v[i] == s[j].elem;
        assert(v[i].id_spec() == id);
    }
}

/// Searching a concatenation finds the first match of the front part, and
/// falls back to the back part.
pub proof fn lemma_first_with_key_concat<E: Identifiable>(a: Seq<E>, b: Seq<E>, id: u64)
    ensures
        first_with_key(a + b, id) == (if has_key(a, id) {
            first_with_key(a, id)
        } else {
            first_with_key(b, id)
        }),
    decreases a.len(),
{
    lemma_first_with_key_some(a, id);
    if a.len() == 0 {
        assert(a + b =~= b);
    } else {
        assert((a + b).first() == a.first());
        assert((a + b).drop_first() =~= a.drop_first() + b);
        lemma_first_with_key_concat(a.drop_first(), b, id);
        lemma_first_with_key_some(a.drop_first(), id);
        if a.first().id_spec() == id {
            assert(has_key(a, id)) by {
                assert(a[0].id_spec() == id);
            }
        } else {
            assert(has_key(a, id) <==> has_key(a.drop_first(), id)) by {
                if has_key(a, id) {
                    let i = choose|i: int| 0 <= i < a.len() && a[i].id_spec() == id;
                    assert(a.drop_first()[i - 1].id_spec() == id);
                }
                if has_key(a.drop_first(), id) {
                    let i = choose|i: int|
                        0 <= i < a.drop_first().len() && a.drop_first()[i].id_spec() == id;
                    assert(a[i + 1].id_spec() == id);
                }
            }
        }
    }
}

/// A key present in the front of a concatenation is present in the whole.
pub proof fn lemma_has_key_concat_left<E: Identifiable>(a: Seq<E>, b: Seq<E>, id: u64)
    requires
        has_key(a, id),
    ensures
        has_key(a + b, id),
{
    let i = choose|i: int| 0 <= i < a.len() && a[i].id_spec() == id;
    assert((a + b)[i].id_spec() == id);
}

/// Read access to a set-like store that cannot fail.
pub trait InfallibleSet<E> {
    /// The elements currently in the store, in insertion order.
    spec fn contents(&self) -> Seq<E>;

    /// Returns how many elements the store holds.
    fn len(&self) -> (r: usize)
        ensures
            r == self.contents().len(),
    ;
}

/// Synchronized mutation of an infallible set-like store.
pub trait InfallibleSetSync<E>: InfallibleSet<E> {
    /// Adds an element; a store with set semantics keeps one copy of each.
    /// Returns true if the element was new.
    fn add(&mut self, elem: E) -> (r: bool)
        ensures
            old(self).contents().contains(elem) ==> final(self).contents() == old(
                self,
            ).contents() && !r,
            !old(self).contents().contains(elem) ==> final(self).contents() == old(
                self,
            ).contents().push(elem) && r,
    ;
}

/// Element-wise mutation of an infallible set-like store.
pub trait InfallibleSetMut<E>: InfallibleSet<E> {
    /// Inserts an element; returns true if an equal element already stood
    /// in the store (which is then left as it is).
    fn insert(&mut self, elem: E) -> (r: bool)
        ensures
            r == old(self).contents().contains(elem),
            old(self).contents().contains(elem) ==> final(self).contents() == old(
                self,
            ).contents(),
            !old(self).contents().contains(elem) ==> final(self).contents() == old(
                self,
            ).contents().push(elem),
    ;

    /// Removes an element; returns true if it was present.
    fn remove(&mut self, elem: &E) -> (r: bool)
        ensures
            r == old(self).contents().contains(*elem),
            !old(self).contents().contains(*elem) ==> final(self).contents() == old(
                self,
            ).contents(),
    ;
}

/// Asynchronous mutation of an infallible set-like store: an update reaches
/// only the chosen recipients' local views.
pub trait InfallibleSetAsync<E> {
    /// The deliveries recorded so far, in order.
    spec fn deliveries(&self) -> Seq<Delivery<E>>;

    /// Sends an element to the chosen recipients.
    fn add(&mut self, to: Recipient<u64>, elem: E)
        ensures
            final(self).deliveries() == old(self).deliveries().push(
                (Delivery { to, elem }),
            ),
    ;
}

/// Read access to a map-like store that cannot fail: elements are reached
/// by their own identifier.
pub trait InfallibleMap<E: Identifiable + Copy> {
    /// The elements currently in the store, in insertion order.
    spec fn contents(&self) -> Seq<E>;

    /// Returns how many elements the store holds.
    fn len(&self) -> (r: usize)
        ensures
            r == self.contents().len(),
    ;

    /// Checks whether an element with the given identifier is present.
    fn contains_key(&self, id: u64) -> (r: bool)
        ensures
            r == has_key(self.contents(), id),
    ;

    /// Retrieves the first element with the given identifier.
    fn get(&self, id: u64) -> (r: Option<E>)
        ensures
            r == first_with_key(self.contents(), id),
    ;
}

/// Synchronized mutation of an infallible map-like store: adding is a total
/// replace-by-identifier that hands back the previous element, if any.
pub trait InfallibleMapSync<E: Identifiable + Copy>: InfallibleMap<E> {
    /// Adds an element, replacing the element that carried the same
    /// identifier if one was present, and returning it.
    fn add(&mut self, elem: E) -> (r: Option<E>)
        ensures
            r == first_with_key(old(self).contents(), elem.id_spec()),
            final(self).contents() == replace_by_key(old(self).contents(), elem),
    ;
}

/// Replaces the first element keyed like `e` by `e`, or appends `e` if no
/// element carries its identifier.
pub open spec fn replace_by_key<E: Identifiable>(s: Seq<E>, e: E) -> Seq<E>
    decreases s.len(),
{
    if s.len() == 0 {
        seq![e]
    } else if s.first().id_spec() == e.id_spec() {
        s.update(0, e)
    } else {
        seq![s.first()] + replace_by_key(s.drop_first(), e)
    }
}

/// Adds every element of `elems`, in order, each by replace-by-identifier.
pub open spec fn replace_all<E: Identifiable>(s: Seq<E>, elems: Seq<E>) -> Seq<E>
    decreases elems.len(),
{
    if elems.len() == 0 {
        s
    } else {
        replace_by_key(replace_all(s, elems.drop_last()), elems.last())
    }
}

/// Replacing by key at the first matching position is a point update.
pub proof fn lemma_replace_by_key_at<E: Identifiable>(s: Seq<E>, e: E, i: int)
    requires
        0 <= i < s.len(),
        forall|k: int| 0 <= k < i ==> s[k].id_spec() != e.id_spec(),
        s[i].id_spec() == e.id_spec(),
    ensures
        replace_by_key(s, e) == s.update(i, e),
    decreases i,
{
    if i == 0 {
    } else {
        assert(s[0].id_spec() != e.id_spec());
        lemma_replace_by_key_at(s.drop_first(), e, i - 1);
        assert(replace_by_key(s, e) =~= s.update(i, e)) by {
            assert(replace_by_key(s, e) == seq![s.first()] + s.drop_first().update(i - 1, e));
        }
    }
}

/// Replacing by an absent key appends the element.
pub proof fn lemma_replace_by_key_missing<E: Identifiable>(s: Seq<E>, e: E)
    requires
        forall|k: int| 0 <= k < s.len() ==> s[k].id_spec() != e.id_spec(),
    ensures
        replace_by_key(s, e) == s.push(e),
    decreases s.len(),
{
    if s.len() == 0 {
        assert(replace_by_key(s, e) =~= s.push(e));
    } else {
        assert(s[0].id_spec() != e.id_spec());
        assert(forall|k: int|
            0 <= k < s.drop_first().len() ==> s.drop_first()[k].id_spec() != e.id_spec())
            by {
            assert(forall|k: int|
                0 <= k < s.drop_first().len() ==> s.drop_first()[k] == s[k + 1]);
        }
        lemma_replace_by_key_missing(s.drop_first(), e);
        assert(replace_by_key(s, e) =~= s.push(e)) by {
            assert(replace_by_key(s, e) == seq![s.first()] + s.drop_first().push(e));
        }
    }
}

} // verus!
