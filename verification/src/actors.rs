//! The two kinds of actors and their viewpoint on the system.
//!
//! *Agents* read the synchronized and asynchronous stores and write to
//! asynchronous ones; *synchronizers* also have the power to replace the
//! synchronized agreement store.  Each activation works through a
//! [`Viewpoint`]: the composite of the agreed, stated and enacted stores as
//! one agent sees them.  The agreed store is identical across all agents at
//! any instant; the stated and enacted stores may legitimately differ
//! between agents.

use vstd::prelude::*;

use crate::actions::Action;
use crate::agreements::{Agreement, Agreements};
use crate::auxillary::Identifiable;
use crate::collections::{
    delivered_to, first_with_key, has_key, lemma_first_with_key_skip, lemma_visible_contains,
    lemma_visible_has_key, replace_all, visible_of, Delivery, InfallibleMap, InfallibleMapSync,
    InfallibleSetAsync, Recipient,
};
use crate::messages::Message;

verus! {

/// An error of one of the three stores behind a viewpoint, wrapped so that
/// the failing store is named when it crosses the multi-store boundary.
#[derive(Clone, Copy, Debug, PartialEq, Eq, Structural)]
pub enum OneOfSetError {
    /// The agreement store failed.
    Agreements(u64),
    /// The statement store failed.
    Statements(u64),
    /// The enactment store failed.
    Enactments(u64),
}

/// An error of a viewpoint operation.
///
/// The access-control violations are caller-local and always recoverable:
/// the operation leaves the viewpoint untouched.  The [`Error::Store`]
/// variant wraps a store failure; the stores of this crate never fail, so
/// the viewpoint operations never return it, but a host whose stores can
/// fail reports through it.
#[derive(Clone, Copy, Debug, PartialEq, Eq, Structural)]
pub enum Error {
    /// The agent attempted to enact an action of someone else.
    IllegalEnact { agent: u64, author: u64 },
    /// The agent attempted to gossip a message it did not know.
    IllegalGossip { agent: u64 },
    /// The agent attempted to state a message of someone else.
    IllegalState { agent: u64, author: u64 },
    /// One of the stores failed.
    Store(OneOfSetError),
}

impl OneOfSetError {
    /// What [`OneOfSetError::describe`] returns, as a specification-level
    /// value.
    pub open spec fn describe_spec(&self) -> Seq<char> {
        match self {
            OneOfSetError::Agreements(_) => "the agreement store failed"@,
            OneOfSetError::Statements(_) => "the statement store failed"@,
            OneOfSetError::Enactments(_) => "the enactment store failed"@,
        }
    }

    /// A short description of which store failed, for hosts that display
    /// errors.
    pub fn describe(&self) -> (r: &'static str)
        ensures
            r@ == self.describe_spec(),
    {
        match self {
            OneOfSetError::Agreements(_) => "the agreement store failed",
            OneOfSetError::Statements(_) => "the statement store failed",
            OneOfSetError::Enactments(_) => "the enactment store failed",
        }
    }
}

impl Error {
    /// A short description of the error, for hosts that display it.
    pub fn describe(&self) -> (r: &'static str)
        ensures
            r@ == (match self {
                Error::IllegalEnact { .. } => "the agent may not enact an action of someone else"@,
                Error::IllegalGossip { .. } => "the agent may not gossip a message it did not know"@,
                Error::IllegalState { .. } => "the agent may not state a message of someone else"@,
                Error::Store(e) => e.describe_spec(),
            }),
    {
        match self {
            Error::IllegalEnact { .. } => "the agent may not enact an action of someone else",
            Error::IllegalGossip { .. } => "the agent may not gossip a message it did not know",
            Error::IllegalState { .. } => "the agent may not state a message of someone else",
            Error::Store(e) => e.describe(),
        }
    }
}

/// The per-agent store of stated messages.
///
/// Each entry records one asynchronous delivery; what an agent sees of the
/// store is the subsequence of deliveries addressed to it or to all.
#[derive(Clone, Debug)]
pub struct Statements {
    /// The deliveries, in order.
    data: Vec<Delivery<Message>>,
}

impl View for Statements {
    type V = Seq<Delivery<Message>>;

    closed spec fn view(&self) -> Seq<Delivery<Message>> {
        self.data@
    }
}

impl Statements {
    /// Constructor for an empty store.
    pub fn new() -> (r: Self)
        ensures
            r@ == Seq::<Delivery<Message>>::empty(),
    {
        Statements { data: Vec::new() }
    }

    /// Returns how many deliveries the store has recorded.
    pub fn len(&self) -> (r: usize)
        ensures
            r == self@.len(),
    {
        self.data.len()
    }

    /// The messages visible to the given agent, in delivery order.
    pub fn visible(&self, agent: u64) -> (r: Vec<Message>)
        ensures
            r@ == visible_of(self@, agent),
    {
        let n = self.data.len();
        let mut out: Vec<Message> = Vec::new();
        let mut i: usize = 0;
        while i < n
            invariant
                n == self@.len(),
                i <= n,
                out@ == visible_of(self@.take(i as int), agent),
            decreases n - i,
        {
            let d = *vstd::std_specs::vec::vec_index(&self.data, i);
            proof {
                assert(self@.take(i + 1).drop_last() =~= self@.take(i as int));
                assert(self@.take(i + 1).last() == self@[i as int]);
            }
            match d.to {
                Recipient::All => out.push(d.elem),
                Recipient::One(a) => {
                    if a == agent {
                        out.push(d.elem);
                    }
                },
            }
            i += 1;
        }
        proof {
            assert(self@.take(n as int) =~= self@);
        }
        out
    }

    /// Checks whether the given message is visible to the given agent.
    pub fn contains_visible(&self, agent: u64, m: &Message) -> (r: bool)
        ensures
            r == visible_of(self@, agent).contains(*m),
    {
        let n = self.data.len();
        let mut i: usize = 0;
        while i < n
            invariant
                n == self@.len(),
                i <= n,
                forall|k: int|
                    0 <= k < i ==> !(delivered_to(#[trigger] self@[k], agent) && self@[k].elem
                        == *m),
            decreases n - i,
        {
            let d = *vstd::std_specs::vec::vec_index(&self.data, i);
            let hit = match d.to {
                Recipient::All => true,
                Recipient::One(a) => a == agent,
            };
            if hit && d.elem == *m {
                proof {
                    assert(delivered_to(self@[i as int], agent) && self@[i as int].elem == *m);
                    lemma_visible_contains(self@, agent);
                }
                return true;
            }
            i += 1;
        }
        proof {
            lemma_visible_contains(self@, agent);
        }
        false
    }

    /// Checks whether a message with the given identifier is visible to
    /// the given agent.
    pub fn contains_id(&self, agent: u64, id: u64) -> (r: bool)
        ensures
            r == has_key(visible_of(self@, agent), id),
    {
        let n = self.data.len();
        let mut i: usize = 0;
        while i < n
            invariant
                n == self@.len(),
                i <= n,
                forall|k: int|
                    0 <= k < i ==> !(delivered_to(#[trigger] self@[k], agent) && self@[k].elem.id
                        == id),
            decreases n - i,
        {
            let d = *vstd::std_specs::vec::vec_index(&self.data, i);
            let hit = match d.to {
                Recipient::All => true,
                Recipient::One(a) => a == agent,
            };
            if hit && d.elem.id == id {
                proof {
                    assert(delivered_to(self@[i as int], agent) && self@[i as int].elem.id_spec()
                        == id);
                    lemma_visible_has_key(self@, agent, id);
                }
                return true;
            }
            i += 1;
        }
        proof {
            assert(forall|k: int|
                0 <= k < self@.len() ==> !(delivered_to(#[trigger] self@[k], agent)
                    && self@[k].elem.id_spec() == id));
            lemma_visible_has_key(self@, agent, id);
        }
        false
    }
}

impl InfallibleSetAsync<Message> for Statements {
    open spec fn deliveries(&self) -> Seq<Delivery<Message>> {
        self@
    }

    fn add(&mut self, to: Recipient<u64>, elem: Message) {
        self.data.push(Delivery { to, elem });
    }
}

/// The per-agent store of enacted actions, recorded as asynchronous
/// deliveries like the stated messages are.
#[derive(Clone, Debug)]
pub struct Enactments {
    /// The deliveries, in order.
    data: Vec<Delivery<Action>>,
}

impl View for Enactments {
    type V = Seq<Delivery<Action>>;

    closed spec fn view(&self) -> Seq<Delivery<Action>> {
        self.data@
    }
}

impl Enactments {
    /// Constructor for an empty store.
    pub fn new() -> (r: Self)
        ensures
            r@ == Seq::<Delivery<Action>>::empty(),
    {
        Enactments { data: Vec::new() }
    }

    /// Returns how many deliveries the store has recorded.
    pub fn len(&self) -> (r: usize)
        ensures
            r == self@.len(),
    {
        self.data.len()
    }
}

impl InfallibleSetAsync<Action> for Enactments {
    open spec fn deliveries(&self) -> Seq<Delivery<Action>> {
        self@
    }

    fn add(&mut self, to: Recipient<u64>, elem: Action) {
        self.data.push(Delivery { to, elem });
    }
}

/// The payloads of a sequence of actions, one after another.
pub open spec fn payloads_of(s: Seq<Action>) -> Seq<Message>
    decreases s.len(),
{
    if s.len() == 0 {
        Seq::empty()
    } else {
        payloads_of(s.drop_last()) + s.last().payload_spec()
    }
}

/// The view an agent or synchronizer has on the runtime: the synchronized
/// agreement store and its own slices of the stated and enacted stores.
#[derive(Clone, Debug)]
pub struct Viewpoint {
    /// The identifier of the agent this viewpoint belongs to.
    pub id: u64,
    /// The agreements that have been formulated; identical for all agents.
    pub agreed: Agreements,
    /// The messages that have been stated, as far as visible to this agent.
    pub stated: Statements,
    /// The actions that have been enacted, as far as visible to this agent.
    pub enacted: Enactments,
}

impl Viewpoint {
    /// The messages of the agreements, in store order.
    pub open spec fn agreed_messages(&self) -> Seq<Message> {
        self.agreed@.map_values(|a: Agreement| a.message)
    }

    /// The stated messages visible to this agent.
    pub open spec fn stated_visible(&self) -> Seq<Message> {
        visible_of(self.stated@, self.id)
    }

    /// The enacted actions visible to this agent.
    pub open spec fn enacted_visible(&self) -> Seq<Action> {
        visible_of(self.enacted@, self.id)
    }

    /// Every message visible to this agent: agreement messages, stated
    /// messages, and the full payload of every visible enacted action, in
    /// that enumeration order.  Duplicates across sources are kept: the
    /// sequence is a multiset projection, and deduplication is the
    /// caller's business.
    pub open spec fn all_statements(&self) -> Seq<Message> {
        self.agreed_messages() + self.stated_visible() + payloads_of(self.enacted_visible())
    }

    /// Constructor for the viewpoint of the given agent with empty stores.
    pub fn new(id: u64) -> (r: Self)
        ensures
            r.id == id,
            r.agreed@ == Seq::<Agreement>::empty(),
            r.stated@ == Seq::<Delivery<Message>>::empty(),
            r.enacted@ == Seq::<Delivery<Action>>::empty(),
    {
        Viewpoint {
            id,
            agreed: Agreements::new(),
            stated: Statements::new(),
            enacted: Enactments::new(),
        }
    }

    /// Have the agent state a message to its own view.
    ///
    /// Fails with [`Error::IllegalState`] — and changes nothing — unless
    /// the message is the agent's own; otherwise the message is delivered
    /// to the agent itself.
    pub fn state(&mut self, msg: Message) -> (r: Result<(), Error>)
        ensures
            old(self).id == msg.author_id ==> r == Ok::<(), Error>(()) && final(self).stated@
                == old(self).stated@.push(
                (Delivery { to: Recipient::One(msg.author_id), elem: msg }),
            ) && final(self).id == old(self).id && final(self).agreed == old(self).agreed
                && final(self).enacted == old(self).enacted,
            old(self).id != msg.author_id ==> r == Err::<(), Error>(
                Error::IllegalState { agent: old(self).id, author: msg.author_id },
            ) && *final(self) == *old(self),
    {
        if self.id != msg.author_id {
            return Err(Error::IllegalState { agent: self.id, author: msg.author_id });
        }
        let author = msg.author_id;
        self.stated.add(Recipient::One(author), msg);
        Ok(())
    }

    /// Have the agent enact an action to its own view.
    ///
    /// Fails with [`Error::IllegalEnact`] — and changes nothing — unless
    /// the action is the agent's own.
    pub fn enact(&mut self, act: Action) -> (r: Result<(), Error>)
        ensures
            old(self).id == act.actor_id ==> r == Ok::<(), Error>(()) && final(self).enacted@
                == old(self).enacted@.push((Delivery { to: Recipient::One(act.actor_id), elem: act }))
                && final(self).id == old(self).id && final(self).agreed == old(self).agreed
                && final(self).stated == old(self).stated,
            old(self).id != act.actor_id ==> r == Err::<(), Error>(
                Error::IllegalEnact { agent: old(self).id, author: act.actor_id },
            ) && *final(self) == *old(self),
    {
        if self.id != act.actor_id {
            return Err(Error::IllegalEnact { agent: self.id, author: act.actor_id });
        }
        let actor = act.actor_id;
        self.enacted.add(Recipient::One(actor), act);
        Ok(())
    }

    /// Agree on a new list of agreements: a wholesale replace of the
    /// synchronized agreement store, reserved for the synchronizer role
    /// (used for time and agreement rollover).
    pub fn agree(&mut self, agrees: Vec<Agreement>) -> (r: Result<(), Error>)
        ensures
            r == Ok::<(), Error>(()),
            final(self).agreed@ == replace_all(Seq::<Agreement>::empty(), agrees@),
            final(self).id == old(self).id,
            final(self).stated == old(self).stated,
            final(self).enacted == old(self).enacted,
    {
        self.agreed.clear();
        let n = agrees.len();
        let mut i: usize = 0;
        while i < n
            invariant
                n == agrees@.len(),
                i <= n,
                self.agreed@ == replace_all(Seq::<Agreement>::empty(), agrees@.take(i as int)),
                self.id == old(self).id,
                self.stated == old(self).stated,
                self.enacted == old(self).enacted,
            decreases n - i,
        {
            proof {
                assert(agrees@.take(i + 1).drop_last() =~= agrees@.take(i as int));
                assert(agrees@.take(i + 1).last() == agrees@[i as int]);
            }
            self.agreed.add(*vstd::std_specs::vec::vec_index(&agrees, i));
            i += 1;
        }
        proof {
            assert(agrees@.take(n as int) =~= agrees@);
        }
        Ok(())
    }

    /// Gossips a message to a new recipient.
    ///
    /// You can only forward what you already know: fails with
    /// [`Error::IllegalGossip`] — and changes nothing — unless the message
    /// is in the agent's own stated view; otherwise it is delivered to the
    /// chosen recipients.
    pub fn gossip(&mut self, to: Recipient<u64>, message: Message) -> (r: Result<(), Error>)
        ensures
            old(self).stated_visible().contains(message) ==> r == Ok::<(), Error>(())
                && final(self).stated@ == old(self).stated@.push((Delivery { to, elem: message }))
                && final(self).id == old(self).id && final(self).agreed == old(self).agreed
                && final(self).enacted == old(self).enacted,
            !old(self).stated_visible().contains(message) ==> r == Err::<(), Error>(
                Error::IllegalGossip { agent: old(self).id },
            ) && *final(self) == *old(self),
    {
        if !self.stated.contains_visible(self.id, &message) {
            return Err(Error::IllegalGossip { agent: self.id });
        }
        self.stated.add(to, message);
        Ok(())
    }

    /// Produces every message visible to this agent, in the fixed
    /// enumeration order of [`Viewpoint::all_statements`].  Duplicates are
    /// not removed; the order-independent message set construction is the
    /// way to deduplicate.  The stores of this crate cannot fail, so no
    /// error case is left at this boundary.
    pub fn statements(&self) -> (r: Vec<Message>)
        ensures
            r@ == self.all_statements(),
    {
        let mut out: Vec<Message> = Vec::new();
        let na = InfallibleMap::len(&self.agreed);
        let mut i: usize = 0;
        while i < na
            invariant
                na == self.agreed@.len(),
                i <= na,
                out@ == self.agreed@.take(i as int).map_values(|a: Agreement| a.message),
            decreases na - i,
        {
            out.push(self.agreed.at(i).message);
            proof {
                assert(self.agreed@.take(i + 1).map_values(|a: Agreement| a.message) =~= self
                    .agreed@.take(i as int).map_values(|a: Agreement| a.message).push(
                    self.agreed@[i as int].message,
                ));
            }
            i += 1;
        }
        proof {
            assert(self.agreed@.take(na as int) =~= self.agreed@);
        }
        let ns = self.stated.len();
        let mut j: usize = 0;
        while j < ns
            invariant
                ns == self.stated@.len(),
                j <= ns,
                out@ == self.agreed_messages() + visible_of(self.stated@.take(j as int), self.id),
            decreases ns - j,
        {
            let d = *vstd::std_specs::vec::vec_index(&self.stated.data, j);
            proof {
                assert(self.stated@.take(j + 1).drop_last() =~= self.stated@.take(j as int));
                assert(self.stated@.take(j + 1).last() == self.stated@[j as int]);
            }
            let hit = match d.to {
                Recipient::All => true,
                Recipient::One(a) => a == self.id,
            };
            if hit {
                out.push(d.elem);
            }
            j += 1;
        }
        proof {
            assert(self.stated@.take(ns as int) =~= self.stated@);
        }
        let ne = self.enacted.len();
        let mut k: usize = 0;
        while k < ne
            invariant
                ne == self.enacted@.len(),
                k <= ne,
                out@ == self.agreed_messages() + self.stated_visible() + payloads_of(
                    visible_of(self.enacted@.take(k as int), self.id),
                ),
            decreases ne - k,
        {
            let d = vstd::std_specs::vec::vec_index(&self.enacted.data, k);
            proof {
                assert(self.enacted@.take(k + 1).drop_last() =~= self.enacted@.take(k as int));
                assert(self.enacted@.take(k + 1).last() == self.enacted@[k as int]);
            }
            let hit = match d.to {
                Recipient::All => true,
                Recipient::One(a) => a == self.id,
            };
            if hit {
                let p = d.elem.payload();
                let np = p.len();
                let mut t: usize = 0;
                while t < np
                    invariant
                        np == p@.len(),
                        t <= np,
                        p@ == self.enacted@[k as int].elem.payload_spec(),
                        k < self.enacted@.len(),
                        out@ == self.agreed_messages() + self.stated_visible() + payloads_of(
                            visible_of(self.enacted@.take(k as int), self.id),
                        ) + p@.take(t as int),
                    decreases np - t,
                {
                    out.push(p.at(t));
                    proof {
                        assert(p@.take(t + 1) =~= p@.take(t as int).push(p@[t as int]));
                        assert((self.agreed_messages() + self.stated_visible() + payloads_of(
                            visible_of(self.enacted@.take(k as int), self.id),
                        ) + p@.take(t as int)).push(p@[t as int]) =~= self.agreed_messages()
                            + self.stated_visible() + payloads_of(
                            visible_of(self.enacted@.take(k as int), self.id),
                        ) + p@.take(t + 1));
                    }
                    t += 1;
                }
                proof {
                    assert(p@.take(np as int) =~= p@);
                    assert(visible_of(self.enacted@.take(k + 1), self.id) =~= visible_of(
                        self.enacted@.take(k as int),
                        self.id,
                    ).push(self.enacted@[k as int].elem));
                    assert(visible_of(self.enacted@.take(k as int), self.id).push(
                        self.enacted@[k as int].elem,
                    ).drop_last() =~= visible_of(self.enacted@.take(k as int), self.id));
                    assert(payloads_of(
                        visible_of(self.enacted@.take(k as int), self.id).push(
                            self.enacted@[k as int].elem,
                        ),
                    ) =~= payloads_of(visible_of(self.enacted@.take(k as int), self.id))
                        + self.enacted@[k as int].elem.payload_spec());
                    assert(out@ =~= self.agreed_messages() + self.stated_visible() + payloads_of(
                        visible_of(self.enacted@.take(k + 1), self.id),
                    ));
                }
            } else {
                proof {
                    assert(visible_of(self.enacted@.take(k + 1), self.id) =~= visible_of(
                        self.enacted@.take(k as int),
                        self.id,
                    ));
                }
            }
            k += 1;
        }
        proof {
            assert(self.enacted@.take(ne as int) =~= self.enacted@);
        }
        out
    }

    /// Resolves "what message has this identifier, as visible to me": the
    /// first match while scanning the agreed basis messages, then the
    /// stated messages, then the payloads of the enacted actions.  Absence
    /// is not an error, and the stores of this crate cannot fail, so the
    /// result is plainly the first match or nothing.
    pub fn get_statement(&self, id: u64) -> (r: Option<Message>)
        ensures
            r == first_with_key(self.all_statements(), id),
    {
        let all = self.statements();
        let n = all.len();
        let mut i: usize = 0;
        while i < n
            invariant
                n == all@.len(),
                all@ == self.all_statements(),
                i <= n,
                forall|k: int| 0 <= k < i ==> all@[k].id != id,
            decreases n - i,
        {
            let m = *vstd::std_specs::vec::vec_index(&all, i);
            if m.id == id {
                proof {
                    assert(forall|k: int| 0 <= k < i ==> all@[k].id_spec() != id);
                    lemma_first_with_key_skip(all@, id, i as int);
                    assert(all@.skip(i as int).first() == all@[i as int]);
                }
                return Some(m);
            }
            i += 1;
        }
        proof {
            assert(forall|k: int| 0 <= k < n ==> all@[k].id_spec() != id);
            lemma_first_with_key_skip(all@, id, n as int);
            assert(all@.skip(n as int) =~= Seq::<Message>::empty());
        }
        None
    }
}

/// Allows an agent to decide what happens to it after it has been polled.
#[derive(Clone, Copy, Debug, PartialEq, Eq, Structural)]
pub enum AgentPoll {
    /// The agent lives on, nothing happens.
    Alive,
    /// The agent is done and can be dropped.
    Dead,
}

impl Default for AgentPoll {
    fn default() -> (r: Self)
        ensures
            r == AgentPoll::Alive,
    {
        AgentPoll::Alive
    }
}

/// Allows a synchronizer to decide whether the runtime goes on.
#[derive(Clone, Copy, Debug, PartialEq, Eq, Structural)]
pub enum SynchronizerPoll {
    /// Keep driving the agents.
    Continue,
    /// Stop the runtime.
    Break,
}

/// How a runtime interfaces with agents.
///
/// Agents are the main actors of the framework: they use the information
/// in all the stores to publish new content in the asynchronous stores they
/// have access to.
pub trait Agent: Identifiable {
    /// The errors this agent can raise; any of them is fatal to it.
    type Error;

    /// Polls the agent: one opportunity to react to its viewpoint on the
    /// system by stating, enacting or gossiping.
    fn poll(&mut self, view: &mut Viewpoint) -> Result<AgentPoll, Self::Error>;
}

/// How a runtime interfaces with synchronizers: actors with the additional
/// power to update the synchronized agreement store.
pub trait Synchronizer: Identifiable {
    /// The errors this synchronizer can raise; any of them is fatal to it.
    type Error;

    /// Polls the synchronizer: one opportunity to mutate the synchronized
    /// stores based on the system's state.
    fn poll(&mut self, view: &mut Viewpoint) -> Result<SynchronizerPoll, Self::Error>;
}

/// Viewpoint precedence: when a message with the probed identifier stands
/// among the agreed basis messages, resolution returns the agreed version,
/// whatever the stated store or the enacted payloads hold.
pub proof fn lemma_agreed_precedence(v: &Viewpoint, id: u64)
    requires
        has_key(v.agreed_messages(), id),
    ensures
        first_with_key(v.all_statements(), id) == first_with_key(v.agreed_messages(), id),
{
    crate::collections::lemma_first_with_key_concat(
        v.agreed_messages() + v.stated_visible(),
        payloads_of(v.enacted_visible()),
        id,
    );
    crate::collections::lemma_first_with_key_concat(v.agreed_messages(), v.stated_visible(), id);
    crate::collections::lemma_has_key_concat_left(v.agreed_messages(), v.stated_visible(), id);
}

} // verus!
