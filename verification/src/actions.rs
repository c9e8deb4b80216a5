//! Actions: statements enacted by an actor on the strength of a
//! justification.
//!
//! The justification of an action is always its basis agreement together
//! with the extra messages the actor includes and the enacted statement
//! itself — never the extra messages alone.  The [`Action::payload`] set is
//! derived from those parts, so the basis and the enactment are members of
//! every justification by construction.

use vstd::prelude::*;

use crate::actors::Viewpoint;
use crate::agreements::Agreement;
use crate::auxillary::{Actored, Authored, Identifiable};
use crate::collections::{has_key, InfallibleMap};
use crate::messages::{
    insert_all, lemma_insert_all_contains, lemma_insert_all_no_duplicates,
    lemma_set_insert_contains, set_insert, Message, MessageSet,
};
use crate::policies::{Extractor, Policy};

verus! {

/// Explains why an audit of an [`Action`] failed.
///
/// A rejected action surfaces the *first* violated property, with enough
/// context — the offending identifier, or the timestamps compared — to
/// explain the rejection without re-running the audit.
#[derive(Clone, Copy, Debug, PartialEq, Eq, Structural)]
pub enum AuditExplanation<S, V> {
    /// A message of the action's justification was neither agreed nor
    /// stated.
    Stated { stmt: u64 },
    /// The policy could not be extracted from the justification.
    Extract { err: S },
    /// The extracted policy was not valid.
    Valid { expl: V },
    /// The basis of the action was not a member of the agreed store.
    Based { stmt: u64 },
    /// The basis is agreed, but not for the time at which the action was
    /// taken.
    Timely { stmt: u64, applies_at: u64, taken_at: u64 },
}

/// An action taken by an agent: an enacted statement, justified by a basis
/// agreement and any additional messages the actor includes.  Immutable
/// once enacted and never retracted.
#[derive(Clone, Debug)]
pub struct Action {
    /// The identifier of the actor taking the action.
    pub actor_id: u64,
    /// The agreement that forms the basis of the action.
    pub basis: Agreement,
    /// The additional messages of the justification, beyond the basis and
    /// the enacted statement.
    pub extra: MessageSet,
    /// The statement that the action enacts.
    pub enacts: Message,
    /// The timestamp at which the action was taken.
    pub timestamp: u64,
}

impl Actored for Action {
    open spec fn actor_id_spec(&self) -> u64 {
        self.actor_id
    }

    fn actor_id(&self) -> (r: u64) {
        self.actor_id
    }
}

impl Authored for Action {
    open spec fn author_id_spec(&self) -> u64 {
        self.enacts.author_id
    }

    fn author_id(&self) -> (r: u64) {
        self.enacts.author_id
    }
}

impl Identifiable for Action {
    open spec fn id_spec(&self) -> u64 {
        self.enacts.id
    }

    fn id(&self) -> (r: u64) {
        self.enacts.id
    }
}

impl Action {
    /// The contents of the full payload: basis, then the extra messages,
    /// then the enacted statement, duplicates collapsed.
    pub open spec fn payload_spec(&self) -> Seq<Message> {
        set_insert(insert_all(seq![self.basis.message], self.extra@), self.enacts)
    }

    /// Constructor for a new action with the given actor, basis and
    /// justification.
    pub fn new(
        actor_id: u64,
        basis: Agreement,
        extra: MessageSet,
        enacts: Message,
        timestamp: u64,
    ) -> (r: Self)
        ensures
            r.actor_id == actor_id,
            r.basis == basis,
            r.extra == extra,
            r.enacts == enacts,
            r.timestamp == timestamp,
    {
        Action { actor_id, basis, extra, enacts, timestamp }
    }

    /// Returns the agreement that the action is based on: the one claimed
    /// valid at the time the action was taken.
    pub fn basis(&self) -> (r: &Agreement)
        ensures
            *r == self.basis,
    {
        &self.basis
    }

    /// Returns the extra messages of the justification.
    pub fn extra(&self) -> (r: &MessageSet)
        ensures
            *r == self.extra,
    {
        &self.extra
    }

    /// Returns the statement that the action enacts.
    pub fn enacts(&self) -> (r: &Message)
        ensures
            *r == self.enacts,
    {
        &self.enacts
    }

    /// Builds the full payload of this action: basis ∪ extra ∪ {enacted
    /// statement}.
    pub fn payload(&self) -> (r: MessageSet)
        ensures
            r@ == self.payload_spec(),
    {
        let mut p = MessageSet::new();
        p.add(self.basis.message);
        proof {
            assert(p@ =~= seq![self.basis.message]);
        }
        let n = self.extra.len();
        let mut i: usize = 0;
        while i < n
            invariant
                n == self.extra@.len(),
                i <= n,
                p@ == insert_all(seq![self.basis.message], self.extra@.take(i as int)),
            decreases n - i,
        {
            proof {
                assert(self.extra@.take(i + 1).drop_last() =~= self.extra@.take(i as int));
                assert(self.extra@.take(i + 1).last() == self.extra@[i as int]);
            }
            p.add(self.extra.at(i));
            i += 1;
        }
        proof {
            assert(self.extra@.take(n as int) =~= self.extra@);
        }
        p.add(self.enacts);
        p
    }
}

/// Completeness by construction: the basis, the extra messages and the
/// enacted statement — and nothing else — make up every action's payload,
/// each of them once.
pub proof fn lemma_payload_complete(a: &Action)
    ensures
        a.payload_spec().contains(a.basis.message),
        a.payload_spec().contains(a.enacts),
        forall|m: Message| #[trigger] a.payload_spec().contains(m) <==> m == a.basis.message
            || a.extra@.contains(m) || m == a.enacts,
        a.payload_spec().no_duplicates(),
{
    let base = seq![a.basis.message];
    lemma_insert_all_contains(base, a.extra@);
    lemma_set_insert_contains(insert_all(base, a.extra@), a.enacts);
    assert(base[0] == a.basis.message);
    assert(base.contains(a.basis.message));
    assert forall|m: Message| base.contains(m) implies m == a.basis.message by {
        let j = choose|j: int| 0 <= j < base.len() && base[j] == m;
    }
    assert(base.no_duplicates());
    lemma_insert_all_no_duplicates(base, a.extra@);
}

/// Whether a message with the given identifier is found in the agreed
/// store or among the stated messages visible to the viewpoint's agent.
pub open spec fn is_stated(v: &Viewpoint, id: u64) -> bool {
    has_key(v.agreed@, id) || has_key(v.stated_visible(), id)
}

/// The identifier of the first justification message that is neither
/// agreed nor stated, if any.
pub open spec fn first_unstated(v: &Viewpoint, just: Seq<Message>) -> Option<u64>
    decreases just.len(),
{
    if just.len() == 0 {
        None
    } else if !is_stated(v, just.first().id) {
        Some(just.first().id)
    } else {
        first_unstated(v, just.drop_first())
    }
}

/// The first unstated message is found beyond any prefix of stated ones.
proof fn lemma_first_unstated_skip(v: &Viewpoint, just: Seq<Message>, i: int)
    requires
        0 <= i <= just.len(),
        forall|k: int| 0 <= k < i ==> is_stated(v, just[k].id),
    ensures
        first_unstated(v, just) == first_unstated(v, just.skip(i)),
    decreases i,
{
    if i > 0 {
        assert(is_stated(v, just[0].id));
        assert(just.drop_first().skip(i - 1) =~= just.skip(i));
        lemma_first_unstated_skip(v, just.drop_first(), i - 1);
    } else {
        assert(just.skip(0) =~= just);
    }
}

impl Action {
    /// The verdict of auditing this action against the given viewpoint
    /// with the given extractor: a pure function of the two and of the
    /// extractor's specification, so repeated audits agree.
    pub open spec fn audit_spec<X: Extractor>(&self, v: &Viewpoint, x: &X) -> Result<
        (),
        AuditExplanation<X::Error, <X::Policy as Policy>::Explanation>,
    > {
        let just = self.payload_spec();
        if first_unstated(v, just) is Some {
            Err(AuditExplanation::Stated { stmt: first_unstated(v, just).unwrap() })
        } else if !x.extracts_ok(just) {
            Err(AuditExplanation::Extract { err: x.error_spec(just) })
        } else if !x.policy_valid_spec(just) {
            Err(AuditExplanation::Valid { expl: x.explanation_spec(just) })
        } else if !v.agreed@.contains(self.basis) {
            Err(AuditExplanation::Based { stmt: self.basis.message.id })
        } else if self.basis.at != self.timestamp {
            Err(
                AuditExplanation::Timely {
                    stmt: self.basis.message.id,
                    applies_at: self.basis.at,
                    taken_at: self.timestamp,
                },
            )
        } else {
            Ok(())
        }
    }

    /// Audits this action: certifies that it is well-behaved with respect
    /// to the given viewpoint, or rejects it with exactly one explanation.
    ///
    /// The checks run in a fixed order and short-circuit, so the first
    /// violated property is the one reported:
    /// 1. every message of the justification is agreed or stated, else
    ///    `Stated`;
    /// 2. the basis and the enacted statement are members of the
    ///    justification — structural, by construction;
    /// 3. the justification extracts to a valid policy, else `Extract` or
    ///    `Valid`;
    /// 4. the basis itself is an agreed agreement whose applicability
    ///    timestamp equals the action's, else `Based` or `Timely`.
    ///
    /// The verdict equals [`Action::audit_spec`], a function of the
    /// viewpoint and the action: auditing is read-only and deterministic.
    pub fn audit<X: Extractor>(&self, view: &Viewpoint, extractor: &X) -> (r: Result<
        (),
        AuditExplanation<X::Error, <X::Policy as Policy>::Explanation>,
    >)
        ensures
            r == self.audit_spec(view, extractor),
    {
        let just = self.payload();
        let n = just.len();
        let mut i: usize = 0;
        while i < n
            invariant
                n == just@.len(),
                just@ == self.payload_spec(),
                i <= n,
                forall|k: int| 0 <= k < i ==> is_stated(view, just@[k].id),
            decreases n - i,
        {
            let m = just.at(i);
            let agreed = view.agreed.contains_key(m.id);
            let stated = view.stated.contains_id(view.id, m.id);
            if !agreed && !stated {
                proof {
                    assert(!is_stated(view, just@[i as int].id));
                    lemma_first_unstated_skip(view, just@, i as int);
                    assert(just@.skip(i as int).first() == just@[i as int]);
                }
                return Err(AuditExplanation::Stated { stmt: m.id });
            }
            proof {
                assert(is_stated(view, just@[i as int].id));
            }
            i += 1;
        }
        proof {
            lemma_first_unstated_skip(view, just@, n as int);
            assert(just@.skip(n as int) =~= Seq::<Message>::empty());
        }
        let policy = match extractor.extract(&just) {
            Ok(policy) => policy,
            Err(err) => {
                return Err(AuditExplanation::Extract { err });
            },
        };
        if !policy.is_valid() {
            return Err(AuditExplanation::Valid { expl: policy.explain() });
        }
        if !view.agreed.contains(&self.basis) {
            return Err(AuditExplanation::Based { stmt: self.basis.message.id });
        }
        if self.basis.at != self.timestamp {
            return Err(
                AuditExplanation::Timely {
                    stmt: self.basis.message.id,
                    applies_at: self.basis.at,
                    taken_at: self.timestamp,
                },
            );
        }
        Ok(())
    }
}

/// Audit determinism: the verdict is a function of the viewpoint, the
/// action and the extractor's specification alone — nothing is mutated,
/// and nothing else is consulted — so any two audits of the same action
/// against the same viewpoint return the same verdict.
pub proof fn lemma_audit_deterministic<X: Extractor>(
    a: &Action,
    v: &Viewpoint,
    x: &X,
    r1: Result<(), AuditExplanation<X::Error, <X::Policy as Policy>::Explanation>>,
    r2: Result<(), AuditExplanation<X::Error, <X::Policy as Policy>::Explanation>>,
)
    requires
        r1 == a.audit_spec(v, x),
        r2 == a.audit_spec(v, x),
    ensures
        r1 == r2,
{
}

/// Audit ordering: an action with an unstated justification message is
/// reported as `Stated` — never as `Timely` — even when its timestamp
/// also mismatches the basis.
pub proof fn lemma_audit_reports_stated_first<X: Extractor>(a: &Action, v: &Viewpoint, x: &X)
    requires
        first_unstated(v, a.payload_spec()) is Some,
    ensures
        a.audit_spec(v, x) == Err::<(), AuditExplanation<X::Error, <X::Policy as Policy>::Explanation>>(
            AuditExplanation::Stated { stmt: first_unstated(v, a.payload_spec()).unwrap() },
        ),
{
}

/// A constructor capability for action-like objects.
///
/// Whatever the representation, the constructor guarantees the
/// completeness property: the basis and the enacted statement are members
/// of the payload it builds, and nothing beyond the justification is.
pub trait ConstructableAction: Actored + Sized {
    /// The contents of the full payload, as a specification-level value.
    spec fn payload_seq(&self) -> Seq<Message>;

    /// Builds a new action with the given actor, basis and justification.
    fn new(
        actor_id: u64,
        basis: Agreement,
        extra: MessageSet,
        enacts: Message,
        timestamp: u64,
    ) -> (r: Self)
        ensures
            r.actor_id_spec() == actor_id,
            forall|m: Message| #[trigger] r.payload_seq().contains(m) <==> m == basis.message
                || extra@.contains(m) || m == enacts,
    ;
}

impl ConstructableAction for Action {
    open spec fn payload_seq(&self) -> Seq<Message> {
        self.payload_spec()
    }

    fn new(
        actor_id: u64,
        basis: Agreement,
        extra: MessageSet,
        enacts: Message,
        timestamp: u64,
    ) -> (r: Self) {
        let r = Action::new(actor_id, basis, extra, enacts, timestamp);
        proof {
            lemma_payload_complete(&r);
        }
        r
    }
}

} // verus!
