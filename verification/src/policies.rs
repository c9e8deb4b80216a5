//! The policy-extraction boundary.
//!
//! A policy language is an external collaborator: it turns the payloads of
//! a justification into a [`Policy`] value with a validity verdict and a
//! [`Denotation`] of truths and effects.  The audit consumes it through the
//! fixed [`Extractor`] contract, whose specification functions make the
//! verdict a function of the justification's contents alone.
//!
//! The module also ships one small language of its own, [`FactPolicy`]: a
//! payload is read as a fact identifier, and a policy is valid as long as
//! it does not state the absurd fact.  It serves as the reference
//! implementation of the boundary.

use vstd::prelude::*;

use crate::auxillary::{Affectored, Identifiable};
use crate::messages::{Message, MessageSet};

verus! {

/// A three-valued truth under the closed-world assumption: absence of a
/// fact means false, unless the language declares it unknowable (for
/// instance on a contradiction).
#[derive(Clone, Copy, Debug, PartialEq, Eq, Structural)]
pub enum Truth {
    /// The fact is known to hold.
    True,
    /// The fact is known not to hold (or is simply absent).
    False,
    /// The truth of the fact cannot be known.
    Unknowable,
}

/// A single effect in a denotation: a fact, together with the agent it
/// applies to.  Policy languages implement it for their effect values.
pub trait Effect: Affectored + Identifiable {
    /// The fact that encodes the effect, as a specification-level value.
    spec fn fact_spec(&self) -> u64;

    /// Returns the fact that encodes the effect.
    fn fact(&self) -> (r: u64)
        ensures
            r == self.fact_spec(),
    ;
}

/// The interpretation of a snippet of policy: a truth per fact identifier,
/// and optionally an effecting agent and value per effect identifier.
pub trait Denotation {
    /// The truth valuation, as a specification-level function.
    spec fn truth_spec(&self, fact: u64) -> Truth;

    /// The effect valuation, as a specification-level function: the
    /// effecting agent and the effected value, if any.
    spec fn effect_spec(&self, fact: u64) -> Option<(u64, u64)>;

    /// Returns the truth of a fact under the closed-world assumption.
    fn truth_of(&self, fact: u64) -> (r: Truth)
        ensures
            r == self.truth_spec(fact),
    ;

    /// Returns the effect recorded for a fact, if any.
    fn effect_of(&self, fact: u64) -> (r: Option<(u64, u64)>)
        ensures
            r == self.effect_spec(fact),
    ;
}

/// Policy as it looks once extracted from a set of messages.
pub trait Policy: Sized {
    /// The denotation that this policy language produces.
    type Denotation: Denotation;

    /// What the policy reports when it is not valid.
    type Explanation;

    /// Whether the policy is valid, as a specification-level value.
    spec fn valid_spec(&self) -> bool;

    /// The explanation reported for an invalid policy, as a
    /// specification-level value.
    spec fn explain_spec(&self) -> Self::Explanation;

    /// Computes the validity of the policy.
    fn is_valid(&self) -> (r: bool)
        ensures
            r == self.valid_spec(),
    ;

    /// Explains why the policy is not valid.
    fn explain(&self) -> (r: Self::Explanation)
        ensures
            r == self.explain_spec(),
    ;

    /// Computes the denotation of the policy: the set of truths it
    /// establishes.
    fn truths(&self) -> Self::Denotation;

    /// Composes a grander policy from this one and another snippet.
    fn compose(&self, other: &Self) -> Self;

    /// Extends this policy by composing another snippet into it.
    fn compose_mut(&mut self, other: Self);
}

/// The capability to extract policy from a set of messages.
///
/// The four specification-level functions pin the outcome of extraction
/// down as a function of the set's contents alone; that is what makes an
/// audit built on top of them deterministic.
pub trait Extractor {
    /// The policy extracted.
    type Policy: Policy;

    /// The error reported when the payloads do not parse as policy.
    type Error;

    /// Whether extraction succeeds on the given contents.
    spec fn extracts_ok(&self, msgs: Seq<Message>) -> bool;

    /// The error reported when extraction fails on the given contents.
    spec fn error_spec(&self, msgs: Seq<Message>) -> Self::Error;

    /// Whether the policy extracted from the given contents is valid.
    spec fn policy_valid_spec(&self, msgs: Seq<Message>) -> bool;

    /// The explanation the extracted policy gives when it is not valid.
    spec fn explanation_spec(&self, msgs: Seq<Message>) -> <Self::Policy as Policy>::Explanation;

    /// Extracts the policy carried by the given message set.
    ///
    /// Fails if and only if the payloads are not a syntactically correct
    /// policy; a semantically broken policy is instead returned as a value
    /// whose validity check fails.
    fn extract(&self, msgs: &MessageSet) -> (r: Result<Self::Policy, Self::Error>)
        ensures
            r is Ok <==> self.extracts_ok(msgs@),
            r matches Err(e) ==> e == self.error_spec(msgs@),
            r matches Ok(p) ==> p.valid_spec() == self.policy_valid_spec(msgs@) && p.explain_spec()
                == self.explanation_spec(msgs@),
    ;
}

/// The payload handle that the fact language refuses to parse.
pub const ILL_FORMED: u64 = 0;

/// The fact whose statement makes a fact policy invalid.
pub const ABSURD: u64 = 1;

/// A policy of the fact language: the plain list of facts its messages
/// state.  It is valid as long as the absurd fact is not among them.
#[derive(Clone, Debug)]
pub struct FactPolicy {
    /// The facts, one per message payload, in extraction order.
    facts: Vec<u64>,
}

impl View for FactPolicy {
    type V = Seq<u64>;

    closed spec fn view(&self) -> Seq<u64> {
        self.facts@
    }
}

/// The denotation of a fact policy.
#[derive(Clone, Debug)]
pub struct FactDenotation {
    /// The facts that are stated.
    pub facts: Vec<u64>,
    /// Whether the policy the facts came from was valid; in an invalid
    /// policy every truth is unknowable.
    pub valid: bool,
}

impl View for FactDenotation {
    type V = Seq<u64>;

    open spec fn view(&self) -> Seq<u64> {
        self.facts@
    }
}

impl FactDenotation {
    /// Whether the denotation came from a valid policy.
    pub open spec fn valid_spec(&self) -> bool {
        self.valid
    }
}

impl Denotation for FactDenotation {
    open spec fn truth_spec(&self, fact: u64) -> Truth {
        if !self.valid_spec() {
            Truth::Unknowable
        } else if self@.contains(fact) {
            Truth::True
        } else {
            Truth::False
        }
    }

    open spec fn effect_spec(&self, fact: u64) -> Option<(u64, u64)> {
        None
    }

    fn truth_of(&self, fact: u64) -> (r: Truth) {
        if !self.valid {
            return Truth::Unknowable;
        }
        let n = self.facts.len();
        let mut i: usize = 0;
        while i < n
            invariant
                self.valid,
                n == self@.len(),
                i <= n,
                forall|k: int| 0 <= k < i ==> self@[k] != fact,
            decreases n - i,
        {
            if *vstd::std_specs::vec::vec_index(&self.facts, i) == fact {
                proof {
                    assert(self@[i as int] == fact);
                    assert(self@.contains(fact));
                }
                return Truth::True;
            }
            i += 1;
        }
        Truth::False
    }

    fn effect_of(&self, fact: u64) -> (r: Option<(u64, u64)>) {
        None
    }
}

impl FactPolicy {
    /// The facts this policy states.
    pub fn facts(&self) -> (r: &Vec<u64>)
        ensures
            r@ == self@,
    {
        &self.facts
    }
}

impl Policy for FactPolicy {
    type Denotation = FactDenotation;

    type Explanation = u64;

    open spec fn valid_spec(&self) -> bool {
        !self@.contains(ABSURD)
    }

    open spec fn explain_spec(&self) -> u64 {
        ABSURD
    }

    fn is_valid(&self) -> (r: bool) {
        let n = self.facts.len();
        let mut i: usize = 0;
        while i < n
            invariant
                n == self@.len(),
                i <= n,
                forall|k: int| 0 <= k < i ==> self@[k] != ABSURD,
            decreases n - i,
        {
            if *vstd::std_specs::vec::vec_index(&self.facts, i) == ABSURD {
                return false;
            }
            i += 1;
        }
        true
    }

    fn explain(&self) -> (r: u64) {
        ABSURD
    }

    fn truths(&self) -> (r: FactDenotation)
        ensures
            r@ == self@,
            r.valid_spec() == self.valid_spec(),
    {
        let valid = self.is_valid();
        let n = self.facts.len();
        let mut facts: Vec<u64> = Vec::with_capacity(n);
        let mut i: usize = 0;
        while i < n
            invariant
                n == self@.len(),
                i <= n,
                facts@ == self@.take(i as int),
            decreases n - i,
        {
            facts.push(*vstd::std_specs::vec::vec_index(&self.facts, i));
            proof {
                assert(self@.take(i + 1) =~= self@.take(i as int).push(self@[i as int]));
            }
            i += 1;
        }
        proof {
            assert(self@.take(n as int) =~= self@);
        }
        FactDenotation { facts, valid }
    }

    fn compose(&self, other: &Self) -> (r: Self)
        ensures
            r@ == self@ + other@,
    {
        let mut facts: Vec<u64> = Vec::new();
        append_all(&mut facts, &self.facts);
        append_all(&mut facts, &other.facts);
        FactPolicy { facts }
    }

    fn compose_mut(&mut self, other: Self)
        ensures
            final(self)@ == old(self)@ + other@,
    {
        append_all(&mut self.facts, &other.facts);
    }
}

/// Appends every element of `src` to `dst`, in order.
fn append_all(dst: &mut Vec<u64>, src: &Vec<u64>)
    ensures
        final(dst)@ == old(dst)@ + src@,
{
    let n = src.len();
    let mut i: usize = 0;
    proof {
        assert(old(dst)@ + src@.take(0) =~= old(dst)@);
    }
    while i < n
        invariant
            n == src@.len(),
            i <= n,
            dst@ == old(dst)@ + src@.take(i as int),
        decreases n - i,
    {
        dst.push(*vstd::std_specs::vec::vec_index(src, i));
        proof {
            assert(old(dst)@ + src@.take(i + 1) =~= (old(dst)@ + src@.take(i as int)).push(
                src@[i as int],
            ));
        }
        i += 1;
    }
    proof {
        assert(old(dst)@ + src@.take(n as int) =~= old(dst)@ + src@);
    }
}

/// The facts stated by a sequence of messages: one payload each, in order.
pub open spec fn facts_of(msgs: Seq<Message>) -> Seq<u64> {
    msgs.map_values(|m: Message| m.payload)
}

/// Whether some message of the sequence carries an ill-formed payload.
pub open spec fn any_ill_formed(msgs: Seq<Message>) -> bool {
    exists|i: int| 0 <= i < msgs.len() && msgs[i].payload == ILL_FORMED
}

/// The extractor of the fact language.
///
/// It reads every payload as one fact; a payload equal to [`ILL_FORMED`]
/// does not parse, and the identifier of the first message carrying one is
/// reported as the syntax error.
#[derive(Clone, Copy, Debug, PartialEq, Eq, Structural)]
pub struct FactExtractor;

/// The identifier of the first message whose payload is ill-formed.
pub open spec fn first_ill_formed(msgs: Seq<Message>) -> Option<u64>
    decreases msgs.len(),
{
    if msgs.len() == 0 {
        None
    } else if msgs.first().payload == ILL_FORMED {
        Some(msgs.first().id)
    } else {
        first_ill_formed(msgs.drop_first())
    }
}

impl Extractor for FactExtractor {
    type Policy = FactPolicy;

    type Error = u64;

    open spec fn extracts_ok(&self, msgs: Seq<Message>) -> bool {
        !any_ill_formed(msgs)
    }

    open spec fn error_spec(&self, msgs: Seq<Message>) -> u64 {
        first_ill_formed(msgs).unwrap()
    }

    open spec fn policy_valid_spec(&self, msgs: Seq<Message>) -> bool {
        !facts_of(msgs).contains(ABSURD)
    }

    open spec fn explanation_spec(&self, msgs: Seq<Message>) -> u64 {
        ABSURD
    }

    fn extract(&self, msgs: &MessageSet) -> (r: Result<FactPolicy, u64>) {
        let n = msgs.len();
        let mut facts: Vec<u64> = Vec::with_capacity(n);
        let mut i: usize = 0;
        while i < n
            invariant
                n == msgs@.len(),
                i <= n,
                facts@ == facts_of(msgs@.take(i as int)),
                forall|k: int| 0 <= k < i ==> msgs@[k].payload != ILL_FORMED,
            decreases n - i,
        {
            let m = msgs.at(i);
            if m.payload == ILL_FORMED {
                proof {
                    lemma_first_ill_formed_skip(msgs@, i as int);
                    assert(msgs@.skip(i as int).first() == msgs@[i as int]);
                }
                return Err(m.id);
            }
            facts.push(m.payload);
            proof {
                assert(facts_of(msgs@.take(i + 1)) =~= facts_of(msgs@.take(i as int)).push(
                    msgs@[i as int].payload,
                ));
            }
            i += 1;
        }
        proof {
            assert(msgs@.take(n as int) =~= msgs@);
        }
        Ok(FactPolicy { facts })
    }
}

/// The first ill-formed payload is found beyond any prefix of well-formed
/// ones.
proof fn lemma_first_ill_formed_skip(msgs: Seq<Message>, i: int)
    requires
        0 <= i <= msgs.len(),
        forall|k: int| 0 <= k < i ==> msgs[k].payload != ILL_FORMED,
    ensures
        first_ill_formed(msgs) == first_ill_formed(msgs.skip(i)),
    decreases i,
{
    if i > 0 {
        assert(msgs[0].payload != ILL_FORMED);
        assert(msgs.drop_first().skip(i - 1) =~= msgs.skip(i));
        lemma_first_ill_formed_skip(msgs.drop_first(), i - 1);
    } else {
        assert(msgs.skip(0) =~= msgs);
    }
}

} // verus!
