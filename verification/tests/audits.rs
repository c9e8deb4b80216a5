//! The audit algorithm: the four well-behavedness checks, their fixed
//! order, and the determinism of the verdict.

use justact::actions::{Action, AuditExplanation};
use justact::actors::Viewpoint;
use justact::agreements::Agreement;
use justact::messages::{Message, MessageSet};
use justact::auxillary::{Actored, Authored, Identifiable};
use justact::policies::FactExtractor;

fn msg(id: u64, author_id: u64, payload: u64) -> Message {
    Message { id, author_id, payload }
}

/// The viewpoint and action of the baseline scenario: actor 42 acts on the
/// agreed basis M1 at time 5, justifying with its own statement M2.
fn baseline() -> (Viewpoint, Action) {
    let m1 = msg(1, 9, 70);
    let m2 = msg(2, 42, 80);
    let basis = Agreement { message: m1, at: 5 };
    let mut view = Viewpoint::new(42);
    view.agree(vec![basis]).unwrap();
    view.state(m2).unwrap();
    let action = Action::new(42, basis, MessageSet::from_vec(vec![m2]), m2, 5);
    (view, action)
}

#[test]
fn audit_certifies_a_well_behaved_action() {
    let (view, action) = baseline();
    assert_eq!(action.audit(&view, &FactExtractor), Ok(()));
}

#[test]
fn audit_rejects_a_mistimed_action_as_timely() {
    let (view, mut action) = baseline();
    action.timestamp = 6;
    assert_eq!(
        action.audit(&view, &FactExtractor),
        Err(AuditExplanation::Timely { stmt: 1, applies_at: 5, taken_at: 6 })
    );
}

#[test]
fn audit_rejects_an_unstated_justification_as_stated() {
    let (view, action) = baseline();
    let m3 = msg(3, 42, 90);
    let action = Action::new(
        action.actor_id,
        action.basis,
        MessageSet::from_vec(vec![msg(2, 42, 80), m3]),
        msg(2, 42, 80),
        5,
    );
    assert_eq!(
        action.audit(&view, &FactExtractor),
        Err(AuditExplanation::Stated { stmt: 3 })
    );
}

#[test]
fn audit_reports_stated_before_timely() {
    // Both violated: the justification holds an unstated message and the
    // timestamp mismatches the basis.  The first check in order wins.
    let (view, action) = baseline();
    let m3 = msg(3, 42, 90);
    let action = Action::new(
        action.actor_id,
        action.basis,
        MessageSet::from_vec(vec![msg(2, 42, 80), m3]),
        msg(2, 42, 80),
        6,
    );
    assert_eq!(
        action.audit(&view, &FactExtractor),
        Err(AuditExplanation::Stated { stmt: 3 })
    );
}

#[test]
fn audit_is_deterministic() {
    let (view, action) = baseline();
    let first = action.audit(&view, &FactExtractor);
    let second = action.audit(&view, &FactExtractor);
    assert_eq!(first, second);
    let (view2, mut bad) = baseline();
    bad.timestamp = 6;
    assert_eq!(
        bad.audit(&view2, &FactExtractor),
        bad.audit(&view2, &FactExtractor)
    );
}

#[test]
fn audit_reports_an_unparseable_justification_as_extract() {
    // Payload 0 does not parse in the fact language; the offending
    // message's identifier is the syntax error.
    let m1 = msg(1, 9, 70);
    let m4 = msg(4, 42, 0);
    let basis = Agreement { message: m1, at: 5 };
    let mut view = Viewpoint::new(42);
    view.agree(vec![basis]).unwrap();
    view.state(m4).unwrap();
    let action = Action::new(42, basis, MessageSet::from_vec(vec![m4]), m4, 5);
    assert_eq!(
        action.audit(&view, &FactExtractor),
        Err(AuditExplanation::Extract { err: 4 })
    );
}

#[test]
fn audit_reports_an_invalid_policy_as_valid() {
    // Payload 1 is the absurd fact: the policy parses but is not valid.
    let m1 = msg(1, 9, 70);
    let m5 = msg(5, 42, 1);
    let basis = Agreement { message: m1, at: 5 };
    let mut view = Viewpoint::new(42);
    view.agree(vec![basis]).unwrap();
    view.state(m5).unwrap();
    let action = Action::new(42, basis, MessageSet::from_vec(vec![m5]), m5, 5);
    assert_eq!(
        action.audit(&view, &FactExtractor),
        Err(AuditExplanation::Valid { expl: 1 })
    );
}

#[test]
fn audit_demands_the_basis_itself_be_agreed() {
    // The basis message is agreed, but under another applicability time:
    // the basis itself is not a member of the agreed store.
    let m1 = msg(1, 9, 70);
    let m2 = msg(2, 42, 80);
    let mut view = Viewpoint::new(42);
    view.agree(vec![Agreement { message: m1, at: 4 }]).unwrap();
    view.state(m2).unwrap();
    let action = Action::new(
        42,
        Agreement { message: m1, at: 5 },
        MessageSet::from_vec(vec![m2]),
        m2,
        5,
    );
    assert_eq!(
        action.audit(&view, &FactExtractor),
        Err(AuditExplanation::Based { stmt: 1 })
    );
}

#[test]
fn payload_holds_basis_extra_and_enactment() {
    let (_, action) = baseline();
    let p = action.payload();
    assert_eq!(p.len(), 2);
    assert!(p.contains(&msg(1, 9, 70)));
    assert!(p.contains(&msg(2, 42, 80)));
    // The enacted statement equals the extra message here, so it is kept
    // once: the justification is a set.
    assert_eq!(p.at(0), msg(1, 9, 70));
    assert_eq!(p.at(1), msg(2, 42, 80));
}

#[test]
fn action_accessors() {
    let (_, action) = baseline();
    assert_eq!(Actored::actor_id(&action), 42);
    assert_eq!(Identifiable::id(&action), 2);
    assert_eq!(Authored::author_id(&action), 42);
    assert_eq!(action.basis().at, 5);
    assert_eq!(action.enacts(), &msg(2, 42, 80));
    assert_eq!(action.extra().len(), 1);
}
