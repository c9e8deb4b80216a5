//! The composite viewpoint: resolution precedence, enumeration order, and
//! the access-control gates on its mutating operations.

use justact::actions::Action;
use justact::actors::{Error, Viewpoint};
use justact::agreements::Agreement;
use justact::collections::{InfallibleSetAsync, Recipient};
use justact::messages::{Message, MessageSet};

fn msg(id: u64, author_id: u64, payload: u64) -> Message {
    Message { id, author_id, payload }
}

#[test]
fn agreed_version_wins_over_stated() {
    let mut v = Viewpoint::new(7);
    let agreed_m = msg(1, 2, 10);
    v.agree(vec![Agreement { message: agreed_m, at: 5 }]).unwrap();
    let stated_m = msg(1, 7, 99);
    v.state(stated_m).unwrap();
    let got = v.get_statement(1).unwrap();
    assert_eq!(got, agreed_m);
    assert_eq!(got.payload, 10);
}

#[test]
fn get_statement_falls_back_and_reports_absence() {
    let mut v = Viewpoint::new(7);
    v.agree(vec![Agreement { message: msg(1, 2, 10), at: 5 }]).unwrap();
    let stated_m = msg(2, 7, 20);
    v.state(stated_m).unwrap();
    assert_eq!(v.get_statement(2), Some(stated_m));
    assert_eq!(v.get_statement(3), None);
}

#[test]
fn get_statement_reaches_enacted_payloads() {
    let mut v = Viewpoint::new(7);
    let basis_m = msg(1, 2, 10);
    let extra_m = msg(2, 7, 20);
    let act = Action::new(
        7,
        Agreement { message: basis_m, at: 5 },
        MessageSet::from_vec(vec![extra_m]),
        extra_m,
        5,
    );
    v.enact(act).unwrap();
    assert_eq!(v.get_statement(1), Some(basis_m));
    assert_eq!(v.get_statement(2), Some(extra_m));
}

#[test]
fn statements_enumerates_in_fixed_order() {
    let mut v = Viewpoint::new(7);
    let agreed_m = msg(1, 2, 10);
    let stated_m = msg(2, 7, 20);
    let extra_m = msg(3, 7, 30);
    v.agree(vec![Agreement { message: agreed_m, at: 5 }]).unwrap();
    v.state(stated_m).unwrap();
    let act = Action::new(
        7,
        Agreement { message: agreed_m, at: 5 },
        MessageSet::from_vec(vec![extra_m]),
        extra_m,
        5,
    );
    v.enact(act).unwrap();
    // Agreement messages, stated messages, then the payload of each
    // enacted action (basis first, then extra); duplicates are kept.
    let all = v.statements();
    assert_eq!(all, vec![agreed_m, stated_m, agreed_m, extra_m]);
}

#[test]
fn state_rejects_foreign_messages() {
    let mut v = Viewpoint::new(7);
    let foreign = msg(1, 8, 10);
    assert_eq!(
        v.state(foreign),
        Err(Error::IllegalState { agent: 7, author: 8 })
    );
    assert_eq!(v.statements(), vec![]);
    let own = msg(2, 7, 20);
    assert_eq!(v.state(own), Ok(()));
    assert_eq!(v.statements(), vec![own]);
}

#[test]
fn enact_rejects_foreign_actions() {
    let mut v = Viewpoint::new(7);
    let m = msg(1, 8, 10);
    let act = Action::new(
        8,
        Agreement { message: m, at: 5 },
        MessageSet::new(),
        m,
        5,
    );
    assert_eq!(
        v.enact(act),
        Err(Error::IllegalEnact { agent: 7, author: 8 })
    );
    assert_eq!(v.statements(), vec![]);
}

#[test]
fn gossip_gate_refuses_unknown_messages() {
    let mut v = Viewpoint::new(7);
    let m = msg(4, 7, 3);
    assert_eq!(
        v.gossip(Recipient::One(9), m),
        Err(Error::IllegalGossip { agent: 7 })
    );
    assert!(v.stated.visible(9).is_empty());
}

#[test]
fn gossip_propagates_known_messages() {
    let mut v = Viewpoint::new(7);
    let m = msg(4, 7, 3);
    v.state(m).unwrap();
    assert_eq!(v.gossip(Recipient::One(9), m), Ok(()));
    assert_eq!(v.stated.visible(9), vec![m]);
    // The forwarding delivery was addressed to agent 9 alone; the sender's
    // own view still holds its original statement only.
    assert_eq!(v.stated.visible(7), vec![m]);
    // A message learned by gossip from someone else can be forwarded too.
    let mut w = Viewpoint::new(9);
    let other = msg(5, 7, 4);
    w.stated.add(Recipient::One(9), other);
    assert_eq!(w.gossip(Recipient::All, other), Ok(()));
    assert_eq!(w.stated.visible(3), vec![other]);
}

#[test]
fn gossip_to_all_reaches_everyone() {
    let mut v = Viewpoint::new(7);
    let m = msg(4, 7, 3);
    v.state(m).unwrap();
    v.gossip(Recipient::All, m).unwrap();
    assert_eq!(v.stated.visible(1), vec![m]);
    assert_eq!(v.stated.visible(2), vec![m]);
}

#[test]
fn agree_replaces_wholesale() {
    let mut v = Viewpoint::new(7);
    let a1 = Agreement { message: msg(1, 2, 10), at: 5 };
    let a2 = Agreement { message: msg(2, 2, 20), at: 5 };
    v.agree(vec![a1]).unwrap();
    assert_eq!(v.get_statement(1), Some(msg(1, 2, 10)));
    v.agree(vec![a2]).unwrap();
    assert_eq!(v.get_statement(1), None);
    assert_eq!(v.get_statement(2), Some(msg(2, 2, 20)));
}

#[test]
fn agree_collapses_by_message_identifier() {
    let mut v = Viewpoint::new(7);
    let early = Agreement { message: msg(1, 2, 10), at: 4 };
    let late = Agreement { message: msg(1, 2, 11), at: 5 };
    v.agree(vec![early, late]).unwrap();
    // The later entry replaced the earlier one under the same identifier.
    assert_eq!(v.statements(), vec![msg(1, 2, 11)]);
}

#[test]
fn stated_messages_stay_private_to_their_recipients() {
    let mut v = Viewpoint::new(7);
    let m = msg(4, 7, 3);
    v.state(m).unwrap();
    // Stating delivers to the agent itself only.
    assert_eq!(v.stated.visible(7), vec![m]);
    assert!(v.stated.visible(8).is_empty());
}
