//! The store capabilities: keyed access to agreements, the constructor
//! capabilities, and the error descriptions.

use justact::actions::{Action, ConstructableAction};
use justact::actors::{AgentPoll, Error, OneOfSetError, Viewpoint};
use justact::agreements::{Agreement, Agreements};
use justact::collections::{
    InfallibleMap, InfallibleMapSync, InfallibleSet, InfallibleSetMut, InfallibleSetSync,
};
use justact::messages::{ConstructableMessage, Message, MessageSet};

fn msg(id: u64, author_id: u64, payload: u64) -> Message {
    Message { id, author_id, payload }
}

#[test]
fn agreements_replace_by_message_identifier() {
    let mut store = Agreements::new();
    let a1 = Agreement { message: msg(1, 9, 70), at: 4 };
    let a2 = Agreement { message: msg(1, 9, 71), at: 5 };
    let b = Agreement { message: msg(2, 9, 80), at: 5 };
    assert_eq!(store.add(a1), None);
    assert_eq!(store.add(b), None);
    assert_eq!(store.add(a2), Some(a1));
    assert_eq!(InfallibleMap::len(&store), 2);
    assert!(store.contains_key(1));
    assert!(!store.contains_key(3));
    assert_eq!(store.get(1), Some(a2));
    assert_eq!(store.get(3), None);
    assert!(store.contains(&a2));
    assert!(!store.contains(&a1));
    assert_eq!(store.at(0), a2);
    assert_eq!(store.at(1), b);
    store.clear();
    assert_eq!(InfallibleMap::len(&store), 0);
}

#[test]
fn message_set_offers_the_set_capabilities() {
    let a = msg(1, 10, 100);
    let b = msg(2, 11, 101);
    let mut s = MessageSet::new();
    assert!(InfallibleSetSync::add(&mut s, a));
    assert!(!InfallibleSetSync::add(&mut s, a));
    assert!(!InfallibleSetMut::insert(&mut s, b));
    assert!(InfallibleSetMut::insert(&mut s, b));
    assert_eq!(InfallibleSet::len(&s), 2);
    assert!(InfallibleSetMut::remove(&mut s, &a));
    assert!(!InfallibleSetMut::remove(&mut s, &a));
    assert_eq!(InfallibleSet::len(&s), 1);
}

#[test]
fn an_agreement_reads_as_a_set_of_one_message() {
    let a = Agreement { message: msg(1, 9, 70), at: 5 };
    assert_eq!(InfallibleSet::len(&a), 1);
}

#[test]
fn the_constructor_capabilities_build_the_plain_types() {
    let m: Message = ConstructableMessage::new(1, 9, 70);
    assert_eq!(m, msg(1, 9, 70));
    let basis = Agreement { message: m, at: 5 };
    let a: Action = ConstructableAction::new(42, basis, MessageSet::new(), msg(2, 42, 80), 5);
    assert_eq!(a.actor_id, 42);
    assert_eq!(a.basis, basis);
    assert_eq!(a.enacts, msg(2, 42, 80));
    assert_eq!(a.timestamp, 5);
    let p = a.payload();
    assert!(p.contains(&m));
    assert!(p.contains(&msg(2, 42, 80)));
    assert_eq!(p.len(), 2);
}

#[test]
fn a_polled_agent_defaults_to_staying_alive() {
    assert_eq!(AgentPoll::default(), AgentPoll::Alive);
}

#[test]
fn errors_describe_themselves() {
    let mut v = Viewpoint::new(7);
    let err = v.state(msg(1, 8, 10)).unwrap_err();
    assert_eq!(err.describe(), "the agent may not state a message of someone else");
    assert_eq!(
        Error::IllegalGossip { agent: 7 }.describe(),
        "the agent may not gossip a message it did not know"
    );
    assert_eq!(
        Error::IllegalEnact { agent: 7, author: 8 }.describe(),
        "the agent may not enact an action of someone else"
    );
    assert_eq!(
        Error::Store(OneOfSetError::Agreements(3)).describe(),
        "the agreement store failed"
    );
    assert_eq!(
        OneOfSetError::Statements(3).describe(),
        "the statement store failed"
    );
    assert_eq!(
        OneOfSetError::Enactments(3).describe(),
        "the enactment store failed"
    );
}
