//! Order-independence and set semantics of the message set.

use justact::auxillary::{Authored, Identifiable};
use justact::messages::{Message, MessageSet};

fn msg(id: u64, author_id: u64, payload: u64) -> Message {
    Message { id, author_id, payload }
}

#[test]
fn equality_is_order_independent() {
    let a = msg(1, 10, 100);
    let b = msg(2, 11, 101);
    let c = msg(3, 12, 102);
    let s1 = MessageSet::from_vec(vec![a, b, c]);
    let s2 = MessageSet::from_vec(vec![c, a, b]);
    let s3 = MessageSet::from_vec(vec![b, c, a]);
    let s4 = MessageSet::from_vec(vec![c, b, a]);
    assert_eq!(s1, s2);
    assert_eq!(s1, s3);
    assert_eq!(s1, s4);
    assert_eq!(s2, s3);
}

#[test]
fn hash_is_order_independent() {
    let a = msg(1, 10, 100);
    let b = msg(2, 11, 101);
    let c = msg(3, 12, 102);
    let s1 = MessageSet::from_vec(vec![a, b, c]);
    let s2 = MessageSet::from_vec(vec![c, a, b]);
    let s3 = MessageSet::from_vec(vec![b, c, a]);
    assert_eq!(s1.canonical_hash(), s2.canonical_hash());
    assert_eq!(s1.canonical_hash(), s3.canonical_hash());
}

#[test]
fn unequal_sets_compare_unequal() {
    let a = msg(1, 10, 100);
    let b = msg(2, 11, 101);
    let c = msg(3, 12, 102);
    let s1 = MessageSet::from_vec(vec![a, b]);
    let s2 = MessageSet::from_vec(vec![a, c]);
    let s3 = MessageSet::from_vec(vec![a, b, c]);
    assert_ne!(s1, s2);
    assert_ne!(s1, s3);
}

#[test]
fn duplicates_collapse() {
    let a = msg(1, 10, 100);
    let b = msg(2, 11, 101);
    let with_dup = MessageSet::from_vec(vec![a, a, b]);
    let without = MessageSet::from_vec(vec![a, b]);
    assert_eq!(with_dup, without);
    assert_eq!(with_dup.len(), 2);
    assert_eq!(with_dup.canonical_hash(), without.canonical_hash());
}

#[test]
fn add_reports_newness_and_keeps_one_copy() {
    let a = msg(1, 10, 100);
    let b = msg(2, 11, 101);
    let mut s = MessageSet::new();
    assert!(s.is_empty());
    assert!(s.add(a));
    assert!(s.add(b));
    assert!(!s.add(a));
    assert_eq!(s.len(), 2);
    assert!(s.contains(&a));
    assert_eq!(s.get(&a), Some(a));
    assert_eq!(s.get(&msg(9, 9, 9)), None);
    assert_eq!(s.at(0), a);
    assert_eq!(s.at(1), b);
}

#[test]
fn remove_and_clear() {
    let a = msg(1, 10, 100);
    let b = msg(2, 11, 101);
    let mut s = MessageSet::from_vec(vec![a, b]);
    assert!(s.remove(&a));
    assert!(!s.remove(&a));
    assert!(!s.contains(&a));
    assert!(s.contains(&b));
    s.clear();
    assert!(s.is_empty());
}

#[test]
fn extend_collapses_like_from() {
    let a = msg(1, 10, 100);
    let b = msg(2, 11, 101);
    let c = msg(3, 12, 102);
    let mut s = MessageSet::from_vec(vec![a]);
    s.extend(vec![b, a, c, b]);
    assert_eq!(s.len(), 3);
    assert_eq!(s, MessageSet::from_vec(vec![a, b, c]));
}

#[test]
fn with_capacity_starts_empty() {
    let s = MessageSet::with_capacity(16);
    assert!(s.is_empty());
    assert_eq!(s.len(), 0);
}

#[test]
fn hash_has_fixed_values() {
    let empty = MessageSet::new();
    assert_eq!(empty.canonical_hash(), 0xcbf29ce484222325);
    let one = MessageSet::from_vec(vec![msg(1, 2, 3)]);
    assert_eq!(justact::messages::message_hash(&msg(1, 2, 3)), 0xd0aa6218672cf5ab);
    assert_eq!(one.canonical_hash(), 0x870fd5b5d236934a);
    let two = MessageSet::from_vec(vec![msg(2, 42, 80), msg(1, 9, 70)]);
    assert_eq!(two.canonical_hash(), 0xcbdcdd800f216737);
}

#[test]
fn message_accessors() {
    let m = Message::new(7, 8, 9);
    assert_eq!(m.id, 7);
    assert_eq!(Identifiable::id(&m), 7);
    assert_eq!(Authored::author_id(&m), 8);
    assert_eq!(m.payload, 9);
}
