//! The fact language behind the extractor boundary, the timestamp store,
//! and the small collection helpers.

use justact::collections::{Recipient, Singleton};
use justact::iter::{FilterAuthor, FilterAuthorIterator, FindIdentifierIterator};
use justact::messages::{Message, MessageSet};
use justact::policies::{Denotation, Extractor, FactExtractor, Policy, Truth};
use justact::times::{Timeline, Times, TimesSync};

fn msg(id: u64, author_id: u64, payload: u64) -> Message {
    Message { id, author_id, payload }
}

#[test]
fn extraction_reads_one_fact_per_payload() {
    let set = MessageSet::from_vec(vec![msg(1, 9, 70), msg(2, 9, 80)]);
    let policy = FactExtractor.extract(&set).unwrap();
    assert_eq!(policy.facts(), &vec![70, 80]);
    assert!(policy.is_valid());
}

#[test]
fn extraction_rejects_the_first_ill_formed_payload() {
    let set = MessageSet::from_vec(vec![msg(1, 9, 70), msg(2, 9, 0), msg(3, 9, 0)]);
    assert_eq!(FactExtractor.extract(&set).unwrap_err(), 2);
}

#[test]
fn the_absurd_fact_invalidates_a_policy() {
    let set = MessageSet::from_vec(vec![msg(1, 9, 70), msg(2, 9, 1)]);
    let policy = FactExtractor.extract(&set).unwrap();
    assert!(!policy.is_valid());
    assert_eq!(policy.explain(), 1);
}

#[test]
fn denotation_answers_under_the_closed_world() {
    let set = MessageSet::from_vec(vec![msg(1, 9, 70), msg(2, 9, 80)]);
    let policy = FactExtractor.extract(&set).unwrap();
    let truths = policy.truths();
    assert_eq!(truths.truth_of(70), Truth::True);
    assert_eq!(truths.truth_of(80), Truth::True);
    assert_eq!(truths.truth_of(90), Truth::False);
    assert_eq!(truths.effect_of(70), None);
}

#[test]
fn an_invalid_policy_makes_truth_unknowable() {
    let set = MessageSet::from_vec(vec![msg(1, 9, 70), msg(2, 9, 1)]);
    let truths = FactExtractor.extract(&set).unwrap().truths();
    assert_eq!(truths.truth_of(70), Truth::Unknowable);
    assert_eq!(truths.truth_of(90), Truth::Unknowable);
}

#[test]
fn policies_compose_by_union_of_facts() {
    let left = FactExtractor
        .extract(&MessageSet::from_vec(vec![msg(1, 9, 70)]))
        .unwrap();
    let right = FactExtractor
        .extract(&MessageSet::from_vec(vec![msg(2, 9, 80)]))
        .unwrap();
    let both = left.compose(&right);
    assert_eq!(both.facts(), &vec![70, 80]);
    let mut grown = left.compose(&right);
    grown.compose_mut(both);
    assert_eq!(grown.facts(), &vec![70, 80, 70, 80]);
}

#[test]
fn timeline_tracks_current_times() {
    let mut t = Timeline::new();
    assert_eq!(t.current(), vec![]);
    assert!(!t.add(3));
    assert!(t.add(3));
    assert!(t.contains(3));
    assert!(!t.contains(5));
    assert!(!t.add_current(5));
    assert!(t.add_current(5));
    assert_eq!(t.current(), vec![5]);
    assert!(t.contains(5));
}

#[test]
fn recipient_map_translates_the_addressee() {
    let one: Recipient<u64> = Recipient::One(3);
    assert_eq!(one.map(|x| x + 1), Recipient::One(4));
    let all: Recipient<u64> = Recipient::All;
    assert_eq!(all.map(|x| x + 1), Recipient::All);
}

#[test]
fn find_id_returns_the_first_match() {
    let early = msg(1, 9, 70);
    let late = msg(1, 9, 71);
    let stream = vec![msg(2, 9, 60), early, late];
    assert_eq!(stream.find_id(1), Some(early));
    assert_eq!(stream.find_id(3), None);
}

#[test]
fn filter_author_keeps_one_author_in_order() {
    let stream = vec![msg(1, 9, 70), msg(2, 8, 80), msg(3, 9, 90)];
    assert_eq!(stream.filter_author(9), vec![msg(1, 9, 70), msg(3, 9, 90)]);
    assert_eq!(stream.filter_author(8), vec![msg(2, 8, 80)]);
    assert_eq!(stream.filter_author(7), vec![]);
    let filter = FilterAuthor { author_id: 8 };
    assert_eq!(filter.apply(&stream), vec![msg(2, 8, 80)]);
}

#[test]
fn singleton_holds_exactly_one_element() {
    let s = Singleton::new(5u64);
    assert_eq!(*s.get(), 5);
    assert_eq!(s.len(), 1);
    assert_eq!(s, Singleton(5u64));
}
