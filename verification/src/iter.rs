//! Helpers for working with streams of messages: finding the first message
//! with a given identifier, and keeping the messages of one author.
//!
//! Streams are plain vectors here; the capabilities are traits so that any
//! other ordered source of messages can offer them too.

use vstd::prelude::*;

use crate::auxillary::Identifiable;
use crate::collections::{first_with_key, lemma_first_with_key_skip};
use crate::messages::Message;

verus! {

/// The messages of `s` authored by the given agent, in order.
pub open spec fn by_author(s: Seq<Message>, author_id: u64) -> Seq<Message>
    decreases s.len(),
{
    if s.len() == 0 {
        Seq::empty()
    } else {
        let rest = by_author(s.drop_last(), author_id);
        if s.last().author_id == author_id {
            rest.push(s.last())
        } else {
            rest
        }
    }
}

/// The capability to find the first message carrying an identifier.
pub trait FindIdentifierIterator {
    /// The messages searched, in order.
    spec fn stream(&self) -> Seq<Message>;

    /// Returns the first message with the given identifier, or nothing if
    /// the stream runs out before any such message.
    fn find_id(&self, id: u64) -> (r: Option<Message>)
        ensures
            r == first_with_key(self.stream(), id),
    ;
}

impl FindIdentifierIterator for Vec<Message> {
    open spec fn stream(&self) -> Seq<Message> {
        self@
    }

    fn find_id(&self, id: u64) -> (r: Option<Message>) {
        let n = self.len();
        let mut i: usize = 0;
        while i < n
            invariant
                n == self@.len(),
                i <= n,
                forall|k: int| 0 <= k < i ==> self@[k].id != id,
            decreases n - i,
        {
            let m = *vstd::std_specs::vec::vec_index(self, i);
            if m.id == id {
                proof {
                    assert(forall|k: int| 0 <= k < i ==> self@[k].id_spec() != id);
                    lemma_first_with_key_skip(self@, id, i as int);
                    assert(self@.skip(i as int).first() == self@[i as int]);
                }
                return Some(m);
            }
            i += 1;
        }
        proof {
            assert(forall|k: int| 0 <= k < n ==> self@[k].id_spec() != id);
            lemma_first_with_key_skip(self@, id, n as int);
            assert(self@.skip(n as int) =~= Seq::<Message>::empty());
        }
        None
    }
}

/// A filter over streams of messages that keeps the messages of one
/// author.
#[derive(Clone, Copy, Debug, PartialEq, Eq, Structural)]
pub struct FilterAuthor {
    /// The identifier of the author whose messages are kept.
    pub author_id: u64,
}

impl FilterAuthor {
    /// Applies the filter to a stream: the messages of the kept author, in
    /// stream order.
    pub fn apply(&self, msgs: &Vec<Message>) -> (r: Vec<Message>)
        ensures
            r@ == by_author(msgs@, self.author_id),
    {
        let n = msgs.len();
        let mut out: Vec<Message> = Vec::new();
        let mut i: usize = 0;
        while i < n
            invariant
                n == msgs@.len(),
                i <= n,
                out@ == by_author(msgs@.take(i as int), self.author_id),
            decreases n - i,
        {
            let m = *vstd::std_specs::vec::vec_index(msgs, i);
            proof {
                assert(msgs@.take(i + 1).drop_last() =~= msgs@.take(i as int));
                assert(msgs@.take(i + 1).last() == msgs@[i as int]);
            }
            if m.author_id == self.author_id {
                out.push(m);
            }
            i += 1;
        }
        proof {
            assert(msgs@.take(n as int) =~= msgs@);
        }
        out
    }
}

/// The capability to filter a stream of messages by author.
pub trait FilterAuthorIterator {
    /// The messages filtered, in order.
    spec fn items(&self) -> Seq<Message>;

    /// Returns the messages authored by the agent with the given
    /// identifier, in order.
    fn filter_author(&self, author_id: u64) -> (r: Vec<Message>)
        ensures
            r@ == by_author(self.items(), author_id),
    ;
}

impl FilterAuthorIterator for Vec<Message> {
    open spec fn items(&self) -> Seq<Message> {
        self@
    }

    fn filter_author(&self, author_id: u64) -> (r: Vec<Message>) {
        let filter = FilterAuthor { author_id };
        filter.apply(self)
    }
}

} // verus!
