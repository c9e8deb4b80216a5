//! Timesteps: the synchronized record of which timestamps exist and which
//! of them are current.
//!
//! Auditors consult the current times when they first receive an enactment
//! to see whether it was done under a current agreement.  The set of
//! current times is always a subset of all known times.

use vstd::prelude::*;

verus! {

/// Read access to a synchronized set of timestamps, with the subset of
/// them that counts as current.
pub trait Times {
    /// All timestamps the store knows, as specification-level contents.
    spec fn times_spec(&self) -> Seq<u64>;

    /// The timestamps considered current, as specification-level contents.
    spec fn current_spec(&self) -> Seq<u64>;

    /// Returns all the current times: an action or agreement at one of
    /// them is considered current.
    fn current(&self) -> (r: Vec<u64>)
        ensures
            r@ == self.current_spec(),
    ;
}

/// Synchronized mutation of a timestamp store.
pub trait TimesSync: Times {
    /// Marks a timestamp as current, adding it to the full set as well so
    /// that the current times stay a subset of all times.  Returns true if
    /// it was already marked as current.
    fn add_current(&mut self, timestamp: u64) -> (r: bool)
        ensures
            r == old(self).current_spec().contains(timestamp),
            final(self).current_spec() == (if old(self).current_spec().contains(timestamp) {
                old(self).current_spec()
            } else {
                old(self).current_spec().push(timestamp)
            }),
            final(self).times_spec() == (if old(self).times_spec().contains(timestamp) {
                old(self).times_spec()
            } else {
                old(self).times_spec().push(timestamp)
            }),
    ;
}

/// The synchronized timestamp store of this crate: two duplicate-free
/// lists, all known times and the current ones.
#[derive(Clone, Debug)]
pub struct Timeline {
    /// Every timestamp that exists.
    times: Vec<u64>,
    /// The timestamps that are current.
    current: Vec<u64>,
}

impl View for Timeline {
    type V = (Seq<u64>, Seq<u64>);

    closed spec fn view(&self) -> (Seq<u64>, Seq<u64>) {
        (self.times@, self.current@)
    }
}

/// Appends a word to a vector only when it is not yet there.
fn push_new(v: &mut Vec<u64>, x: u64) -> (r: bool)
    ensures
        r == old(v)@.contains(x),
        final(v)@ == (if old(v)@.contains(x) {
            old(v)@
        } else {
            old(v)@.push(x)
        }),
{
    let n = v.len();
    let mut i: usize = 0;
    while i < n
        invariant
            n == v@.len(),
            v@ == old(v)@,
            i <= n,
            forall|k: int| 0 <= k < i ==> v@[k] != x,
        decreases n - i,
    {
        if *vstd::std_specs::vec::vec_index(v, i) == x {
            return true;
        }
        i += 1;
    }
    v.push(x);
    false
}

impl Timeline {
    /// Constructor for a timeline with no timestamps at all.
    pub fn new() -> (r: Self)
        ensures
            r@.0 == Seq::<u64>::empty(),
            r@.1 == Seq::<u64>::empty(),
    {
        Timeline { times: Vec::new(), current: Vec::new() }
    }

    /// Adds a timestamp to the full set without marking it current.
    /// Returns true if it already existed.
    pub fn add(&mut self, timestamp: u64) -> (r: bool)
        ensures
            r == old(self)@.0.contains(timestamp),
            final(self)@.0 == (if old(self)@.0.contains(timestamp) {
                old(self)@.0
            } else {
                old(self)@.0.push(timestamp)
            }),
            final(self)@.1 == old(self)@.1,
    {
        push_new(&mut self.times, timestamp)
    }

    /// Checks whether a timestamp exists at all.
    pub fn contains(&self, timestamp: u64) -> (r: bool)
        ensures
            r == self@.0.contains(timestamp),
    {
        let n = self.times.len();
        let mut i: usize = 0;
        while i < n
            invariant
                n == self@.0.len(),
                i <= n,
                forall|k: int| 0 <= k < i ==> self@.0[k] != timestamp,
            decreases n - i,
        {
            if *vstd::std_specs::vec::vec_index(&self.times, i) == timestamp {
                return true;
            }
            i += 1;
        }
        false
    }
}

impl Times for Timeline {
    open spec fn times_spec(&self) -> Seq<u64> {
        self@.0
    }

    open spec fn current_spec(&self) -> Seq<u64> {
        self@.1
    }

    fn current(&self) -> (r: Vec<u64>) {
        let n = self.current.len();
        let mut out: Vec<u64> = Vec::with_capacity(n);
        let mut i: usize = 0;
        while i < n
            invariant
                n == self@.1.len(),
                i <= n,
                out@ == self@.1.take(i as int),
            decreases n - i,
        {
            out.push(*vstd::std_specs::vec::vec_index(&self.current, i));
            proof {
                assert(self@.1.take(i + 1) =~= self@.1.take(i as int).push(self@.1[i as int]));
            }
            i += 1;
        }
        proof {
            assert(self@.1.take(n as int) =~= self@.1);
        }
        out
    }
}

impl TimesSync for Timeline {
    fn add_current(&mut self, timestamp: u64) -> (r: bool) {
        push_new(&mut self.times, timestamp);
        push_new(&mut self.current, timestamp)
    }
}

} // verus!
