//! A reader/writer lock over one machine word, fit for memory that several
//! processes map. This module holds the word's state machine and the
//! spin-then-yield schedule of a waiting party; the atomic compare-and-swap
//! that applies a transition belongs to whoever maps the word.
use vstd::prelude::*;

verus! {

/// Rounds of spinning before a waiting party yields the processor.
pub const NGX_RWLOCK_SPIN: usize = 2048;

/// The word's value while a writer holds the lock.
pub const NGX_RWLOCK_WLOCK: usize = usize::MAX;

/// Readers that hold the lock when the word has this value.
pub open spec fn readers(word: usize) -> nat {
    if word == NGX_RWLOCK_WLOCK {
        0
    } else {
        word as nat
    }
}

/// Whether a writer holds the lock when the word has this value.
pub open spec fn is_exclusive(word: usize) -> bool {
    word == NGX_RWLOCK_WLOCK
}

/// Whether a shared acquire succeeds on this value: no writer holds the
/// lock and one more reader can be counted without reaching the writer's
/// value.
pub open spec fn shared_succeeds(word: usize) -> bool {
    word < NGX_RWLOCK_WLOCK - 1
}

/// Whether an exclusive acquire succeeds on this value: nobody holds the
/// lock.
pub open spec fn exclusive_succeeds(word: usize) -> bool {
    word == 0
}

/// The value that a shared acquire swaps in for `observed`, or `None` where
/// it must wait.
pub fn shared_transition(observed: usize) -> (r: Option<usize>)
    ensures
        r is Some <==> shared_succeeds(observed),
        r matches Some(v) ==> v == observed + 1,
{
    if observed >= NGX_RWLOCK_WLOCK - 1 {
        None
    } else {
        Some(observed + 1)
    }
}

/// The value that an exclusive acquire swaps in for `observed`, or `None`
/// where it must wait.
pub fn exclusive_transition(observed: usize) -> (r: Option<usize>)
    ensures
        r is Some <==> exclusive_succeeds(observed),
        r matches Some(v) ==> v == NGX_RWLOCK_WLOCK,
{
    if observed == 0 {
        Some(NGX_RWLOCK_WLOCK)
    } else {
        None
    }
}

/// What a party does after a failed attempt.
#[derive(Clone, Copy, Debug, PartialEq, Eq, Structural)]
pub enum SpinAction {
    /// Busy-wait for this many pause instructions, then try again.
    Spin(usize),
    /// Yield the processor, then try again from the first round.
    Yield,
}

/// The schedule of a waiting party: after the failed attempt of round
/// `round`, spin for `round` pauses on a machine with more than one
/// processor while rounds remain, else yield. Returns the action and the
/// next round.
pub fn backoff(round: usize, ncpu: usize) -> (r: (SpinAction, usize))
    ensures
        ncpu > 1 && round < NGX_RWLOCK_SPIN ==> r == (SpinAction::Spin(round), (round + 1) as usize),
        !(ncpu > 1 && round < NGX_RWLOCK_SPIN) ==> r == (SpinAction::Yield, 0usize),
{
    if ncpu > 1 && round < NGX_RWLOCK_SPIN {
        (SpinAction::Spin(round), round + 1)
    } else {
        (SpinAction::Yield, 0)
    }
}

/// The lock word.
pub struct RawSpinlock {
    word: usize,
}

impl RawSpinlock {
    /// The word's current value.
    pub closed spec fn word(&self) -> usize {
        self.word
    }

    /// An unlocked word.
    pub fn new() -> (r: RawSpinlock)
        ensures
            r.word() == 0,
    {
        RawSpinlock { word: 0 }
    }

    /// The word's current value.
    pub fn value(&self) -> (r: usize)
        ensures
            r == self.word(),
    {
        self.word
    }

    /// One shared acquire attempt.
    pub fn try_lock_shared(&mut self) -> (r: bool)
        ensures
            r == shared_succeeds(old(self).word()),
            r ==> final(self).word() == old(self).word() + 1,
            !r ==> final(self).word() == old(self).word(),
    {
        match shared_transition(self.word) {
            Some(v) => {
                self.word = v;
                true
            },
            None => false,
        }
    }

    /// One exclusive acquire attempt.
    pub fn try_lock_exclusive(&mut self) -> (r: bool)
        ensures
            r == exclusive_succeeds(old(self).word()),
            r ==> final(self).word() == NGX_RWLOCK_WLOCK,
            !r ==> final(self).word() == old(self).word(),
    {
        match exclusive_transition(self.word) {
            Some(v) => {
                self.word = v;
                true
            },
            None => false,
        }
    }

    /// Releases one reader's hold.
    pub fn unlock_shared(&mut self)
        requires
            readers(old(self).word()) > 0,
        ensures
            final(self).word() == old(self).word() - 1,
    {
        self.word = self.word - 1;
    }

    /// Releases the writer's hold.
    pub fn unlock_exclusive(&mut self)
        requires
            is_exclusive(old(self).word()),
        ensures
            final(self).word() == 0,
    {
        self.word = 0;
    }
}

/// A value kept beside its lock word.
pub struct RwLock<T> {
    raw: RawSpinlock,
    data: T,
}

impl<T> RwLock<T> {
    pub closed spec fn word(&self) -> usize {
        self.raw.word
    }

    pub closed spec fn value(&self) -> T {
        self.data
    }

    /// An unlocked lock around `data`.
    pub fn new(data: T) -> (r: RwLock<T>)
        ensures
            r.word() == 0,
            r.value() == data,
    {
        RwLock { raw: RawSpinlock::new(), data }
    }

    /// One shared acquire attempt.
    pub fn try_lock_shared(&mut self) -> (r: bool)
        ensures
            r == shared_succeeds(old(self).word()),
            r ==> final(self).word() == old(self).word() + 1,
            !r ==> final(self).word() == old(self).word(),
            final(self).value() == old(self).value(),
    {
        self.raw.try_lock_shared()
    }

    /// One exclusive acquire attempt.
    pub fn try_lock_exclusive(&mut self) -> (r: bool)
        ensures
            r == exclusive_succeeds(old(self).word()),
            r ==> final(self).word() == NGX_RWLOCK_WLOCK,
            !r ==> final(self).word() == old(self).word(),
            final(self).value() == old(self).value(),
    {
        self.raw.try_lock_exclusive()
    }

    /// Releases one reader's hold.
    pub fn unlock_shared(&mut self)
        requires
            readers(old(self).word()) > 0,
        ensures
            final(self).word() == old(self).word() - 1,
            final(self).value() == old(self).value(),
    {
        self.raw.unlock_shared()
    }

    /// Releases the writer's hold.
    pub fn unlock_exclusive(&mut self)
        requires
            is_exclusive(old(self).word()),
        ensures
            final(self).word() == 0,
            final(self).value() == old(self).value(),
    {
        self.raw.unlock_exclusive()
    }

    /// The value, for a reader or the writer that holds the lock.
    pub fn data(&self) -> (r: &T)
        requires
            readers(self.word()) > 0 || is_exclusive(self.word()),
        ensures
            *r == self.value(),
    {
        &self.data
    }

    /// The value, for the writer that holds the lock.
    pub fn data_mut(&mut self) -> (r: &mut T)
        requires
            is_exclusive(old(self).word()),
        ensures
            *r == old(self).value(),
            final(self).value() == *final(r),
            final(self).word() == old(self).word(),
    {
        &mut self.data
    }
}

/// Readers and a writer never hold the lock together. No value of the word
/// counts readers and a writer at once; while a reader holds the lock an
/// exclusive attempt fails, and while the writer holds it a shared attempt
/// fails. Every transition keeps this: a shared acquire adds a reader
/// without making the word the writer's, a shared release leaves no writer,
/// and an exclusive acquire starts from no readers.
pub proof fn lemma_readers_exclude_writer(word: usize)
    ensures
        !(readers(word) > 0 && is_exclusive(word)),
        readers(word) > 0 ==> !exclusive_succeeds(word),
        is_exclusive(word) ==> !shared_succeeds(word),
        shared_succeeds(word) ==> !is_exclusive((word + 1) as usize) && readers((word + 1) as usize)
            == readers(word) + 1,
        readers(word) > 0 ==> !is_exclusive((word - 1) as usize) && readers((word - 1) as usize)
            == readers(word) - 1,
        exclusive_succeeds(word) ==> readers(word) == 0,
{
}

} // verus!
