//! Waiting for something to happen under a key.

use crate::utils::table::Table;
use vstd::prelude::*;

verus! {

/// Who waits under which key. A notifier is known by a number.
pub struct KeyedNotify {
    notifiers: Table<u64>,
}

impl View for KeyedNotify {
    type V = Map<Seq<char>, u64>;

    closed spec fn view(&self) -> Map<Seq<char>, u64> {
        self.notifiers@
    }
}

/// The notifiers after somebody asked for that of a key, and the one that was given out.
pub open spec fn with_notifier(m: Map<Seq<char>, u64>, key: Seq<char>, fresh: u64) -> (
    Map<Seq<char>, u64>,
    u64,
) {
    if m.contains_key(key) {
        (m, m[key])
    } else {
        (m.insert(key, fresh), fresh)
    }
}

impl KeyedNotify {
    /// The table of notifiers is in order.
    pub closed spec fn wf(self) -> bool {
        self.notifiers.wf()
    }

    /// Nobody waits.
    pub fn new() -> (n: KeyedNotify)
        ensures
            n.wf(),
            n@ == Map::<Seq<char>, u64>::empty(),
    {
        KeyedNotify { notifiers: Table::new() }
    }

    /// Whether nobody waits.
    pub fn is_empty(&self) -> (r: bool)
        requires
            self.wf(),
        ensures
            r == (forall|key: Seq<char>| !#[trigger] self@.contains_key(key)),
    {
        proof {
            crate::utils::table::lemma_names(self.notifiers);
            if self.notifiers.names().len() > 0 {
                assert(self.notifiers.names().contains(self.notifiers.names()[0]));
                assert(self@.contains_key(self.notifiers.names()[0]));
            }
            assert forall|key: Seq<char>| #[trigger] self@.contains_key(key) implies
                self.notifiers.names().len() > 0 by {
                assert(self.notifiers.names().contains(key));
            }
        }
        self.notifiers.len() == 0
    }

    /// The notifier of a key: the one that others wait on, or else a fresh one.
    pub fn get_or_create(&mut self, key: &str, fresh: u64) -> (id: u64)
        requires
            old(self).wf(),
        ensures
            final(self).wf(),
            (final(self)@, id) == with_notifier(old(self)@, key@, fresh),
    {
        match self.notifiers.get(key) {
            Some(id) => {
                return *id;
            },
            None => {},
        }
        self.notifiers.insert(key, fresh);
        fresh
    }

    /// Wakes whoever waits under a key: the notifier that has to be told, if there is one.
    pub fn notify(&mut self, key: &str) -> (id: Option<u64>)
        requires
            old(self).wf(),
        ensures
            final(self).wf(),
            final(self)@ == old(self)@.remove(key@),
            id == if old(self)@.contains_key(key@) {
                Some(old(self)@[key@])
            } else {
                None
            },
    {
        self.remove(key)
    }

    /// Takes the notifier of a key out, for whoever waits on it to be woken.
    pub fn remove(&mut self, key: &str) -> (id: Option<u64>)
        requires
            old(self).wf(),
        ensures
            final(self).wf(),
            final(self)@ == old(self)@.remove(key@),
            id == if old(self)@.contains_key(key@) {
                Some(old(self)@[key@])
            } else {
                None
            },
    {
        self.notifiers.remove(key)
    }

    /// One turn of waiting under a key: who wants to wait is registered before the condition is looked
    /// at, so that no notice in between is lost. With a value, or out of time, the waiting is over.
    pub fn wait_until<T>(&mut self, key: &str, fresh: u64, event: WaitEvent<T>) -> (step: WaitStep<T>)
        requires
            old(self).wf(),
        ensures
            final(self).wf(),
            match event {
                WaitEvent::Begin => step == WaitStep::<T>::Check(
                    with_notifier(old(self)@, key@, fresh).1,
                ) && final(self)@ == with_notifier(old(self)@, key@, fresh).0,
                WaitEvent::Checked(None) => step == WaitStep::<T>::Sleep && final(self)@ == old(self)@,
                WaitEvent::Checked(Some(value)) => final(self)@ == old(self)@.remove(key@) && step
                    == WaitStep::Done(Some(value), other_waiter(old(self)@, key@)),
                WaitEvent::TimedOut => final(self)@ == old(self)@.remove(key@) && step
                    == WaitStep::<T>::Done(None, other_waiter(old(self)@, key@)),
            },
    {
        match event {
            WaitEvent::Begin => WaitStep::Check(self.get_or_create(key, fresh)),
            WaitEvent::Checked(None) => WaitStep::Sleep,
            WaitEvent::Checked(Some(value)) => WaitStep::Done(Some(value), self.remove(key)),
            WaitEvent::TimedOut => WaitStep::Done(None, self.remove(key)),
        }
    }
}

/// The notifier under a key, where there is one.
pub open spec fn other_waiter(m: Map<Seq<char>, u64>, key: Seq<char>) -> Option<u64> {
    if m.contains_key(key) {
        Some(m[key])
    } else {
        None
    }
}

/// What happened while waiting.
#[derive(Debug)]
pub enum WaitEvent<T> {
    /// The waiting begins, or goes on after a notice.
    Begin,
    /// The condition was looked at.
    Checked(Option<T>),
    TimedOut,
}

/// What to do next while waiting.
#[derive(Debug)]
pub enum WaitStep<T> {
    /// Listen on that notifier, then look at the condition.
    Check(u64),
    /// Sleep until the notifier calls.
    Sleep,
    /// It is over: with a value, or out of time. The notifier is told, for another waiter to look again.
    Done(Option<T>, Option<u64>),
}

/// Whoever registered under a key is woken by the next notice for that key, and nobody is left
/// registered by it.
pub proof fn law_no_notice_is_lost(m: Map<Seq<char>, u64>, key: Seq<char>, fresh: u64)
    ensures
        ({
            let (after, id) = with_notifier(m, key, fresh);
            &&& other_waiter(after, key) == Some(id)
            &&& !after.remove(key).contains_key(key)
        }),
{
}

/// A notice that nobody waits for changes nothing.
pub proof fn law_notice_without_waiter(m: Map<Seq<char>, u64>, key: Seq<char>)
    requires
        !m.contains_key(key),
    ensures
        m.remove(key) == m,
{
    assert(m.remove(key) =~= m);
}

/// The waiters of one key share a notifier, that of the first who came, and those of other keys
/// keep theirs. Without a waiter there is nobody to be told.
pub proof fn law_one_notifier_for_a_key(
    m: Map<Seq<char>, u64>,
    key: Seq<char>,
    other: Seq<char>,
    first: u64,
    second: u64,
)
    requires
        !m.contains_key(key),
        other != key,
    ensures
        ({
            let (after, id) = with_notifier(m, key, first);
            &&& id == first
            &&& with_notifier(after, key, second) == (after, first)
            &&& after.contains_key(other) == m.contains_key(other)
            &&& m.contains_key(other) ==> after[other] == m[other]
            &&& other_waiter(after, key) == Some(first)
            &&& other_waiter(m, key) is None
        }),
{
}

} // verus!
