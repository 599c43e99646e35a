//! The switch that ends a session, and those who wait for it.

use vstd::prelude::*;

verus! {

/// What a waiter does next.
#[derive(Debug, Clone, Copy, PartialEq, Eq, Structural)]
pub enum WaitStep {
    /// Look whether the session is closed.
    Check,
    /// Sleep until woken, then begin anew.
    Sleep,
    /// The session is closed: stop waiting.
    Return,
}

/// Where a waiter is in its turn.
#[derive(Debug, Clone, Copy, PartialEq, Eq, Structural)]
pub enum WaitTurn {
    /// It begins, or was woken.
    Begin,
    /// It is registered and looks whether the session is closed.
    Check,
}

/// One who is registered to be woken.
#[derive(Debug, Clone, Copy, PartialEq, Eq, Structural)]
pub struct Waiter {
    pub id: u64,
    pub asleep: bool,
}

/// A session's close flag with those who are registered to be woken.
#[derive(Debug)]
pub struct SessionCloser {
    closed: bool,
    waiters: Vec<Waiter>,
}

/// Whether somebody of that id is asleep.
pub open spec fn is_asleep(waiters: Seq<Waiter>, id: u64) -> bool {
    exists|i: int| 0 <= i < waiters.len() && #[trigger] waiters[i] == (Waiter { id, asleep: true })
}

/// Those who are registered, without one.
pub open spec fn without_waiter(waiters: Seq<Waiter>, id: u64) -> Seq<Waiter>
    decreases waiters.len(),
{
    if waiters.len() == 0 {
        Seq::empty()
    } else if waiters.last().id == id {
        without_waiter(waiters.drop_last(), id)
    } else {
        without_waiter(waiters.drop_last(), id).push(waiters.last())
    }
}

/// The ids of those who are registered.
pub open spec fn waiter_ids(waiters: Seq<Waiter>) -> Seq<u64> {
    waiters.map_values(|w: Waiter| w.id)
}

impl SessionCloser {
    /// Whether the session is closed.
    pub closed spec fn closed(self) -> bool {
        self.closed
    }

    /// Those who are registered to be woken.
    pub closed spec fn waiters(self) -> Seq<Waiter> {
        self.waiters@
    }

    /// Nobody sleeps on a closed session.
    pub open spec fn wf(self) -> bool {
        self.closed() ==> forall|id: u64| !#[trigger] is_asleep(self.waiters(), id)
    }

    /// An open session.
    pub fn new() -> (c: SessionCloser)
        ensures
            c.wf(),
            !c.closed(),
            c.waiters() == Seq::<Waiter>::empty(),
    {
        SessionCloser { closed: false, waiters: Vec::new() }
    }

    /// Closes the session. Those who have to be woken are listed: all who are registered, when the
    /// session is closed for the first time.
    pub fn close(&mut self) -> (wake: Vec<u64>)
        requires
            old(self).wf(),
        ensures
            final(self).wf(),
            final(self).closed(),
            old(self).closed() ==> wake@.len() == 0 && final(self).waiters() == old(self).waiters(),
            !old(self).closed() ==> wake@ == waiter_ids(old(self).waiters())
                && final(self).waiters() == Seq::<Waiter>::empty(),
    {
        let mut wake: Vec<u64> = Vec::new();
        if self.closed {
            return wake;
        }
        self.closed = true;
        let ghost all = self.waiters@;
        let mut i: usize = 0;
        while i < self.waiters.len()
            invariant
                i <= self.waiters@.len(),
                all == self.waiters@,
                wake@ == waiter_ids(all.take(i as int)),
            decreases self.waiters@.len() - i,
        {
            wake.push(self.waiters[i].id);
            i += 1;
            assert(wake@ =~= waiter_ids(all.take(i as int)));
        }
        assert(all.take(i as int) =~= all);
        self.waiters = Vec::new();
        wake
    }

    fn forget(&mut self, id: u64)
        ensures
            final(self).closed() == old(self).closed(),
            final(self).waiters() == without_waiter(old(self).waiters(), id),
    {
        let ghost all = self.waiters@;
        let mut kept: Vec<Waiter> = Vec::new();
        let mut i: usize = 0;
        assert(all.take(0) =~= Seq::<Waiter>::empty());
        while i < self.waiters.len()
            invariant
                i <= self.waiters@.len(),
                all == self.waiters@,
                kept@ == without_waiter(all.take(i as int), id),
            decreases self.waiters@.len() - i,
        {
            let w: Waiter = self.waiters[i];
            assert(all.take(i + 1).drop_last() =~= all.take(i as int));
            assert(all.take(i + 1).last() == w);
            if w.id != id {
                kept.push(w);
            }
            i += 1;
        }
        assert(all.take(i as int) =~= all);
        self.waiters = kept;
    }

    /// One step of a waiter. It registers before it looks at the flag, so that a close in between is
    /// not missed, and sleeps only on an open session.
    pub fn wait(&mut self, id: u64, turn: WaitTurn) -> (step: WaitStep)
        requires
            old(self).wf(),
        ensures
            final(self).wf(),
            final(self).closed() == old(self).closed(),
            (final(self).waiters(), step) == wait_step(
                old(self).closed(),
                old(self).waiters(),
                id,
                turn,
            ),
    {
        proof {
            lemma_without_waiter(self.waiters@, id);
        }
        self.forget(id);
        let ghost rest = self.waiters@;
        match turn {
            WaitTurn::Begin => {
                self.waiters.push(Waiter { id, asleep: false });
                proof {
                    assert forall|k: u64| #[trigger] is_asleep(self.waiters@, k) implies is_asleep(
                        rest,
                        k,
                    ) by {
                        let i = choose|i: int|
                            0 <= i < self.waiters@.len() && #[trigger] self.waiters@[i] == (Waiter {
                                id: k,
                                asleep: true,
                            });
                        assert(rest[i] == self.waiters@[i]);
                    }
                }
                WaitStep::Check
            },
            WaitTurn::Check => {
                if self.closed {
                    return WaitStep::Return;
                }
                self.waiters.push(Waiter { id, asleep: true });
                WaitStep::Sleep
            },
        }
    }

    /// Whether the session is closed.
    pub fn is_closed(&self) -> (r: bool)
        ensures
            r == self.closed(),
    {
        self.closed
    }
}

/// Who is registered after one step of a waiter, and what the waiter does next.
pub open spec fn wait_step(closed: bool, waiters: Seq<Waiter>, id: u64, turn: WaitTurn) -> (
    Seq<Waiter>,
    WaitStep,
) {
    let rest = without_waiter(waiters, id);
    match turn {
        WaitTurn::Begin => (rest.push(Waiter { id, asleep: false }), WaitStep::Check),
        WaitTurn::Check => if closed {
            (rest, WaitStep::Return)
        } else {
            (rest.push(Waiter { id, asleep: true }), WaitStep::Sleep)
        },
    }
}

proof fn lemma_without_waiter(waiters: Seq<Waiter>, id: u64)
    ensures
        forall|k: u64| #[trigger]
            is_asleep(without_waiter(waiters, id), k) <==> is_asleep(waiters, k) && k != id,
    decreases waiters.len(),
{
    if waiters.len() > 0 {
        let head = waiters.drop_last();
        let last = waiters.last();
        lemma_without_waiter(head, id);
        let after = without_waiter(waiters, id);
        let before = without_waiter(head, id);
        assert forall|k: u64| #[trigger] is_asleep(after, k) <==> is_asleep(waiters, k) && k != id by {
            let w = Waiter { id: k, asleep: true };
            if is_asleep(after, k) {
                let i = choose|i: int| 0 <= i < after.len() && #[trigger] after[i] == w;
                if last.id != id && i == before.len() {
                    assert(waiters[waiters.len() - 1] == w);
                } else {
                    assert(before[i] == w);
                    assert(is_asleep(before, k));
                    let j = choose|j: int| 0 <= j < head.len() && #[trigger] head[j] == w;
                    assert(waiters[j] == w);
                }
            }
            if is_asleep(waiters, k) && k != id {
                let i = choose|i: int| 0 <= i < waiters.len() && #[trigger] waiters[i] == w;
                if i < head.len() {
                    assert(head[i] == w);
                    assert(is_asleep(before, k));
                    let j = choose|j: int| 0 <= j < before.len() && #[trigger] before[j] == w;
                    assert(after[j] == w);
                } else {
                    assert(after[before.len() as int] == w);
                }
            }
        }
    }
}

/// Whoever sleeps when the session is closed is woken, and whoever looks after that stops waiting.
/// Nobody else than the one whose step it is falls asleep by it.
pub proof fn law_no_waiter_is_left_asleep(closed: bool, waiters: Seq<Waiter>, id: u64, other: u64)
    ensures
        is_asleep(waiters, id) ==> waiter_ids(waiters).contains(id),
        wait_step(true, waiters, id, WaitTurn::Check).1 == WaitStep::Return,
        wait_step(closed, waiters, id, WaitTurn::Begin).1 == WaitStep::Check,
        other != id && is_asleep(
            wait_step(closed, waiters, id, WaitTurn::Check).0,
            other,
        ) ==> is_asleep(waiters, other),
        is_asleep(wait_step(closed, waiters, id, WaitTurn::Check).0, id) ==> !closed,
{
    lemma_without_waiter(waiters, id);
    if is_asleep(waiters, id) {
        let i = choose|i: int|
            0 <= i < waiters.len() && #[trigger] waiters[i] == (Waiter { id, asleep: true });
        assert(waiter_ids(waiters)[i] == id);
    }
    let rest = without_waiter(waiters, id);
    let after = wait_step(closed, waiters, id, WaitTurn::Check).0;
    if is_asleep(after, other) && other != id {
        let i = choose|i: int|
            0 <= i < after.len() && #[trigger] after[i] == (Waiter { id: other, asleep: true });
        assert(rest[i] == after[i]);
        assert(is_asleep(rest, other));
    }
    if closed && is_asleep(after, id) {
        assert(is_asleep(rest, id));
    }
}

/// A waiter that begins is told to look once more before it sleeps. It sleeps only where the
/// session is open then, and returns where it is closed. It is listed once, as sleeping or not,
/// and the others stay listed as they were.
pub proof fn law_turns_of_a_waiter(closed: bool, waiters: Seq<Waiter>, id: u64, other: Waiter)
    requires
        other.id != id,
    ensures
        ({
            let (after, step) = wait_step(closed, waiters, id, WaitTurn::Begin);
            &&& step == WaitStep::Check
            &&& after.last() == (Waiter { id, asleep: false })
            &&& !is_asleep(after, id)
            &&& after.contains(other) == waiters.contains(other)
        }),
        ({
            let (after, step) = wait_step(closed, waiters, id, WaitTurn::Check);
            &&& closed ==> step == WaitStep::Return && forall|i: int|
                0 <= i < after.len() ==> (#[trigger] after[i]).id != id
            &&& !closed ==> step == WaitStep::Sleep && is_asleep(after, id)
            &&& after.contains(other) == waiters.contains(other)
        }),
{
    lemma_without(waiters, id, other);
    let rest = without_waiter(waiters, id);
    let begun = rest.push(Waiter { id, asleep: false });
    let slept = rest.push(Waiter { id, asleep: true });
    assert(slept[slept.len() - 1] == (Waiter { id, asleep: true }));
    assert(is_asleep(slept, id));
    assert forall|i: int| 0 <= i < begun.len() implies #[trigger] begun[i] != (Waiter {
        id,
        asleep: true,
    }) by {
        if i < rest.len() {
            assert(begun[i] == rest[i]);
        }
    }
    assert(begun.contains(other) == rest.contains(other)) by {
        if rest.contains(other) {
            let i = choose|i: int| 0 <= i < rest.len() && rest[i] == other;
            assert(begun[i] == other);
        }
    }
    assert(slept.contains(other) == rest.contains(other)) by {
        if rest.contains(other) {
            let i = choose|i: int| 0 <= i < rest.len() && rest[i] == other;
            assert(slept[i] == other);
        }
    }
}

proof fn lemma_without(waiters: Seq<Waiter>, id: u64, other: Waiter)
    requires
        other.id != id,
    ensures
        without_waiter(waiters, id).contains(other) == waiters.contains(other),
        forall|i: int|
            0 <= i < without_waiter(waiters, id).len() ==> (#[trigger] without_waiter(
                waiters,
                id,
            )[i]).id != id,
    decreases waiters.len(),
{
    if waiters.len() > 0 {
        let front = waiters.drop_last();
        lemma_without(front, id, other);
        let w = waiters.last();
        assert(waiters =~= front.push(w));
        assert(waiters.contains(other) == (front.contains(other) || w == other)) by {
            if front.contains(other) {
                let i = choose|i: int| 0 <= i < front.len() && front[i] == other;
                assert(waiters[i] == other);
            }
            if w == other {
                assert(waiters[waiters.len() - 1] == other);
            }
        }
        if w.id != id {
            let rest = without_waiter(front, id);
            assert(rest.push(w).contains(other) == (rest.contains(other) || w == other)) by {
                if rest.contains(other) {
                    let i = choose|i: int| 0 <= i < rest.len() && rest[i] == other;
                    assert(rest.push(w)[i] == other);
                }
                if w == other {
                    assert(rest.push(w)[rest.len() as int] == other);
                }
            }
        }
    }
}

} // verus!
