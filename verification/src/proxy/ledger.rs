//! The books of the connections over a whole history: what is drained is what was counted.

use crate::proxy::connections::{
    book_step, lists, named_right, share_of, BookStep, BookView, ConnectionView, DestinationView,
    RecordView,
};
use crate::utils::sort::text_le;
use vstd::prelude::*;

verus! {

/// Empty books after a history.
pub open spec fn books_after(steps: Seq<BookStep>) -> BookView
    decreases steps.len(),
{
    if steps.len() == 0 {
        BookView { connections: Map::empty(), destinations: Map::empty() }
    } else {
        book_step(books_after(steps.drop_last()), steps.last())
    }
}

/// The bytes of a connection in one direction.
pub open spec fn carried(c: ConnectionView, up: bool) -> int {
    if up {
        c.upload as int
    } else {
        c.download as int
    }
}

/// The bytes of a destination on the books in one direction.
pub open spec fn on_the_books(b: BookView, name: Seq<char>, up: bool) -> int {
    if b.destinations.contains_key(name) {
        if up {
            b.destinations[name].upload as int
        } else {
            b.destinations[name].download as int
        }
    } else {
        0
    }
}

/// The bytes that a step counts on a connection that is open, in one direction.
pub open spec fn count_of(b: BookView, step: BookStep, up: bool) -> int {
    match step {
        BookStep::Count { id, upload, download } => if b.connections.contains_key(id) {
            if up {
                upload as int
            } else {
                download as int
            }
        } else {
            0
        },
        _ => 0,
    }
}

/// The connection that a step counts on.
pub open spec fn counted_on(step: BookStep) -> Seq<char> {
    match step {
        BookStep::Count { id, .. } => id,
        _ => Seq::empty(),
    }
}

/// All bytes counted on open connections in one direction.
pub open spec fn total_of(steps: Seq<BookStep>, up: bool) -> int
    decreases steps.len(),
{
    if steps.len() == 0 {
        0
    } else {
        total_of(steps.drop_last(), up) + count_of(
            books_after(steps.drop_last()),
            steps.last(),
            up,
        )
    }
}

/// The bytes counted on open connections to a destination in one direction. `dest` tells the
/// destination of a connection.
pub open spec fn counted_to(
    steps: Seq<BookStep>,
    dest: spec_fn(Seq<char>) -> Seq<char>,
    name: Seq<char>,
    up: bool,
) -> int
    decreases steps.len(),
{
    if steps.len() == 0 {
        0
    } else {
        counted_to(steps.drop_last(), dest, name, up) + (if dest(counted_on(steps.last())) == name {
            count_of(books_after(steps.drop_last()), steps.last(), up)
        } else {
            0
        })
    }
}

/// The bytes of a destination that were drained in one direction.
pub open spec fn drained(steps: Seq<BookStep>, name: Seq<char>, up: bool) -> int
    decreases steps.len(),
{
    if steps.len() == 0 {
        0
    } else {
        drained(steps.drop_last(), name, up) + (if steps.last() is Drain {
            on_the_books(books_after(steps.drop_last()), name, up)
        } else {
            0
        })
    }
}

/// The bytes counted on connections to a destination that have not been drained, in one direction.
pub open spec fn left_to_drain(
    steps: Seq<BookStep>,
    dest: spec_fn(Seq<char>) -> Seq<char>,
    name: Seq<char>,
    up: bool,
) -> int {
    counted_to(steps, dest, name, up) - drained(steps, name, up)
}

/// Whether a step is one that a history can have: a connection is entered under an id that is not in
/// use and has carried nothing, and it ends at its destination.
pub open spec fn step_fits(
    b: BookView,
    step: BookStep,
    dest: spec_fn(Seq<char>) -> Seq<char>,
) -> bool {
    match step {
        BookStep::Open { id, record } => !b.connections.contains_key(id) && record.tracker.upload
            == 0 && record.tracker.download == 0,
        BookStep::End { id, now, known } => b.connections.contains_key(id) ==> share_of(
            b.connections[id].tracker,
            now,
            known,
        ).domain == dest(id),
        _ => true,
    }
}

/// Whether each step of a history is one that it can have.
pub open spec fn is_history(steps: Seq<BookStep>, dest: spec_fn(Seq<char>) -> Seq<char>) -> bool
    decreases steps.len(),
{
    steps.len() > 0 ==> is_history(steps.drop_last(), dest) && step_fits(
        books_after(steps.drop_last()),
        steps.last(),
        dest,
    )
}

/// The ids that were entered, each once.
spec fn opened(steps: Seq<BookStep>) -> Seq<Seq<char>>
    decreases steps.len(),
{
    if steps.len() == 0 {
        Seq::empty()
    } else {
        let before = opened(steps.drop_last());
        match steps.last() {
            BookStep::Open { id, .. } => if before.contains(id) {
                before
            } else {
                before.push(id)
            },
            _ => before,
        }
    }
}

spec fn sum_of(ids: Seq<Seq<char>>, f: spec_fn(Seq<char>) -> int) -> int
    decreases ids.len(),
{
    if ids.len() == 0 {
        0
    } else {
        sum_of(ids.drop_last(), f) + f(ids.last())
    }
}

proof fn lemma_sum_same(
    ids: Seq<Seq<char>>,
    f: spec_fn(Seq<char>) -> int,
    g: spec_fn(Seq<char>) -> int,
)
    requires
        forall|i: int| 0 <= i < ids.len() ==> f(#[trigger] ids[i]) == g(ids[i]),
    ensures
        sum_of(ids, f) == sum_of(ids, g),
    decreases ids.len(),
{
    if ids.len() > 0 {
        let front = ids.drop_last();
        assert forall|i: int| 0 <= i < front.len() implies f(#[trigger] front[i]) == g(front[i]) by {
            assert(front[i] == ids[i]);
        }
        lemma_sum_same(front, f, g);
        assert(ids.last() == ids[ids.len() - 1]);
    }
}

proof fn lemma_sum_change(
    ids: Seq<Seq<char>>,
    f: spec_fn(Seq<char>) -> int,
    g: spec_fn(Seq<char>) -> int,
    x: Seq<char>,
)
    requires
        ids.no_duplicates(),
        ids.contains(x),
        forall|i: int| 0 <= i < ids.len() && ids[i] != x ==> f(#[trigger] ids[i]) == g(ids[i]),
    ensures
        sum_of(ids, g) == sum_of(ids, f) - f(x) + g(x),
    decreases ids.len(),
{
    let front = ids.drop_last();
    let at = choose|i: int| 0 <= i < ids.len() && ids[i] == x;
    assert forall|i: int| 0 <= i < front.len() && front[i] != x implies f(#[trigger] front[i])
        == g(front[i]) by {
        assert(front[i] == ids[i]);
    }
    assert(front.no_duplicates());
    if at == ids.len() - 1 {
        assert forall|i: int| 0 <= i < front.len() implies f(#[trigger] front[i]) == g(front[i]) by {
            assert(front[i] == ids[i]);
        }
        lemma_sum_same(front, f, g);
    } else {
        assert(front[at] == x);
        lemma_sum_change(front, f, g, x);
        assert(ids.last() == ids[ids.len() - 1]);
    }
}

proof fn lemma_sum_bound(ids: Seq<Seq<char>>, f: spec_fn(Seq<char>) -> int)
    requires
        forall|id: Seq<char>| #[trigger] f(id) >= 0,
    ensures
        sum_of(ids, f) >= 0,
        forall|x: Seq<char>| ids.contains(x) ==> sum_of(ids, f) >= #[trigger] f(x),
    decreases ids.len(),
{
    if ids.len() > 0 {
        let front = ids.drop_last();
        lemma_sum_bound(front, f);
        assert forall|x: Seq<char>| ids.contains(x) implies sum_of(ids, f) >= #[trigger] f(x) by {
            let at = choose|i: int| 0 <= i < ids.len() && ids[i] == x;
            if at < ids.len() - 1 {
                assert(front[at] == x);
                assert(front.contains(x));
            }
            assert(f(ids.last()) >= 0);
        }
        assert(f(ids.last()) >= 0);
    }
}

/// What an open connection to a destination has carried.
spec fn waiting(
    b: BookView,
    dest: spec_fn(Seq<char>) -> Seq<char>,
    name: Seq<char>,
    up: bool,
) -> spec_fn(Seq<char>) -> int {
    |id: Seq<char>|
        if b.connections.contains_key(id) && dest(id) == name {
            carried(b.connections[id].tracker, up)
        } else {
            0
        }
}

/// What the open connections to a destination have carried.
spec fn pending(
    steps: Seq<BookStep>,
    dest: spec_fn(Seq<char>) -> Seq<char>,
    name: Seq<char>,
    up: bool,
) -> int {
    sum_of(opened(steps), waiting(books_after(steps), dest, name, up))
}

proof fn lemma_total(
    steps: Seq<BookStep>,
    dest: spec_fn(Seq<char>) -> Seq<char>,
    name: Seq<char>,
    up: bool,
)
    ensures
        0 <= counted_to(steps, dest, name, up) <= total_of(steps, up),
        steps.len() > 0 ==> total_of(steps.drop_last(), up) <= total_of(steps, up),
    decreases steps.len(),
{
    if steps.len() > 0 {
        lemma_total(steps.drop_last(), dest, name, up);
    }
}

proof fn lemma_entries(steps: Seq<BookStep>)
    ensures
        named_right(books_after(steps).destinations),
        forall|name: Seq<char>| #[trigger]
            books_after(steps).destinations.contains_key(name) ==> {
                let d = books_after(steps).destinations[name];
                d.upload > 0 || d.download > 0
            },
    decreases steps.len(),
{
    if steps.len() > 0 {
        lemma_entries(steps.drop_last());
    }
}

proof fn lemma_opened(steps: Seq<BookStep>)
    ensures
        opened(steps).no_duplicates(),
        forall|id: Seq<char>| #[trigger]
            books_after(steps).connections.contains_key(id) ==> opened(steps).contains(id),
    decreases steps.len(),
{
    if steps.len() > 0 {
        let front = steps.drop_last();
        lemma_opened(front);
        let before = opened(front);
        assert forall|id: Seq<char>| #[trigger]
            books_after(steps).connections.contains_key(id) implies opened(steps).contains(id) by {
            let had = books_after(front).connections.contains_key(id);
            assert(had ==> before.contains(id));
            if let BookStep::Open { id: new, .. } = steps.last() {
                if !before.contains(new) {
                    assert(before.push(new)[before.len() as int] == new);
                    if before.contains(id) {
                        let i = choose|i: int| 0 <= i < before.len() && before[i] == id;
                        assert(before.push(new)[i] == id);
                    }
                }
            }
        }
    }
}

proof fn lemma_balance(
    steps: Seq<BookStep>,
    dest: spec_fn(Seq<char>) -> Seq<char>,
    name: Seq<char>,
    up: bool,
)
    requires
        is_history(steps, dest),
        total_of(steps, up) <= u64::MAX,
    ensures
        drained(steps, name, up) >= 0,
        drained(steps, name, up) + on_the_books(books_after(steps), name, up) + pending(
            steps,
            dest,
            name,
            up,
        ) == counted_to(steps, dest, name, up),
    decreases steps.len(),
{
    lemma_total(steps, dest, name, up);
    if steps.len() > 0 {
        let front = steps.drop_last();
        let b = books_after(front);
        let c = books_after(steps);
        let f = waiting(b, dest, name, up);
        let g = waiting(c, dest, name, up);
        lemma_balance(front, dest, name, up);
        lemma_opened(front);
        lemma_opened(steps);
        lemma_sum_bound(opened(front), f);
        match steps.last() {
            BookStep::Open { id, record } => {
                assert(f(id) == 0);
                assert(g(id) == 0);
                lemma_sum_same(opened(front), f, g);
                if !opened(front).contains(id) {
                    assert(opened(steps).drop_last() =~= opened(front));
                }
            },
            BookStep::Count { id, upload, download } => {
                if b.connections.contains_key(id) {
                    assert(f(id) <= sum_of(opened(front), f));
                    lemma_sum_change(opened(front), f, g, id);
                } else {
                    lemma_sum_same(opened(front), f, g);
                }
            },
            BookStep::End { id, now, known } => {
                if b.connections.contains_key(id) {
                    assert(f(id) <= sum_of(opened(front), f));
                    lemma_sum_change(opened(front), f, g, id);
                } else {
                    lemma_sum_same(opened(front), f, g);
                }
            },
            BookStep::Drain => {
                lemma_sum_same(opened(front), f, g);
            },
        }
    }
}

/// No traffic is lost or counted twice. However connections are entered, count, are taken off once or
/// more than once, and destinations are drained: once every connection is off the books, what was
/// drained of a destination and what stands on the books for it add up to what its connections counted.
/// It stands there exactly if something is left to drain. The counters have to hold the sums.
pub proof fn law_no_traffic_is_lost(
    steps: Seq<BookStep>,
    dest: spec_fn(Seq<char>) -> Seq<char>,
    name: Seq<char>,
)
    requires
        is_history(steps, dest),
        total_of(steps, true) <= u64::MAX,
        total_of(steps, false) <= u64::MAX,
        books_after(steps).connections == Map::<Seq<char>, RecordView>::empty(),
    ensures
        ({
            let d = books_after(steps).destinations;
            let upload = counted_to(steps, dest, name, true) - drained(steps, name, true);
            let download = counted_to(steps, dest, name, false) - drained(steps, name, false);
            &&& d.contains_key(name) <==> upload > 0 || download > 0
            &&& d.contains_key(name) ==> {
                &&& d[name].domain == name
                &&& d[name].upload == upload
                &&& d[name].download == download
            }
            &&& upload >= 0 && download >= 0
        }),
{
    lemma_balance(steps, dest, name, true);
    lemma_balance(steps, dest, name, false);
    lemma_entries(steps);
    lemma_none_pending(steps, dest, name, true);
    lemma_none_pending(steps, dest, name, false);
}

proof fn lemma_none_pending(
    steps: Seq<BookStep>,
    dest: spec_fn(Seq<char>) -> Seq<char>,
    name: Seq<char>,
    up: bool,
)
    requires
        books_after(steps).connections == Map::<Seq<char>, RecordView>::empty(),
    ensures
        pending(steps, dest, name, up) == 0,
{
    let f = waiting(books_after(steps), dest, name, up);
    let zero = |id: Seq<char>| 0int;
    lemma_sum_same(opened(steps), f, zero);
    lemma_sum_zero(opened(steps), zero);
}

proof fn lemma_sum_zero(ids: Seq<Seq<char>>, f: spec_fn(Seq<char>) -> int)
    requires
        forall|id: Seq<char>| #[trigger] f(id) == 0,
    ensures
        sum_of(ids, f) == 0,
    decreases ids.len(),
{
    if ids.len() > 0 {
        lemma_sum_zero(ids.drop_last(), f);
        assert(f(ids.last()) == 0);
    }
}

/// Draining once every connection is off the books takes out all that was counted, and draining once
/// more takes out nothing.
pub proof fn law_drained_is_what_was_counted(
    steps: Seq<BookStep>,
    dest: spec_fn(Seq<char>) -> Seq<char>,
    name: Seq<char>,
    up: bool,
)
    requires
        is_history(steps, dest),
        total_of(steps, up) <= u64::MAX,
        books_after(steps).connections == Map::<Seq<char>, RecordView>::empty(),
    ensures
        drained(steps.push(BookStep::Drain), name, up) == counted_to(steps, dest, name, up),
        books_after(steps.push(BookStep::Drain)).destinations == Map::<
            Seq<char>,
            DestinationView,
        >::empty(),
{
    lemma_balance(steps, dest, name, up);
    lemma_none_pending(steps, dest, name, up);
    assert(steps.push(BookStep::Drain).drop_last() =~= steps);
}

proof fn lemma_nothing_drained(steps: Seq<BookStep>, name: Seq<char>, up: bool)
    requires
        forall|k: int| 0 <= k < steps.len() ==> !((#[trigger] steps[k]) is Drain),
    ensures
        drained(steps, name, up) == 0,
    decreases steps.len(),
{
    if steps.len() > 0 {
        let front = steps.drop_last();
        assert(!(steps[steps.len() - 1] is Drain));
        assert forall|k: int| 0 <= k < front.len() implies !((#[trigger] front[k]) is Drain) by {
            assert(front[k] == steps[k]);
        }
        lemma_nothing_drained(front, name, up);
    }
}

/// Once every connection is off the books, draining lists one entry for each destination of which
/// something is left to drain, in strictly ascending order of their names, with what was counted of it
/// and not drained before; where nothing was drained before, that is all that was counted. Draining at
/// once again lists nothing.
pub proof fn law_drain_lists_what_was_counted(
    steps: Seq<BookStep>,
    dest: spec_fn(Seq<char>) -> Seq<char>,
    first: Seq<DestinationView>,
    second: Seq<DestinationView>,
)
    requires
        is_history(steps, dest),
        total_of(steps, true) <= u64::MAX,
        total_of(steps, false) <= u64::MAX,
        books_after(steps).connections == Map::<Seq<char>, RecordView>::empty(),
        lists(books_after(steps).destinations, first),
        lists(books_after(steps.push(BookStep::Drain)).destinations, second),
    ensures
        second.len() == 0,
        forall|i: int, j: int|
            0 <= i < j < first.len() ==> text_le(
                (#[trigger] first[i]).domain,
                (#[trigger] first[j]).domain,
            ) && first[i].domain != first[j].domain,
        forall|i: int|
            0 <= i < first.len() ==> {
                let name = (#[trigger] first[i]).domain;
                &&& first[i].upload == left_to_drain(steps, dest, name, true)
                &&& first[i].download == left_to_drain(steps, dest, name, false)
            },
        forall|name: Seq<char>|
            (exists|i: int| 0 <= i < first.len() && (#[trigger] first[i]).domain == name)
                <==> #[trigger] left_to_drain(steps, dest, name, true) > 0 || left_to_drain(
                steps,
                dest,
                name,
                false,
            ) > 0,
        (forall|k: int| 0 <= k < steps.len() ==> !((#[trigger] steps[k]) is Drain)) ==> forall|
            name: Seq<char>,
            up: bool,
        | #[trigger] left_to_drain(steps, dest, name, up) == counted_to(steps, dest, name, up),
{
    let d = books_after(steps).destinations;
    assert(steps.push(BookStep::Drain).drop_last() =~= steps);
    if second.len() > 0 {
        assert(books_after(steps.push(BookStep::Drain)).destinations.contains_key(second[0].domain));
    }
    assert forall|i: int| 0 <= i < first.len() implies {
        let name = (#[trigger] first[i]).domain;
        &&& first[i].upload == left_to_drain(steps, dest, name, true)
        &&& first[i].download == left_to_drain(steps, dest, name, false)
    } by {
        law_no_traffic_is_lost(steps, dest, first[i].domain);
    }
    assert forall|name: Seq<char>|
        (exists|i: int| 0 <= i < first.len() && (#[trigger] first[i]).domain == name)
            <==> #[trigger] left_to_drain(steps, dest, name, true) > 0 || left_to_drain(
            steps,
            dest,
            name,
            false,
        ) > 0 by {
        law_no_traffic_is_lost(steps, dest, name);
        if d.contains_key(name) {
            let i = choose|i: int| 0 <= i < first.len() && (#[trigger] first[i]).domain == name;
            assert(first[i].domain == name);
        }
    }
    if forall|k: int| 0 <= k < steps.len() ==> !((#[trigger] steps[k]) is Drain) {
        assert forall|name: Seq<char>, up: bool| #[trigger]
            left_to_drain(steps, dest, name, up) == counted_to(steps, dest, name, up) by {
            lemma_nothing_drained(steps, name, up);
        }
    }
}

/// A connection to a named target ends at that target, whatever is known when it ends.
pub proof fn law_named_target_is_the_destination(c: ConnectionView, now: u64, known: Option<Seq<char>>)
    requires
        c.final_target is Domain,
        c.domain is None,
    ensures
        share_of(c, now, known).domain == c.final_target.text(),
{
}

} // verus!
