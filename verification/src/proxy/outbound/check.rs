//! A round of tests, after which a selector chooses anew.

use crate::api::core_api::{
    after_test, begin_test, get_outbound_info, report_in, testing, trace_result,
};
use crate::config::{copy_list, texts};
use crate::proxy::observe::{Observer, ObserverView};
use crate::proxy::outbound::selector::{reselected, switched, SelectorOutbound, Switch};
use crate::proxy::stats::PathState;
use vstd::prelude::*;

verus! {

/// A round of tests of the ways out that a selector chooses among.
#[derive(Debug)]
pub struct TestRound {
    /// The ways out, in the order of the selector.
    pub tags: Vec<String>,
    /// Whose test is not over.
    pub outstanding: Vec<bool>,
    /// The latencies that were found, by the place of the way out.
    pub results: Vec<(usize, i64)>,
}

/// The value of a round.
#[verifier::ext_equal]
pub struct RoundView {
    pub tags: Seq<Seq<char>>,
    pub outstanding: Seq<bool>,
    pub results: Seq<(usize, i64)>,
}

impl View for TestRound {
    type V = RoundView;

    open spec fn view(&self) -> RoundView {
        RoundView {
            tags: texts(self.tags@),
            outstanding: self.outstanding@,
            results: self.results@,
        }
    }
}

impl RoundView {
    /// Each way out is outstanding or not, and a latency belongs to one that is not.
    pub open spec fn wf(self) -> bool {
        &&& self.outstanding.len() == self.tags.len()
        &&& forall|k: int|
            0 <= k < self.results.len() ==> (#[trigger] self.results[k]).0 < self.tags.len()
                && !self.outstanding[self.results[k].0 as int]
    }

    /// Nothing is outstanding.
    pub open spec fn is_over(self) -> bool {
        forall|i: int| 0 <= i < self.outstanding.len() ==> !(#[trigger] self.outstanding[i])
    }

    /// Whether the way out at a place was found to answer.
    pub open spec fn answered(self, i: int) -> bool {
        exists|k: int| 0 <= k < self.results.len() && (#[trigger] self.results[k]).0 == i
    }
}

/// What happens to a round.
#[derive(Debug)]
pub enum RoundEvent {
    /// The test of the way out at a place is over: with this report, or without one, after so long.
    Finished {
        place: usize,
        body: Option<Vec<u8>>,
        elapsed_ms: u64,
        uplink: Option<PathState>,
        downlink: Option<PathState>,
    },
    /// The time for the round is up.
    TimedOut,
}

/// The value of a report.
pub open spec fn opt_body(body: Option<Vec<u8>>) -> Option<Seq<u8>> {
    match body {
        Some(b) => Some(b@),
        None => None,
    }
}

/// The observer once the first `n` ways out are being tested.
pub open spec fn all_testing(o: ObserverView, tags: Seq<Seq<char>>, n: int) -> ObserverView
    decreases n,
{
    if n <= 0 {
        o
    } else {
        testing(all_testing(o, tags, n - 1), tags[n - 1])
    }
}

/// The observer once the tests that are outstanding among the first `n` are given up.
pub open spec fn given_up(
    o: ObserverView,
    tags: Seq<Seq<char>>,
    outstanding: Seq<bool>,
    n: int,
) -> ObserverView
    decreases n,
{
    if n <= 0 {
        o
    } else {
        let before = given_up(o, tags, outstanding, n - 1);
        if outstanding[n - 1] {
            after_test(before, tags[n - 1], None, 0, None, None)
        } else {
            before
        }
    }
}

/// A round and the observer after an event.
pub open spec fn round_step(r: RoundView, o: ObserverView, event: RoundEvent) -> (
    RoundView,
    ObserverView,
) {
    match event {
        RoundEvent::Finished { place, body, elapsed_ms, uplink, downlink } => {
            if place < r.tags.len() && r.outstanding[place as int] {
                let found = trace_result(opt_body(body));
                let latency = (elapsed_ms / 2) as i64;
                (
                    RoundView {
                        outstanding: r.outstanding.update(place as int, false),
                        results: if found is Some {
                            r.results.push((place, latency))
                        } else {
                            r.results
                        },
                        ..r
                    },
                    after_test(o, r.tags[place as int], found, latency, uplink, downlink),
                )
            } else {
                (r, o)
            }
        },
        RoundEvent::TimedOut => (
            RoundView { outstanding: Seq::new(r.tags.len(), |i: int| false), ..r },
            given_up(o, r.tags, r.outstanding, r.tags.len() as int),
        ),
    }
}

impl SelectorOutbound {
    /// Begins a round of tests: from now on every way out is being tested.
    pub fn check_all(&self, observer: &mut Observer) -> (r: TestRound)
        requires
            old(observer).wf(),
        ensures
            final(observer).wf(),
            final(observer)@ == all_testing(
                old(observer)@,
                texts(self.outbound_tags@),
                self.outbound_tags@.len() as int,
            ),
            r@.wf(),
            r@.tags == texts(self.outbound_tags@),
            forall|i: int| 0 <= i < r@.tags.len() ==> #[trigger] r@.outstanding[i],
            r@.results.len() == 0,
    {
        let tags = copy_list(&self.outbound_tags);
        let mut outstanding: Vec<bool> = Vec::new();
        let mut i: usize = 0;
        while i < tags.len()
            invariant
                observer.wf(),
                i <= tags@.len(),
                texts(tags@) == texts(self.outbound_tags@),
                outstanding@.len() == i,
                forall|k: int| 0 <= k < i ==> #[trigger] outstanding@[k],
                observer@ == all_testing(old(observer)@, texts(tags@), i as int),
            decreases tags@.len() - i,
        {
            assert(texts(tags@)[i as int] == tags@[i as int]@);
            let _ = begin_test(observer, tags[i].as_str(), true);
            outstanding.push(true);
            i += 1;
        }
        assert(tags@.len() == texts(tags@).len());
        assert(self.outbound_tags@.len() == texts(self.outbound_tags@).len());
        TestRound { tags, outstanding, results: Vec::new() }
    }
}

impl TestRound {
    /// Takes in what happened; says whether the round is over.
    pub fn step(&mut self, observer: &mut Observer, event: RoundEvent) -> (over: bool)
        requires
            old(self)@.wf(),
            old(observer).wf(),
        ensures
            final(self)@.wf(),
            final(observer).wf(),
            (final(self)@, final(observer)@) == round_step(old(self)@, old(observer)@, event),
            over == final(self)@.is_over(),
    {
        let ghost before = self@;
        match event {
            RoundEvent::Finished { place, body, elapsed_ms, uplink, downlink } => {
                if place < self.tags.len() && self.outstanding[place] {
                    let reply: Result<Option<&[u8]>, String> = match &body {
                        Some(b) => Ok(Some(b.as_slice())),
                        None => Ok(None),
                    };
                    assert(report_in(reply) == opt_body(body));
                    assert(texts(self.tags@)[place as int] == self.tags@[place as int]@);
                    let info = get_outbound_info(
                        observer,
                        self.tags[place].as_str(),
                        reply,
                        elapsed_ms,
                        uplink,
                        downlink,
                    );
                    self.outstanding.set(place, false);
                    if let Ok(trace) = info {
                        let latency: i64 = trace.duration_ms as i64;
                        self.results.push((place, latency));
                    }
                }
            },
            RoundEvent::TimedOut => {
                let ghost o = observer@;
                let mut i: usize = 0;
                while i < self.tags.len()
                    invariant
                        observer.wf(),
                        i <= self.tags@.len(),
                        self.tags@ == old(self).tags@,
                        self.results@ == old(self).results@,
                        before == old(self)@,
                        before.wf(),
                        o == old(observer)@,
                        self.outstanding@.len() == self.tags@.len(),
                        forall|k: int| 0 <= k < i ==> !(#[trigger] self.outstanding@[k]),
                        forall|k: int|
                            i <= k < self.tags@.len() ==> (#[trigger] self.outstanding@[k])
                                == before.outstanding[k],
                        observer@ == given_up(o, before.tags, before.outstanding, i as int),
                    decreases self.tags@.len() - i,
                {
                    assert(before.tags[i as int] == self.tags@[i as int]@);
                    if self.outstanding[i] {
                        let _ = get_outbound_info(
                            observer,
                            self.tags[i].as_str(),
                            Ok(None),
                            0,
                            None,
                            None,
                        );
                        self.outstanding.set(i, false);
                    }
                    i += 1;
                }
                assert(self@.outstanding =~= Seq::new(before.tags.len(), |i: int| false));
            },
        }
        proof {
            assert forall|k: int| 0 <= k < self@.results.len() implies (#[trigger] self@.results[k]).0
                < self@.tags.len() && !self@.outstanding[self@.results[k].0 as int] by {
                if k < before.results.len() {
                    assert(self@.results[k] == before.results[k]);
                }
            }
        }
        self.is_over()
    }

    /// Whether nothing is outstanding.
    pub fn is_over(&self) -> (over: bool)
        ensures
            over == self@.is_over(),
    {
        let mut i: usize = 0;
        while i < self.outstanding.len()
            invariant
                i <= self.outstanding@.len(),
                forall|k: int| 0 <= k < i ==> !(#[trigger] self.outstanding@[k]),
            decreases self.outstanding@.len() - i,
        {
            if self.outstanding[i] {
                assert(self@.outstanding[i as int]);
                return false;
            }
            i += 1;
        }
        true
    }

    /// Lets the selector choose by the latencies that were found.
    pub fn reselect(&self, selector: &mut SelectorOutbound) -> (switch: Option<Switch>)
        requires
            self@.wf(),
            self.tags@.len() == old(selector).outbounds@.len(),
            old(selector).outbounds@.len() == old(selector).outbound_tags@.len(),
            old(selector).selected_index < old(selector).outbounds@.len(),
        ensures
            final(selector).same_settings(*old(selector)),
            (final(selector).selected_index, final(selector).has_completed_test) == reselected(
                old(selector).selector_type,
                old(selector).selected_index,
                old(selector).has_completed_test,
                old(selector).tolerance,
                self@.results,
            ),
            final(selector).selected_index < final(selector).outbounds@.len(),
            switched(*old(selector), *final(selector), switch),
    {
        proof {
            assert forall|k: int| 0 <= k < self.results@.len() implies (#[trigger] self.results@[k]).0
                < selector.outbounds@.len() by {
                assert(self@.results[k].0 < self@.tags.len());
            }
        }
        selector.reselect_node_by_info(&self.results)
    }
}

/// Whether the observer shows of every way out whose test is over what the selector chooses by: the
/// latency that was found, or else that there was no answer.
pub open spec fn shows(r: RoundView, o: ObserverView) -> bool {
    &&& forall|k: int|
        0 <= k < r.results.len() ==> {
            let tag = r.tags[(#[trigger] r.results[k]).0 as int];
            o.outbounds.contains_key(tag) ==> o.outbounds[tag].stats.latency_ms == r.results[k].1
                && !o.outbounds[tag].is_testing_trace
        }
    &&& forall|i: int|
        0 <= i < r.tags.len() && !(#[trigger] r.outstanding[i]) && !r.answered(i) ==> {
            let tag = r.tags[i];
            o.outbounds.contains_key(tag) ==> o.outbounds[tag].stats.latency_ms == -1
                && !o.outbounds[tag].is_testing_trace
        }
}

/// Whether no way out is listed twice.
pub open spec fn distinct_tags(tags: Seq<Seq<char>>) -> bool {
    forall|i: int, j: int| 0 <= i < j < tags.len() ==> (#[trigger] tags[i]) != (#[trigger] tags[j])
}

proof fn lemma_given_up(o: ObserverView, tags: Seq<Seq<char>>, outstanding: Seq<bool>, n: int)
    requires
        0 <= n <= tags.len(),
        outstanding.len() == tags.len(),
        distinct_tags(tags),
    ensures
        given_up(o, tags, outstanding, n).outbounds.dom() == o.outbounds.dom(),
        forall|i: int|
            0 <= i < tags.len() && o.outbounds.contains_key(#[trigger] tags[i]) ==> {
                let node = given_up(o, tags, outstanding, n).outbounds[tags[i]];
                if i < n && outstanding[i] {
                    node.stats.latency_ms == -1 && !node.is_testing_trace
                } else {
                    node == o.outbounds[tags[i]]
                }
            },
    decreases n,
{
    if n > 0 {
        lemma_given_up(o, tags, outstanding, n - 1);
        let before = given_up(o, tags, outstanding, n - 1);
        let after = given_up(o, tags, outstanding, n);
        assert(after.outbounds.dom() =~= o.outbounds.dom());
        assert forall|i: int|
            0 <= i < tags.len() && o.outbounds.contains_key(#[trigger] tags[i]) implies {
            let node = after.outbounds[tags[i]];
            if i < n && outstanding[i] {
                node.stats.latency_ms == -1 && !node.is_testing_trace
            } else {
                node == o.outbounds[tags[i]]
            }
        } by {
            if i != n - 1 {
                assert(tags[i] != tags[n - 1]);
                assert(after.outbounds[tags[i]] == before.outbounds[tags[i]]);
            }
        }
    }
}

/// What is shown after a round is what the selector chooses by: an event of a round keeps the two in
/// step, whatever happens and in whatever order, and so they agree on every way out once the round is
/// over.
pub proof fn law_choice_agrees_with_what_is_shown(r: RoundView, o: ObserverView, event: RoundEvent)
    requires
        r.wf(),
        distinct_tags(r.tags),
        shows(r, o),
    ensures
        ({
            let (s, p) = round_step(r, o, event);
            &&& s.wf()
            &&& s.tags == r.tags
            &&& shows(s, p)
        }),
{
    let (s, p) = round_step(r, o, event);
    match event {
        RoundEvent::Finished { place, body, elapsed_ms, uplink, downlink } => {
            if place < r.tags.len() && r.outstanding[place as int] {
                let at = place as int;
                let found = trace_result(opt_body(body));
                assert forall|k: int| 0 <= k < s.results.len() implies {
                    let tag = s.tags[(#[trigger] s.results[k]).0 as int];
                    p.outbounds.contains_key(tag) ==> p.outbounds[tag].stats.latency_ms
                        == s.results[k].1 && !p.outbounds[tag].is_testing_trace
                } by {
                    if k < r.results.len() {
                        assert(s.results[k] == r.results[k]);
                        let i = r.results[k].0 as int;
                        assert(!r.outstanding[i]);
                        assert(r.tags[i] != r.tags[at]);
                    }
                }
                assert forall|i: int|
                    0 <= i < s.tags.len() && !(#[trigger] s.outstanding[i]) && !s.answered(i) implies {
                    let tag = s.tags[i];
                    p.outbounds.contains_key(tag) ==> p.outbounds[tag].stats.latency_ms == -1
                        && !p.outbounds[tag].is_testing_trace
                } by {
                    if r.answered(i) {
                        let k = choose|k: int|
                            0 <= k < r.results.len() && (#[trigger] r.results[k]).0 == i;
                        assert(s.results[k].0 == i);
                        assert(s.answered(i));
                    }
                    if i == at {
                        if found is Some {
                            assert(s.results[r.results.len() as int].0 == i);
                            assert(s.answered(i));
                        }
                    } else {
                        assert(!r.outstanding[i]);
                        assert(r.tags[i] != r.tags[at]);
                    }
                }
            }
        },
        RoundEvent::TimedOut => {
            lemma_given_up(o, r.tags, r.outstanding, r.tags.len() as int);
            assert forall|k: int| 0 <= k < s.results.len() implies {
                let tag = s.tags[(#[trigger] s.results[k]).0 as int];
                p.outbounds.contains_key(tag) ==> p.outbounds[tag].stats.latency_ms == s.results[k].1
                    && !p.outbounds[tag].is_testing_trace
            } by {
                let i = r.results[k].0 as int;
                assert(!r.outstanding[i]);
                let tag = r.tags[i];
                assert(p.outbounds.contains_key(tag) == o.outbounds.contains_key(tag));
            }
            assert forall|i: int|
                0 <= i < s.tags.len() && !(#[trigger] s.outstanding[i]) && !s.answered(i) implies {
                let tag = s.tags[i];
                p.outbounds.contains_key(tag) ==> p.outbounds[tag].stats.latency_ms == -1
                    && !p.outbounds[tag].is_testing_trace
            } by {
                let tag = r.tags[i];
                assert(p.outbounds.contains_key(tag) == o.outbounds.contains_key(tag));
                assert(r.answered(i) == s.answered(i));
                if !r.outstanding[i] {
                    assert(!r.answered(i));
                }
            }
        },
    }
}

/// A round that has just begun shows nothing wrong: nothing in it is over.
pub proof fn law_new_round_agrees(r: RoundView, o: ObserverView)
    requires
        r.wf(),
        forall|i: int| 0 <= i < r.tags.len() ==> #[trigger] r.outstanding[i],
        r.results.len() == 0,
    ensures
        shows(r, o),
{
}

/// When the time is up, a round is over.
pub proof fn law_round_ends_in_time(r: RoundView, o: ObserverView)
    requires
        r.wf(),
    ensures
        round_step(r, o, RoundEvent::TimedOut).0.is_over(),
{
}

/// A test that was answered counts with half of the time that it took; one that was not answered does not
/// count. Either is over, and the others go on.
pub proof fn law_results_of_a_round(
    r: RoundView,
    o: ObserverView,
    place: usize,
    body: Option<Vec<u8>>,
    elapsed_ms: u64,
    uplink: Option<PathState>,
    downlink: Option<PathState>,
)
    requires
        place < r.tags.len(),
        r.tags.len() == r.outstanding.len(),
    ensures
        ({
            let after = round_step(
                r,
                o,
                RoundEvent::Finished { place, body, elapsed_ms, uplink, downlink },
            ).0;
            &&& r.outstanding[place as int] && trace_result(opt_body(body)) is Some ==> after.results
                == r.results.push((place, (elapsed_ms / 2) as i64))
            &&& r.outstanding[place as int] && trace_result(opt_body(body)) is None ==> after.results
                == r.results
            &&& !r.outstanding[place as int] ==> after == r
            &&& !after.outstanding[place as int]
            &&& forall|i: int|
                0 <= i < r.tags.len() && i != place ==> after.outstanding[i] == #[trigger] r.outstanding[i]
            &&& after.tags == r.tags
        }),
{
}

/// When a round runs out of time, what has been found stays, and the rest counts as not answered.
pub proof fn law_late_tests_do_not_count(r: RoundView, o: ObserverView)
    ensures
        round_step(r, o, RoundEvent::TimedOut).0.results == r.results,
        round_step(r, o, RoundEvent::TimedOut).0.tags == r.tags,
{
}

/// A round is over when no test is out, and as long as one is it goes on.
pub proof fn law_when_a_round_is_over(round: RoundView, i: int)
    ensures
        0 <= i < round.outstanding.len() && round.outstanding[i] ==> !round.is_over(),
        !round.outstanding.contains(true) ==> round.is_over(),
{
    if !round.outstanding.contains(true) {
        assert forall|k: int| 0 <= k < round.outstanding.len() implies !(
        #[trigger] round.outstanding[k]) by {
            if round.outstanding[k] {
                assert(round.outstanding.contains(true));
            }
        }
    }
}

} // verus!
