//! Selectors: ways out that hand connections to one of several others, chosen by hand or by
//! measured latency.

use crate::config::{copy_list, copy_opt, opt_text, secs_or, texts, OutboundConfig};
use crate::proxy::connections::{can_close, exactly};
use crate::proxy::observe::{Observer, ObserverView};
use crate::proxy::stats::{NodeView, Stats};
use crate::text::{copy_text, push_text, str_eq};
use crate::time::{secs, Duration};
use vstd::prelude::*;

verus! {

/// How long one round of measuring may take, in seconds.
pub const SELECTOR_TEST_ROUND_TIMEOUT: u64 = 10;

/// How a selector chooses.
#[derive(Debug, Clone, Copy, PartialEq, Eq, Structural)]
pub enum SelectorType {
    Manual,
    UrlTest,
}

/// One of the ways out that a selector chooses among: an ordinary one, or another selector, by its
/// place among all of them.
#[derive(Debug)]
pub enum Child {
    Leaf(String),
    Selector(usize),
}

/// A selector.
#[derive(Debug)]
pub struct SelectorOutbound {
    pub tag: String,
    pub selector_type: SelectorType,
    pub default_outbound: String,
    pub outbounds: Vec<Child>,
    pub outbound_tags: Vec<String>,
    pub selected_index: usize,
    pub has_completed_test: bool,
    pub interval: Duration,
    pub tolerance: u64,
    pub dns: Option<String>,
}

/// Why a selector's configuration is refused.
#[derive(Debug)]
pub enum SelectorError {
    /// A setting is missing.
    Missing(String),
    /// There is nothing to choose from.
    NoOutbound,
}

/// The complaint about a missing setting of a selector.
pub open spec fn selector_requires(tag: Seq<char>, what: Seq<char>) -> Seq<char> {
    "selector '"@ + tag + "' requires "@ + what
}

fn selector_complaint(tag: &str, what: &str) -> (e: String)
    ensures
        e@ == selector_requires(tag@, what@),
{
    let mut e = copy_text("selector '");
    push_text(&mut e, tag);
    push_text(&mut e, "' requires ");
    push_text(&mut e, what);
    e
}

/// Where a tag last occurs in a list; at the start, where it does not.
pub open spec fn last_place(list: Seq<Seq<char>>, tag: Seq<char>) -> int
    decreases list.len(),
{
    if list.len() == 0 {
        0
    } else if list.last() == tag {
        list.len() - 1
    } else {
        last_place(list.drop_last(), tag)
    }
}

/// Where a tag first occurs in a list; the length, where it does not.
pub open spec fn first_place(list: Seq<Seq<char>>, tag: Seq<char>) -> int
    decreases list.len(),
{
    if list.len() == 0 {
        0
    } else if list[0] == tag {
        0
    } else {
        1 + first_place(list.skip(1), tag)
    }
}

/// The way out that is selected at first: the stored one, if it is still there, else the default.
pub open spec fn initial_tag(
    list: Seq<Seq<char>>,
    default: Seq<char>,
    stored: Option<Seq<char>>,
) -> Seq<char> {
    match stored {
        Some(tag) => if list.contains(tag) {
            tag
        } else {
            default
        },
        None => default,
    }
}

/// The best of some measurements: the first with the shortest latency, leaving out those that failed.
pub open spec fn best(results: Seq<(usize, i64)>) -> Option<(usize, i64)>
    decreases results.len(),
{
    if results.len() == 0 {
        None
    } else {
        let before = best(results.drop_last());
        let last = results.last();
        if last.1 <= 0 {
            before
        } else {
            match before {
                Some(b) => if last.1 < b.1 {
                    Some(last)
                } else {
                    before
                },
                None => Some(last),
            }
        }
    }
}

/// The best latency measured for one way out.
pub open spec fn best_of(results: Seq<(usize, i64)>, index: usize) -> Option<i64>
    decreases results.len(),
{
    if results.len() == 0 {
        None
    } else {
        let before = best_of(results.drop_last(), index);
        let last = results.last();
        if last.0 != index || last.1 <= 0 {
            before
        } else {
            match before {
                Some(b) => if last.1 < b {
                    Some(last.1)
                } else {
                    before
                },
                None => Some(last.1),
            }
        }
    }
}

/// The latency up to which the present choice is good enough.
pub open spec fn tolerance_limit(least: i64, tolerance: u64) -> int {
    let t = if tolerance > i64::MAX {
        i64::MAX as int
    } else {
        tolerance as int
    };
    if least + t > i64::MAX {
        i64::MAX as int
    } else {
        least + t
    }
}

/// Which way out is selected after a round of measuring, and whether a round has succeeded.
pub open spec fn reselected(
    selector_type: SelectorType,
    selected: usize,
    completed: bool,
    tolerance: u64,
    results: Seq<(usize, i64)>,
) -> (usize, bool) {
    if selector_type != SelectorType::UrlTest {
        (selected, completed)
    } else {
        match best(results) {
            None => (selected, completed),
            Some((index, least)) => if !completed {
                (index, true)
            } else {
                match best_of(results, selected) {
                    Some(latency) => if latency <= tolerance_limit(least, tolerance) {
                        (selected, true)
                    } else {
                        (index, true)
                    },
                    None => (index, true),
                }
            },
        }
    }
}

fn find_best(results: &Vec<(usize, i64)>) -> (r: Option<(usize, i64)>)
    ensures
        r == best(results@),
{
    let mut found: Option<(usize, i64)> = None;
    let mut i: usize = 0;
    assert(results@.take(0) =~= Seq::<(usize, i64)>::empty());
    while i < results.len()
        invariant
            i <= results@.len(),
            found == best(results@.take(i as int)),
        decreases results@.len() - i,
    {
        let last: (usize, i64) = results[i];
        proof {
            assert(results@.take(i + 1).drop_last() =~= results@.take(i as int));
            assert(results@.take(i + 1).last() == last);
        }
        if last.1 > 0 {
            found = match found {
                Some(b) => {
                    if last.1 < b.1 {
                        Some(last)
                    } else {
                        Some(b)
                    }
                },
                None => Some(last),
            };
        }
        i += 1;
    }
    assert(results@.take(i as int) =~= results@);
    found
}

fn find_best_of(results: &Vec<(usize, i64)>, index: usize) -> (r: Option<i64>)
    ensures
        r == best_of(results@, index),
{
    let mut found: Option<i64> = None;
    let mut i: usize = 0;
    assert(results@.take(0) =~= Seq::<(usize, i64)>::empty());
    while i < results.len()
        invariant
            i <= results@.len(),
            found == best_of(results@.take(i as int), index),
        decreases results@.len() - i,
    {
        let last: (usize, i64) = results[i];
        proof {
            assert(results@.take(i + 1).drop_last() =~= results@.take(i as int));
            assert(results@.take(i + 1).last() == last);
        }
        if last.0 == index && last.1 > 0 {
            found = match found {
                Some(b) => {
                    if last.1 < b {
                        Some(last.1)
                    } else {
                        Some(b)
                    }
                },
                None => Some(last.1),
            };
        }
        i += 1;
    }
    assert(results@.take(i as int) =~= results@);
    found
}

/// A change of the selected way out: the one before and the one now, by their tags.
#[derive(Debug)]
pub struct Switch {
    pub from: String,
    pub to: String,
}

impl SelectorOutbound {
    /// There is something to choose from, a tag for each choice, and one of them is selected. Selectors
    /// among the choices come earlier than place `at`.
    pub open spec fn wf(self, at: int) -> bool {
        &&& self.outbounds@.len() == self.outbound_tags@.len()
        &&& self.selected_index < self.outbounds@.len()
        &&& forall|i: int|
            0 <= i < self.outbounds@.len() ==> ((#[trigger] self.outbounds@[i]) matches
                Child::Selector(j) ==> j < at)
    }

    /// Everything but the selection is the same.
    pub open spec fn same_settings(self, other: SelectorOutbound) -> bool {
        &&& self.tag == other.tag
        &&& self.selector_type == other.selector_type
        &&& self.default_outbound == other.default_outbound
        &&& self.outbounds == other.outbounds
        &&& self.outbound_tags == other.outbound_tags
        &&& self.interval == other.interval
        &&& self.tolerance == other.tolerance
        &&& self.dns == other.dns
    }

    /// A selector as configured. `stored` is the selection of an earlier run, `outbounds` are the ways
    /// out that the configured tags stand for.
    pub fn new(
        tag: String,
        cfg: &OutboundConfig,
        stored: Option<&str>,
        outbounds: Vec<Child>,
    ) -> (r: Result<SelectorOutbound, SelectorError>)
        requires
            cfg.outbounds matches Some(list) ==> outbounds@.len() == list@.len(),
        ensures
            match r {
                Ok(s) => {
                    &&& cfg.default_outbound is Some
                    &&& cfg.outbounds is Some
                    &&& outbounds@.len() > 0
                    &&& s.tag@ == tag@
                    &&& s.selector_type == if cfg.protocol_type@ == "urltest"@ {
                        SelectorType::UrlTest
                    } else {
                        SelectorType::Manual
                    }
                    &&& s.default_outbound@ == cfg.default_outbound->0@
                    &&& s.outbounds == outbounds
                    &&& texts(s.outbound_tags@) == texts(cfg.outbounds->0@)
                    &&& s.selected_index == last_place(
                        texts(cfg.outbounds->0@),
                        initial_tag(
                            texts(cfg.outbounds->0@),
                            cfg.default_outbound->0@,
                            crate::config::opt_str(stored),
                        ),
                    )
                    &&& s.selected_index < s.outbound_tags@.len()
                    &&& !s.has_completed_test
                    &&& s.interval == secs_or(cfg.interval, secs(3600))
                    &&& s.tolerance == if s.selector_type == SelectorType::Manual {
                        0
                    } else {
                        match cfg.tolerance {
                            Some(t) => t,
                            None => 50,
                        }
                    }
                    &&& opt_text(s.dns) == opt_text(cfg.dns)
                },
                Err(SelectorError::Missing(e)) => {
                    ||| cfg.default_outbound is None && e@ == selector_requires(
                        tag@,
                        "default_outbound"@,
                    )
                    ||| cfg.default_outbound is Some && cfg.outbounds is None && e@
                        == selector_requires(tag@, "outbounds"@)
                },
                Err(SelectorError::NoOutbound) => cfg.default_outbound is Some && cfg.outbounds
                    is Some && outbounds@.len() == 0,
            },
    {
        let default_outbound = match &cfg.default_outbound {
            None => {
                return Err(
                    SelectorError::Missing(selector_complaint(tag.as_str(), "default_outbound")),
                );
            },
            Some(d) => copy_text(d.as_str()),
        };
        let tags = match &cfg.outbounds {
            None => {
                return Err(SelectorError::Missing(selector_complaint(tag.as_str(), "outbounds")));
            },
            Some(list) => copy_list(list),
        };
        if outbounds.len() == 0 {
            return Err(SelectorError::NoOutbound);
        }
        let ghost all = texts(tags@);
        let chosen = match stored {
            Some(name) => {
                if contains_tag(&tags, name) {
                    copy_text(name)
                } else {
                    copy_text(default_outbound.as_str())
                }
            },
            None => copy_text(default_outbound.as_str()),
        };
        let mut selected_index: usize = 0;
        let mut i: usize = 0;
        assert(all.take(0) =~= Seq::<Seq<char>>::empty());
        while i < tags.len()
            invariant
                i <= tags@.len(),
                all == texts(tags@),
                selected_index == last_place(all.take(i as int), chosen@),
                selected_index == 0 || selected_index < i,
            decreases tags@.len() - i,
        {
            proof {
                assert(all.take(i + 1).drop_last() =~= all.take(i as int));
                assert(all.take(i + 1).last() == tags@[i as int]@);
            }
            if str_eq(chosen.as_str(), tags[i].as_str()) {
                selected_index = i;
            }
            i += 1;
        }
        assert(all.take(i as int) =~= all);
        let selector_type = if str_eq(cfg.protocol_type.as_str(), "urltest") {
            SelectorType::UrlTest
        } else {
            SelectorType::Manual
        };
        let tolerance: u64 = match selector_type {
            SelectorType::Manual => 0,
            SelectorType::UrlTest => match cfg.tolerance {
                Some(t) => t,
                None => 50,
            },
        };
        Ok(
            SelectorOutbound {
                tag,
                selector_type,
                default_outbound,
                outbounds,
                outbound_tags: tags,
                selected_index,
                has_completed_test: false,
                interval: crate::config::duration_from_secs_or(
                    cfg.interval,
                    Duration::from_secs(3600),
                ),
                tolerance,
                dns: copy_opt(&cfg.dns),
            },
        )
    }

    /// How often latencies are measured.
    pub fn test_interval(&self) -> (d: Duration)
        ensures
            d == self.interval,
    {
        self.interval
    }

    /// The protocol name of the selector.
    pub fn protocol(&self) -> (name: &'static str)
        ensures
            name@ == match self.selector_type {
                SelectorType::Manual => "selector"@,
                SelectorType::UrlTest => "urltest"@,
            },
    {
        match self.selector_type {
            SelectorType::Manual => "selector",
            SelectorType::UrlTest => "urltest",
        }
    }

    /// Chooses anew by measured latencies, where the selector does that. Measurements name ways out by
    /// their place.
    pub fn reselect_node_by_info(&mut self, results: &Vec<(usize, i64)>) -> (switch: Option<Switch>)
        requires
            old(self).outbounds@.len() == old(self).outbound_tags@.len(),
            old(self).selected_index < old(self).outbounds@.len(),
            forall|i: int|
                0 <= i < results@.len() ==> (#[trigger] results@[i]).0 < old(self).outbounds@.len(),
        ensures
            final(self).same_settings(*old(self)),
            (final(self).selected_index, final(self).has_completed_test) == reselected(
                old(self).selector_type,
                old(self).selected_index,
                old(self).has_completed_test,
                old(self).tolerance,
                results@,
            ),
            final(self).selected_index < final(self).outbounds@.len(),
            switched(*old(self), *final(self), switch),
    {
        if self.selector_type != SelectorType::UrlTest {
            return None;
        }
        let (index, least): (usize, i64) = match find_best(results) {
            None => {
                return None;
            },
            Some(b) => b,
        };
        proof {
            lemma_best(results@);
        }
        let first = !self.has_completed_test;
        self.has_completed_test = true;
        let chosen: usize = if first {
            index
        } else {
            let current: usize = self.selected_index;
            let tolerance: i64 = if self.tolerance > i64::MAX as u64 {
                i64::MAX
            } else {
                self.tolerance as i64
            };
            let limit: i64 = if least > i64::MAX - tolerance {
                i64::MAX
            } else {
                least + tolerance
            };
            match find_best_of(results, current) {
                Some(latency) => {
                    if latency <= limit {
                        current
                    } else {
                        index
                    }
                },
                None => index,
            }
        };
        self.update_selected_by_index(chosen)
    }

    /// The tag of the selected way out.
    pub fn get_selected_tag(&self) -> (tag: Option<&str>)
        ensures
            match tag {
                Some(t) => self.selected_index < self.outbound_tags@.len() && t@
                    == self.outbound_tags@[self.selected_index as int]@,
                None => self.selected_index >= self.outbound_tags@.len(),
            },
    {
        if self.selected_index < self.outbound_tags.len() {
            Some(self.outbound_tags[self.selected_index].as_str())
        } else {
            None
        }
    }

    /// The tags of all ways out to choose from.
    pub fn get_outbound_tags(&self) -> (tags: Vec<String>)
        ensures
            texts(tags@) == texts(self.outbound_tags@),
    {
        copy_list(&self.outbound_tags)
    }

    /// Selects a way out by its tag. `None` means that there is none of that tag.
    pub fn select_by_tag(&mut self, tag: &str) -> (r: Option<Option<Switch>>)
        requires
            old(self).outbounds@.len() == old(self).outbound_tags@.len(),
            old(self).selected_index < old(self).outbounds@.len(),
        ensures
            final(self).same_settings(*old(self)),
            final(self).has_completed_test == old(self).has_completed_test,
            r is Some <==> texts(old(self).outbound_tags@).contains(tag@),
            r is None ==> final(self).selected_index == old(self).selected_index,
            r matches Some(switch) ==> final(self).selected_index == first_place(
                texts(old(self).outbound_tags@),
                tag@,
            ) && switched(*old(self), *final(self), switch),
            final(self).selected_index < final(self).outbounds@.len(),
    {
        let ghost all = texts(self.outbound_tags@);
        let mut i: usize = 0;
        assert(all.skip(0) =~= all);
        while i < self.outbound_tags.len()
            invariant
                i <= self.outbound_tags@.len(),
                *self == *old(self),
                self.outbounds@.len() == self.outbound_tags@.len(),
                self.selected_index < self.outbounds@.len(),
                all == texts(self.outbound_tags@),
                first_place(all, tag@) == i + first_place(all.skip(i as int), tag@),
                forall|k: int| 0 <= k < i ==> #[trigger] all[k] != tag@,
            decreases self.outbound_tags@.len() - i,
        {
            assert(all.skip(i as int)[0] == self.outbound_tags@[i as int]@);
            if str_eq(self.outbound_tags[i].as_str(), tag) {
                assert(all[i as int] == tag@);
                return Some(self.update_selected_by_index(i));
            }
            assert(all.skip(i as int).skip(1) =~= all.skip(i + 1));
            i += 1;
        }
        None
    }

    fn update_selected_by_index(&mut self, new_idx: usize) -> (switch: Option<Switch>)
        requires
            new_idx < old(self).outbound_tags@.len(),
            old(self).selected_index < old(self).outbound_tags@.len(),
        ensures
            final(self).same_settings(*old(self)),
            final(self).has_completed_test == old(self).has_completed_test,
            final(self).selected_index == new_idx,
            switched(*old(self), *final(self), switch),
    {
        let old_idx: usize = self.selected_index;
        self.selected_index = new_idx;
        if old_idx == new_idx {
            return None;
        }
        Some(
            Switch {
                from: copy_text(self.outbound_tags[old_idx].as_str()),
                to: copy_text(self.outbound_tags[new_idx].as_str()),
            },
        )
    }

    /// The way out for attempt `i` at a connection: a selector that chooses by hand makes one attempt,
    /// one that measures tries each way out in turn, from the selected one on.
    pub fn attempt(&self, i: usize) -> (index: Option<usize>)
        requires
            self.outbounds@.len() > 0,
            self.selected_index < self.outbounds@.len(),
        ensures
            index == attempt_at(
                self.selector_type,
                self.selected_index as int,
                i as int,
                self.outbounds@.len() as int,
            ),
    {
        let count: usize = self.outbounds.len();
        match self.selector_type {
            SelectorType::Manual => {
                if i == 0 {
                    Some(self.selected_index)
                } else {
                    None
                }
            },
            SelectorType::UrlTest => {
                if i >= count {
                    return None;
                }
                let left: usize = count - self.selected_index;
                if i < left {
                    Some(self.selected_index + i)
                } else {
                    Some(i - left)
                }
            },
        }
    }

    /// Notes that a connection was made through way out `index`.
    pub fn connected(&mut self, index: usize) -> (switch: Option<Switch>)
        requires
            old(self).outbounds@.len() == old(self).outbound_tags@.len(),
            old(self).selected_index < old(self).outbounds@.len(),
            index < old(self).outbounds@.len(),
        ensures
            final(self).same_settings(*old(self)),
            final(self).has_completed_test == old(self).has_completed_test,
            final(self).selected_index == if old(self).selector_type == SelectorType::UrlTest {
                index
            } else {
                old(self).selected_index
            },
            switched(*old(self), *final(self), switch),
    {
        match self.selector_type {
            SelectorType::Manual => None,
            SelectorType::UrlTest => self.update_selected_by_index(index),
        }
    }
}

/// What has to be reported of a change: nothing, if nothing changed, else both tags.
pub open spec fn switched(before: SelectorOutbound, after: SelectorOutbound, switch: Option<Switch>) -> bool {
    match switch {
        None => before.selected_index == after.selected_index,
        Some(s) => before.selected_index != after.selected_index && s.from@
            == before.outbound_tags@[before.selected_index as int]@ && s.to@
            == before.outbound_tags@[after.selected_index as int]@,
    }
}

/// The way out for attempt `i` at a connection.
pub open spec fn attempt_at(
    selector_type: SelectorType,
    start: int,
    i: int,
    count: int,
) -> Option<usize> {
    match selector_type {
        SelectorType::Manual => if i == 0 {
            Some(start as usize)
        } else {
            None
        },
        SelectorType::UrlTest => if i >= count {
            None
        } else if start + i < count {
            Some((start + i) as usize)
        } else {
            Some((start + i - count) as usize)
        },
    }
}

fn contains_tag(tags: &Vec<String>, tag: &str) -> (r: bool)
    ensures
        r == texts(tags@).contains(tag@),
{
    let ghost all = texts(tags@);
    let mut i: usize = 0;
    while i < tags.len()
        invariant
            i <= tags@.len(),
            all == texts(tags@),
            forall|k: int| 0 <= k < i ==> #[trigger] all[k] != tag@,
        decreases tags@.len() - i,
    {
        assert(all[i as int] == tags@[i as int]@);
        if str_eq(tags[i].as_str(), tag) {
            return true;
        }
        i += 1;
    }
    false
}

proof fn lemma_best(results: Seq<(usize, i64)>)
    ensures
        best(results) matches Some(b) ==> b.1 > 0 && results.contains(b),
        best(results) is None ==> forall|i: int|
            0 <= i < results.len() ==> (#[trigger] results[i]).1 <= 0,
        best(results) matches Some(b) ==> forall|i: int|
            0 <= i < results.len() && (#[trigger] results[i]).1 > 0 ==> b.1 <= results[i].1,
    decreases results.len(),
{
    if results.len() > 0 {
        let rest = results.drop_last();
        lemma_best(rest);
        match best(rest) {
            Some(b) => {
                let k = choose|k: int| 0 <= k < rest.len() && rest[k] == b;
                assert(results[k] == b);
            },
            None => {},
        }
        assert(results[results.len() - 1] == results.last());
        assert forall|i: int| 0 <= i < rest.len() implies results[i] == rest[i] by {}
    }
}

/// A selector that measures ends up, after a round in which some way out answered, with one that did;
/// and with none that is slower than the fastest by more than the tolerance.
pub proof fn law_selection_is_fast_enough(
    selected: usize,
    completed: bool,
    tolerance: u64,
    results: Seq<(usize, i64)>,
)
    requires
        best(results) is Some,
    ensures
        ({
            let (index, done) = reselected(
                SelectorType::UrlTest,
                selected,
                completed,
                tolerance,
                results,
            );
            &&& done
            &&& best_of(results, index) matches Some(latency)
            &&& latency <= tolerance_limit((best(results)->0).1, tolerance)
        }),
{
    lemma_best(results);
    let b = best(results)->0;
    lemma_best_of(results, b.0, b.1);
}

proof fn lemma_best_of(results: Seq<(usize, i64)>, index: usize, latency: i64)
    requires
        latency > 0,
        results.contains((index, latency)),
    ensures
        best_of(results, index) matches Some(l) && l <= latency,
    decreases results.len(),
{
    let rest = results.drop_last();
    let k = choose|k: int| 0 <= k < results.len() && results[k] == (index, latency);
    if k < rest.len() {
        assert(rest[k] == (index, latency));
        lemma_best_of(rest, index, latency);
    }
}

/// A selector that is set by hand is not changed by measurements, and a round that nobody answered
/// changes nothing either.
pub proof fn law_no_answer_no_change(
    selector_type: SelectorType,
    selected: usize,
    completed: bool,
    tolerance: u64,
    results: Seq<(usize, i64)>,
)
    requires
        selector_type == SelectorType::Manual || forall|i: int|
            0 <= i < results.len() ==> (#[trigger] results[i]).1 <= 0,
    ensures
        reselected(selector_type, selected, completed, tolerance, results) == (selected, completed),
{
    lemma_best(results);
    if selector_type != SelectorType::Manual && best(results) is Some {
        let b = best(results)->0;
        let k = choose|k: int| 0 <= k < results.len() && results[k] == b;
        assert(results[k].1 <= 0);
    }
}

/// Trying in turn reaches every way out once.
pub proof fn law_attempts_reach_all(start: int, count: int, index: int)
    requires
        0 <= start < count <= usize::MAX,
        0 <= index < count,
    ensures
        exists|i: int|
            0 <= i < count && #[trigger] attempt_at(SelectorType::UrlTest, start, i, count) == Some(
                index as usize,
            ),
        forall|i: int, j: int|
            0 <= i < j < count ==> #[trigger] attempt_at(SelectorType::UrlTest, start, i, count)
                != #[trigger] attempt_at(SelectorType::UrlTest, start, j, count),
{
    let i = if index >= start {
        index - start
    } else {
        index - start + count
    };
    assert(attempt_at(SelectorType::UrlTest, start, i, count) == Some(index as usize));
}

/// The observer after a selector took over what is known of the way out that it uses.
pub open spec fn passed_on(o: ObserverView, selector: Seq<char>, leaf: Seq<char>) -> ObserverView {
    if o.outbounds.contains_key(selector) {
        ObserverView {
            outbounds: o.outbounds.insert(
                selector,
                NodeView {
                    stats: Stats {
                        latency_ms: o.outbounds[leaf].stats.latency_ms,
                        ..o.outbounds[selector].stats
                    },
                    trace: o.outbounds[leaf].trace,
                    ..o.outbounds[selector]
                },
            ),
            ..o
        }
    } else {
        o
    }
}

/// Reports that a selector switched: it takes over what is known of the way out that it uses now. The
/// connections through the selector have to be closed.
pub fn report_switch(observer: &mut Observer, selector: &SelectorOutbound) -> (ids: Vec<String>)
    requires
        old(observer).wf(),
        selector.selected_index < selector.outbound_tags@.len(),
    ensures
        final(observer).wf(),
        ({
            let selected = selector.outbound_tags@[selector.selected_index as int]@;
            final(observer)@ == if old(observer)@.outbounds.contains_key(selected) {
                passed_on(old(observer)@, selector.tag@, selected)
            } else {
                old(observer)@
            }
        }),
        exactly(
            texts(ids@),
            |id: Seq<char>|
                can_close(old(observer)@.book.connections, id) && old(
                    observer,
                )@.book.connections[id].tracker.uses(selector.tag@),
        ),
{
    let selected = copy_text(selector.outbound_tags[selector.selected_index].as_str());
    let latency: Option<i64> = match observer.get_outbound_stats(selected.as_str()) {
        Some(node) => Some(node.stats.latency_ms),
        None => None,
    };
    match (latency, observer.get_outbound_trace(selected.as_str())) {
        (Some(latency), Some(trace)) => {
            observer.update_outbound_trace(
                selector.tag.as_str(),
                latency,
                trace.ip,
                trace.loc,
                trace.uplink_path_stats,
                trace.downlink_path_stats,
            );
            assert(observer@ =~= passed_on(old(observer)@, selector.tag@, selected@));
        },
        _ => {},
    }
    observer.book.kill_connections_by_outbound(selector.tag.as_str())
}

/// All selectors, each after those that it chooses among.
#[derive(Debug)]
pub struct Selectors {
    pub list: Vec<SelectorOutbound>,
}

/// The way from a selector through those that it selects to the way out that is really taken.
pub open spec fn active_path(list: Seq<SelectorOutbound>, at: int) -> Seq<Seq<char>>
    decreases at,
{
    if at < 0 || at >= list.len() {
        Seq::empty()
    } else {
        let s = list[at];
        seq![s.tag@] + (match s.outbounds@[s.selected_index as int] {
            Child::Leaf(tag) => seq![tag@],
            Child::Selector(j) => if j < at {
                active_path(list, j as int)
            } else {
                Seq::empty()
            },
        })
    }
}

/// The tag of the way out that is really taken.
pub open spec fn effective_tag(list: Seq<SelectorOutbound>, at: int) -> Seq<char>
    decreases at,
{
    if at < 0 || at >= list.len() {
        Seq::empty()
    } else {
        let s = list[at];
        match s.outbounds@[s.selected_index as int] {
            Child::Leaf(tag) => s.outbound_tags@[s.selected_index as int]@,
            Child::Selector(j) => if j < at {
                effective_tag(list, j as int)
            } else {
                Seq::empty()
            },
        }
    }
}

impl Selectors {
    /// Each selector is in order, and comes after those that it chooses among.
    pub open spec fn wf(self) -> bool {
        forall|i: int| 0 <= i < self.list@.len() ==> (#[trigger] self.list@[i]).wf(i)
    }

    /// The way from a selector to the way out that is really taken.
    pub fn get_active_outbound_tags(&self, at: usize) -> (tags: Vec<String>)
        requires
            self.wf(),
            at < self.list@.len(),
        ensures
            texts(tags@) == active_path(self.list@, at as int),
    {
        let mut tags: Vec<String> = Vec::new();
        let mut here: usize = at;
        assert(texts(tags@) + active_path(self.list@, at as int) =~= active_path(
            self.list@,
            at as int,
        ));
        loop
            invariant
                self.wf(),
                here < self.list@.len(),
                texts(tags@) + active_path(self.list@, here as int) == active_path(
                    self.list@,
                    at as int,
                ),
            decreases here,
        {
            let s = &self.list[here];
            assert(self.list@[here as int].wf(here as int));
            let ghost before = texts(tags@);
            let ghost path = active_path(self.list@, here as int);
            tags.push(copy_text(s.tag.as_str()));
            assert(texts(tags@) =~= before.push(s.tag@));
            match &s.outbounds[s.selected_index] {
                Child::Leaf(tag) => {
                    let ghost mid = texts(tags@);
                    tags.push(copy_text(tag.as_str()));
                    proof {
                        assert(texts(tags@) =~= mid.push(tag@));
                        assert(path == seq![s.tag@] + seq![tag@]);
                        assert(texts(tags@) =~= before + path);
                    }
                    return tags;
                },
                Child::Selector(j) => {
                    let next: usize = *j;
                    proof {
                        assert(path == seq![s.tag@] + active_path(self.list@, next as int));
                        assert(texts(tags@) + active_path(self.list@, next as int) =~= before
                            + path);
                    }
                    here = next;
                },
            }
        }
    }

    /// The tag of the way out that is really taken.
    pub fn get_effective_tag(&self, at: usize) -> (tag: String)
        requires
            self.wf(),
            at < self.list@.len(),
        ensures
            tag@ == effective_tag(self.list@, at as int),
    {
        let mut here: usize = at;
        loop
            invariant
                self.wf(),
                here < self.list@.len(),
                effective_tag(self.list@, here as int) == effective_tag(self.list@, at as int),
            decreases here,
        {
            let s = &self.list[here];
            assert(self.list@[here as int].wf(here as int));
            match &s.outbounds[s.selected_index] {
                Child::Leaf(_) => {
                    return copy_text(s.outbound_tags[s.selected_index].as_str());
                },
                Child::Selector(j) => {
                    here = *j;
                },
            }
        }
    }
}

/// The way to the way out that is really taken starts at the selector, and ends with the tag that the
/// selector is really using, where ways out are listed under their own tags.
pub proof fn law_path_ends_at_the_leaf(list: Seq<SelectorOutbound>, at: int)
    requires
        0 <= at < list.len(),
        forall|i: int| 0 <= i < list.len() ==> (#[trigger] list[i]).wf(i),
        forall|i: int, k: int|
            0 <= i < list.len() && 0 <= k < list[i].outbounds@.len() ==> ((
            #[trigger] list[i].outbounds@[k]) matches Child::Leaf(tag) ==> tag@
                == list[i].outbound_tags@[k]@),
    ensures
        active_path(list, at).len() >= 2,
        active_path(list, at)[0] == list[at].tag@,
        active_path(list, at).last() == effective_tag(list, at),
    decreases at,
{
    let s = list[at];
    assert(s.wf(at));
    let k = s.selected_index as int;
    match s.outbounds@[k] {
        Child::Leaf(tag) => {
            assert(list[at].outbounds@[k] == Child::Leaf(tag));
        },
        Child::Selector(j) => {
            law_path_ends_at_the_leaf(list, j as int);
        },
    }
}

/// The best result of a test is the first of the fastest answers; where nothing answered there is none.
pub proof fn law_best_is_the_fastest(results: Seq<(usize, i64)>)
    ensures
        best(results) is None <==> forall|i: int|
            0 <= i < results.len() ==> (#[trigger] results[i]).1 <= 0,
        best(results) matches Some(b) ==> b.1 > 0 && exists|k: int|
            0 <= k < results.len() && #[trigger] results[k] == b && (forall|i: int|
                0 <= i < results.len() && (#[trigger] results[i]).1 > 0 ==> b.1 <= results[i].1) && (
            forall|i: int| 0 <= i < k && (#[trigger] results[i]).1 > 0 ==> b.1 < results[i].1),
    decreases results.len(),
{
    if results.len() > 0 {
        let rest = results.drop_last();
        law_best_is_the_fastest(rest);
        let last = results.len() - 1;
        assert(results.last() == results[last]);
        assert forall|i: int| 0 <= i < rest.len() implies rest[i] == #[trigger] results[i] by {}
        if best(rest) is Some {
            let b = best(rest)->0;
            let k = choose|k: int|
                0 <= k < rest.len() && #[trigger] rest[k] == b && (forall|i: int|
                    0 <= i < rest.len() && (#[trigger] rest[i]).1 > 0 ==> b.1 <= rest[i].1) && (
                forall|i: int| 0 <= i < k && (#[trigger] rest[i]).1 > 0 ==> b.1 < rest[i].1);
            assert(results[k] == b);
            assert(rest[k].1 > 0);
            assert forall|i: int| 0 <= i < rest.len() && (#[trigger] results[i]).1 > 0 implies b.1
                <= results[i].1 by {
                assert(rest[i] == results[i]);
            }
            assert forall|i: int| 0 <= i < k && (#[trigger] results[i]).1 > 0 implies b.1
                < results[i].1 by {
                assert(rest[i] == results[i]);
            }
            if results[last].1 > 0 && results[last].1 < b.1 {
                assert(best(results) == Some(results[last]));
            } else {
                assert(best(results) == Some(b));
            }
        } else {
            assert forall|i: int| 0 <= i < rest.len() implies (#[trigger] results[i]).1 <= 0 by {
                assert(rest[i].1 <= 0);
            }
        }
    }
}

/// The latency of one way out is the least that it answered with; there is none where it did not answer.
pub proof fn law_latency_of_one(results: Seq<(usize, i64)>, index: usize)
    ensures
        best_of(results, index) is None <==> forall|i: int|
            0 <= i < results.len() && (#[trigger] results[i]).0 == index ==> results[i].1 <= 0,
        best_of(results, index) matches Some(l) ==> l > 0 && results.contains((index, l)) && forall|i: int|
            0 <= i < results.len() && (#[trigger] results[i]).0 == index && results[i].1 > 0 ==> l
                <= results[i].1,
    decreases results.len(),
{
    if results.len() > 0 {
        let rest = results.drop_last();
        law_latency_of_one(rest, index);
        let last = results.len() - 1;
        assert(results.last() == results[last]);
        assert forall|i: int| 0 <= i < rest.len() implies rest[i] == #[trigger] results[i] by {}
        if let Some(l) = best_of(rest, index) {
            let k = choose|k: int| 0 <= k < rest.len() && rest[k] == (index, l);
            assert(results[k] == (index, l));
        }
    }
}

/// A test moves a selection only where that pays: the first test takes the fastest; after that the
/// selection stays while its own latency is within the tolerance of the fastest, and else moves there.
pub proof fn law_when_the_selection_moves(
    selected: usize,
    tolerance: u64,
    results: Seq<(usize, i64)>,
    fastest: (usize, i64),
)
    requires
        best(results) == Some(fastest),
    ensures
        reselected(SelectorType::UrlTest, selected, false, tolerance, results) == (fastest.0, true),
        best_of(results, selected) is None ==> reselected(
            SelectorType::UrlTest,
            selected,
            true,
            tolerance,
            results,
        ) == (fastest.0, true),
        best_of(results, selected) matches Some(latency) ==> {
            let r = reselected(SelectorType::UrlTest, selected, true, tolerance, results);
            &&& latency <= fastest.1 + tolerance ==> r == (selected, true)
            &&& latency > fastest.1 + tolerance ==> r == (fastest.0, true)
        },
{
    law_best_is_the_fastest(results);
}

/// A tag is found at its first place, or from behind at its last.
pub proof fn law_places_of_a_tag(list: Seq<Seq<char>>, tag: Seq<char>)
    requires
        list.contains(tag),
    ensures
        0 <= first_place(list, tag) < list.len(),
        list[first_place(list, tag)] == tag,
        forall|i: int| 0 <= i < first_place(list, tag) ==> #[trigger] list[i] != tag,
        0 <= last_place(list, tag) < list.len(),
        list[last_place(list, tag)] == tag,
        forall|i: int| last_place(list, tag) < i < list.len() ==> #[trigger] list[i] != tag,
{
    lemma_first_place(list, tag);
    lemma_last_place(list, tag);
}

proof fn lemma_first_place(list: Seq<Seq<char>>, tag: Seq<char>)
    requires
        list.contains(tag),
    ensures
        0 <= first_place(list, tag) < list.len(),
        list[first_place(list, tag)] == tag,
        forall|i: int| 0 <= i < first_place(list, tag) ==> #[trigger] list[i] != tag,
    decreases list.len(),
{
    let k = choose|k: int| 0 <= k < list.len() && list[k] == tag;
    if list[0] != tag {
        let rest = list.skip(1);
        assert(rest[k - 1] == tag);
        lemma_first_place(rest, tag);
        assert forall|i: int| 0 <= i < first_place(list, tag) implies #[trigger] list[i] != tag by {
            if i > 0 {
                assert(rest[i - 1] != tag);
            }
        }
    }
}

proof fn lemma_last_place(list: Seq<Seq<char>>, tag: Seq<char>)
    requires
        list.contains(tag),
    ensures
        0 <= last_place(list, tag) < list.len(),
        list[last_place(list, tag)] == tag,
        forall|i: int| last_place(list, tag) < i < list.len() ==> #[trigger] list[i] != tag,
    decreases list.len(),
{
    let k = choose|k: int| 0 <= k < list.len() && list[k] == tag;
    if list.last() != tag {
        let rest = list.drop_last();
        assert(rest[k] == tag);
        lemma_last_place(rest, tag);
        assert forall|i: int| last_place(list, tag) < i < list.len() implies #[trigger] list[i] != tag by {
            if i < rest.len() {
                assert(rest[i] != tag);
            }
        }
    }
}

/// A selector starts with what was selected in an earlier run, if that is still listed, and else with the
/// default.
pub proof fn law_selection_is_remembered(
    list: Seq<Seq<char>>,
    default: Seq<char>,
    stored: Seq<char>,
    i: int,
)
    ensures
        0 <= i < list.len() && list[i] == stored ==> initial_tag(list, default, Some(stored)) == stored,
        (forall|k: int| 0 <= k < list.len() ==> #[trigger] list[k] != stored) ==> initial_tag(
            list,
            default,
            Some(stored),
        ) == default,
        initial_tag(list, default, None) == default,
{
}

/// A connection is tried by the selected way out first. A selector that is switched by hand tries no
/// other; one that is switched by tests goes on to the next ones, each in turn.
pub proof fn law_selected_way_is_tried_first(start: int, count: int, i: int)
    requires
        0 <= start < count <= usize::MAX,
        0 <= i,
    ensures
        attempt_at(SelectorType::Manual, start, 0, count) == Some(start as usize),
        i > 0 ==> attempt_at(SelectorType::Manual, start, i, count) is None,
        attempt_at(SelectorType::UrlTest, start, 0, count) == Some(start as usize),
        i >= count ==> attempt_at(SelectorType::UrlTest, start, i, count) is None,
        i + 1 < count ==> attempt_at(SelectorType::UrlTest, start, i + 1, count) == Some(
            (if attempt_at(SelectorType::UrlTest, start, i, count) == Some((count - 1) as usize) {
                0
            } else {
                attempt_at(SelectorType::UrlTest, start, i, count)->0 + 1
            }) as usize,
        ),
{
}

/// What a selector stands for is what its selection stands for: a way out itself, or what the selector
/// below stands for.
pub proof fn law_selection_decides(list: Seq<SelectorOutbound>, at: int)
    requires
        0 <= at < list.len(),
    ensures
        ({
            let s = list[at];
            let chosen = s.outbounds@[s.selected_index as int];
            &&& chosen is Leaf ==> effective_tag(list, at) == s.outbound_tags@[s.selected_index as int]@
            &&& chosen matches Child::Leaf(tag) ==> active_path(list, at) == seq![s.tag@, tag@]
            &&& chosen matches Child::Selector(j) ==> (j < at ==> effective_tag(list, at) == effective_tag(
                list,
                j as int,
            ) && active_path(list, at) == seq![s.tag@] + active_path(list, j as int))
        }),
{
    let s = list[at];
    if let Child::Leaf(tag) = s.outbounds@[s.selected_index as int] {
        assert(active_path(list, at) =~= seq![s.tag@, tag@]);
    }
}

/// A selector shows the latency and the trace of what it selected, and keeps its own counts; nothing else
/// changes.
pub proof fn law_selector_shows_its_selection(
    o: ObserverView,
    selector: Seq<char>,
    leaf: Seq<char>,
    other: Seq<char>,
)
    requires
        o.outbounds.contains_key(selector),
    ensures
        ({
            let after = passed_on(o, selector, leaf);
            &&& after.outbounds[selector].stats.latency_ms == o.outbounds[leaf].stats.latency_ms
            &&& after.outbounds[selector].trace == o.outbounds[leaf].trace
            &&& after.outbounds[selector].stats.upload_bytes
                == o.outbounds[selector].stats.upload_bytes
            &&& after.outbounds[selector].stats.download_bytes
                == o.outbounds[selector].stats.download_bytes
            &&& after.outbounds.contains_key(selector)
            &&& other != selector ==> after.outbounds.contains_key(other) == o.outbounds.contains_key(
                other,
            ) && after.outbounds[other] == o.outbounds[other]
            &&& after.inbounds == o.inbounds && after.users == o.users
        }),
{
}

} // verus!
