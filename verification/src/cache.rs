//! Caches on disk: where each one lies, and how long what it holds stays good.

use crate::text::{copy_text, push_text};
use crate::utils::table::Table;
use vstd::prelude::*;

verus! {

/// How much memory an open database uses for its pages, in megabytes.
pub const DEFAULT_MEMORY_SIZE_MB: usize = 1;

/// How long opening a database may take, in seconds.
pub const OPEN_TIMEOUT_SECS: u64 = 3;

/// One configured cache.
#[derive(Debug)]
pub struct CacheItem {
    pub name: String,
    pub path: Option<String>,
}

/// The complaint about a cache without a path.
pub open spec fn path_missing(name: Seq<char>) -> Seq<char> {
    "cache '"@ + name
        + "' must configure `path`: memory-only cache is not supported, redb's built-in page cache keeps hot data in memory"@
}

/// Where the caches lie, by their tags.
pub type CacheMap = Table<String>;

/// The places with those of the first `n` configured caches.
pub open spec fn placed(
    map: Map<Seq<char>, Seq<char>>,
    items: Seq<CacheItem>,
    n: int,
) -> Map<Seq<char>, Seq<char>>
    decreases n,
{
    if n <= 0 {
        map
    } else {
        placed(map, items, n - 1).insert(items[n - 1].name@, items[n - 1].path->0@)
    }
}

/// Takes the places of the caches from the configuration. The first cache without a path ends it.
pub fn init_cache(map: &mut CacheMap, items: &Vec<CacheItem>) -> (r: Result<(), String>)
    requires
        old(map).wf(),
    ensures
        final(map).wf(),
        match r {
            Ok(()) => {
                &&& forall|i: int| 0 <= i < items@.len() ==> (#[trigger] items@[i]).path is Some
                &&& crate::utils::table::views(final(map)@) == placed(
                    crate::utils::table::views(old(map)@),
                    items@,
                    items@.len() as int,
                )
            },
            Err(e) => exists|n: int|
                {
                    &&& 0 <= n < items@.len()
                    &&& (#[trigger] items@[n]).path is None
                    &&& forall|i: int| 0 <= i < n ==> (#[trigger] items@[i]).path is Some
                    &&& e@ == path_missing(items@[n].name@)
                    &&& crate::utils::table::views(final(map)@) == placed(
                        crate::utils::table::views(old(map)@),
                        items@,
                        n,
                    )
                },
        },
{
    let ghost before = crate::utils::table::views(map@);
    let mut i: usize = 0;
    while i < items.len()
        invariant
            i <= items@.len(),
            map.wf(),
            before == crate::utils::table::views(old(map)@),
            crate::utils::table::views(map@) == placed(before, items@, i as int),
            forall|k: int| 0 <= k < i ==> (#[trigger] items@[k]).path is Some,
        decreases items@.len() - i,
    {
        match &items[i].path {
            None => {
                let mut e = copy_text("cache '");
                push_text(&mut e, items[i].name.as_str());
                push_text(
                    &mut e,
                    "' must configure `path`: memory-only cache is not supported, redb's built-in page cache keeps hot data in memory",
                );
                assert(items@[i as int].path is None);
                return Err(e);
            },
            Some(path) => {
                let path = copy_text(path.as_str());
                proof {
                    crate::utils::table::lemma_views_insert(map@, items@[i as int].name@, path);
                }
                map.insert(items[i].name.as_str(), path);
            },
        }
        i += 1;
    }
    Ok(())
}

/// The complaint about a tag that no cache is configured for.
pub open spec fn unknown_cache(tag: Seq<char>) -> Seq<char> {
    "can not find cache config for tag: "@ + tag
}

/// Where the cache of a tag lies.
pub fn cache_path(map: &CacheMap, tag: &str) -> (r: Result<String, String>)
    requires
        map.wf(),
    ensures
        match r {
            Ok(path) => map@.contains_key(tag@) && path@ == map@[tag@]@,
            Err(e) => !map@.contains_key(tag@) && e@ == unknown_cache(tag@),
        },
{
    match map.get(tag) {
        Some(path) => Ok(copy_text(path.as_str())),
        None => {
            let mut e = copy_text("can not find cache config for tag: ");
            push_text(&mut e, tag);
            Err(e)
        },
    }
}

/// A value and the second from which it is no longer good.
#[derive(Debug, Clone)]
pub struct ExpiringValue<T> {
    pub value: T,
    pub expiry: u64,
}

impl<T> ExpiringValue<T> {
    /// A value that stays good for `ttl` seconds from `now` on.
    pub fn new(value: T, now: u64, ttl: u64) -> (e: ExpiringValue<T>)
        requires
            now + ttl <= u64::MAX,
        ensures
            e.value == value,
            e.expiry == now + ttl,
    {
        ExpiringValue { value, expiry: now + ttl }
    }

    /// Whether the value is still good.
    pub open spec fn is_good(self, now: u64) -> bool {
        self.expiry > now
    }
}

/// What a look into a cache comes to.
#[derive(Debug)]
pub enum CacheRead<T> {
    /// The value, and when it expires.
    Hit(T, u64),
    /// There is a value that is no longer good, to be deleted.
    Expired,
    Missing,
}

/// Judges what a cache holds for a key.
pub fn read_entry<T>(entry: Option<ExpiringValue<T>>, now: u64) -> (r: CacheRead<T>)
    ensures
        match r {
            CacheRead::Hit(value, expiry) => entry == Some(ExpiringValue { value, expiry })
                && expiry > now,
            CacheRead::Expired => entry matches Some(e) && !e.is_good(now),
            CacheRead::Missing => entry is None,
        },
{
    match entry {
        Some(e) => {
            if e.expiry > now {
                CacheRead::Hit(e.value, e.expiry)
            } else {
                CacheRead::Expired
            }
        },
        None => CacheRead::Missing,
    }
}

/// The entries that are still good.
pub open spec fn good_entries<T>(entries: Seq<(String, ExpiringValue<T>)>, now: u64) -> Seq<(String, T)>
    decreases entries.len(),
{
    if entries.len() == 0 {
        Seq::empty()
    } else {
        let rest = good_entries(entries.skip(1), now);
        if entries[0].1.is_good(now) {
            seq![(entries[0].0, entries[0].1.value)] + rest
        } else {
            rest
        }
    }
}

/// Lists the entries of a cache that are still good.
pub fn list_entries<T>(entries: Vec<(String, ExpiringValue<T>)>, now: u64) -> (list: Vec<(String, T)>)
    ensures
        list@ == good_entries(entries@, now),
{
    let ghost all = entries@;
    let mut rest: Vec<(String, ExpiringValue<T>)> = entries;
    let mut backwards: Vec<(String, T)> = Vec::new();
    proof {
        assert(backwards@.reverse() =~= Seq::<(String, T)>::empty());
        assert(all.skip(all.len() as int) =~= Seq::empty());
    }
    while rest.len() > 0
        invariant
            rest@ == all.take(rest@.len() as int),
            rest@.len() <= all.len(),
            backwards@.reverse() == good_entries(all.skip(rest@.len() as int), now),
        decreases rest@.len(),
    {
        let ghost n = rest@.len() as int;
        let ghost before = backwards@;
        match rest.pop() {
            None => {},
            Some((name, e)) => {
                proof {
                    assert(all.skip(n - 1).skip(1) =~= all.skip(n));
                    assert(all.skip(n - 1)[0] == (name, e));
                    assert(rest@ =~= all.take(n - 1));
                }
                if e.expiry > now {
                    let pair = (name, e.value);
                    backwards.push(pair);
                    proof {
                        assert(backwards@.reverse() =~= seq![pair] + before.reverse());
                    }
                }
            },
        }
    }
    let mut list: Vec<(String, T)> = Vec::new();
    let ghost found = backwards@;
    assert(all.skip(0) =~= all);
    while backwards.len() > 0
        invariant
            backwards@ == found.take(backwards@.len() as int),
            backwards@.len() <= found.len(),
            list@ == found.skip(backwards@.len() as int).reverse(),
        decreases backwards@.len(),
    {
        let ghost n = backwards@.len() as int;
        let ghost before = list@;
        match backwards.pop() {
            None => {},
            Some(pair) => {
                list.push(pair);
                proof {
                    assert(found[n - 1] == pair);
                    assert(list@ =~= found.skip(n - 1).reverse());
                    assert(backwards@ =~= found.take(n - 1));
                }
            },
        }
    }
    assert(found.skip(0) =~= found);
    list
}

/// What was written with a time to live is read back until that time has passed, and not after.
pub proof fn law_values_live_for_their_ttl<T>(value: T, written: u64, ttl: u64, now: u64)
    requires
        written + ttl <= u64::MAX,
    ensures
        (ExpiringValue { value, expiry: (written + ttl) as u64 }).is_good(now) <==> now < written
            + ttl,
{
}

/// A list of what is good holds nothing that a look would not find good, and leaves nothing good out.
pub proof fn law_listing_agrees_with_reading<T>(
    entries: Seq<(String, ExpiringValue<T>)>,
    now: u64,
    name: String,
    value: T,
)
    ensures
        good_entries(entries, now).contains((name, value)) <==> exists|i: int|
            0 <= i < entries.len() && (#[trigger] entries[i]).0 == name && entries[i].1.value == value
                && entries[i].1.is_good(now),
    decreases entries.len(),
{
    if entries.len() > 0 {
        let tail = entries.skip(1);
        let rest = good_entries(tail, now);
        let all = good_entries(entries, now);
        law_listing_agrees_with_reading(tail, now, name, value);
        if all.contains((name, value)) {
            let k = choose|k: int| 0 <= k < all.len() && all[k] == (name, value);
            if entries[0].1.is_good(now) {
                if k > 0 {
                    assert(rest[k - 1] == (name, value));
                    let i = choose|i: int|
                        0 <= i < tail.len() && (#[trigger] tail[i]).0 == name && tail[i].1.value
                            == value && tail[i].1.is_good(now);
                    assert(entries[i + 1] == tail[i]);
                } else {
                    assert(entries[0].0 == name);
                }
            } else {
                assert(rest[k] == (name, value));
                let i = choose|i: int|
                    0 <= i < tail.len() && (#[trigger] tail[i]).0 == name && tail[i].1.value
                        == value && tail[i].1.is_good(now);
                assert(entries[i + 1] == tail[i]);
            }
        }
        if exists|i: int|
            0 <= i < entries.len() && (#[trigger] entries[i]).0 == name && entries[i].1.value == value
                && entries[i].1.is_good(now) {
            let i = choose|i: int|
                0 <= i < entries.len() && (#[trigger] entries[i]).0 == name && entries[i].1.value
                    == value && entries[i].1.is_good(now);
            if i == 0 {
                assert(all[0] == (name, value));
            } else {
                assert(tail[i - 1] == entries[i]);
                assert(rest.contains((name, value)));
                let k = choose|k: int| 0 <= k < rest.len() && rest[k] == (name, value);
                if entries[0].1.is_good(now) {
                    assert(all[k + 1] == (name, value));
                } else {
                    assert(all[k] == (name, value));
                }
            }
        }
    }
}

/// The databases that are open, by their resolved paths. Each is known by a number.
pub struct OpenStores {
    stores: Table<u64>,
}

impl View for OpenStores {
    type V = Map<Seq<char>, u64>;

    closed spec fn view(&self) -> Map<Seq<char>, u64> {
        self.stores@
    }
}

/// What opening a database came to.
#[derive(Debug)]
pub enum OpenOutcome {
    Opened(u64),
    Failed(String),
    TimedOut,
    /// The thread that opened it is gone.
    Disconnected,
}

/// Why a database could not be opened.
#[derive(Debug)]
pub enum OpenError {
    Failed(String),
    /// The file is locked by another process.
    Locked,
    WorkerPanicked,
}

impl OpenStores {
    /// The table of databases is in order.
    pub closed spec fn wf(self) -> bool {
        self.stores.wf()
    }

    /// No database is open.
    pub fn new() -> (s: OpenStores)
        ensures
            s.wf(),
            s@ == Map::<Seq<char>, u64>::empty(),
    {
        OpenStores { stores: Table::new() }
    }

    /// The database at a path, if it is open already: a database file is opened once.
    pub fn opened(&self, path: &str) -> (r: Option<u64>)
        requires
            self.wf(),
        ensures
            r == if self@.contains_key(path@) {
                Some(self@[path@])
            } else {
                None
            },
    {
        match self.stores.get(path) {
            Some(id) => Some(*id),
            None => None,
        }
    }

    /// Takes in what opening the database at a path came to.
    pub fn with_cache_size(&mut self, path: &str, outcome: OpenOutcome) -> (r: Result<u64, OpenError>)
        requires
            old(self).wf(),
        ensures
            final(self).wf(),
            match r {
                Ok(id) => outcome == OpenOutcome::Opened(id) && final(self)@ == old(self)@.insert(
                    path@,
                    id,
                ),
                Err(OpenError::Failed(e)) => outcome == OpenOutcome::Failed(e) && final(self)@
                    == old(self)@,
                Err(OpenError::Locked) => outcome is TimedOut && final(self)@ == old(self)@,
                Err(OpenError::WorkerPanicked) => outcome is Disconnected && final(self)@
                    == old(self)@,
            },
    {
        match outcome {
            OpenOutcome::Opened(id) => {
                self.stores.insert(path, id);
                Ok(id)
            },
            OpenOutcome::Failed(e) => Err(OpenError::Failed(e)),
            OpenOutcome::TimedOut => Err(OpenError::Locked),
            OpenOutcome::Disconnected => Err(OpenError::WorkerPanicked),
        }
    }
}

/// Memory for the pages of a database, in bytes.
pub fn cache_size_bytes(memory_size_mb: usize) -> (n: usize)
    ensures
        n == if memory_size_mb * 1048576 > usize::MAX {
            usize::MAX as int
        } else {
            memory_size_mb * 1048576
        },
{
    if memory_size_mb > usize::MAX / 1048576 {
        usize::MAX
    } else {
        memory_size_mb * 1048576
    }
}

/// Closes all databases, so that their files are no longer locked.
pub fn shutdown_redb(stores: &mut OpenStores)
    ensures
        final(stores).wf(),
        final(stores)@ == Map::<Seq<char>, u64>::empty(),
{
    *stores = OpenStores::new();
}

/// Closes all caches.
pub fn shutdown_cache(stores: &mut OpenStores)
    ensures
        final(stores).wf(),
        final(stores)@ == Map::<Seq<char>, u64>::empty(),
{
    shutdown_redb(stores);
}

/// Of stores under one name the last counts, and stores under other names are not touched.
pub proof fn law_last_store_of_a_name_counts(
    map: Map<Seq<char>, Seq<char>>,
    items: Seq<CacheItem>,
    n: int,
    k: int,
    name: Seq<char>,
)
    requires
        0 <= k < n <= items.len(),
    ensures
        (forall|i: int| k < i < n ==> (#[trigger] items[i]).name@ != items[k].name@) ==> placed(
            map,
            items,
            n,
        ).contains_key(items[k].name@) && placed(map, items, n)[items[k].name@]
            == items[k].path->0@,
        (forall|i: int| 0 <= i < n ==> (#[trigger] items[i]).name@ != name) ==> placed(
            map,
            items,
            n,
        ).contains_key(name) == map.contains_key(name) && (map.contains_key(name) ==> placed(
            map,
            items,
            n,
        )[name] == map[name]),
    decreases n,
{
    if k < n - 1 {
        law_last_store_of_a_name_counts(map, items, n - 1, k, name);
        assert(items[n - 1].name@ == items[n - 1].name@);
    } else {
        lemma_placed_others(map, items, n, name);
    }
}

proof fn lemma_placed_others(
    map: Map<Seq<char>, Seq<char>>,
    items: Seq<CacheItem>,
    n: int,
    name: Seq<char>,
)
    requires
        0 <= n <= items.len(),
    ensures
        (forall|i: int| 0 <= i < n ==> (#[trigger] items[i]).name@ != name) ==> placed(
            map,
            items,
            n,
        ).contains_key(name) == map.contains_key(name) && (map.contains_key(name) ==> placed(
            map,
            items,
            n,
        )[name] == map[name]),
    decreases n,
{
    if n > 0 {
        lemma_placed_others(map, items, n - 1, name);
        if forall|i: int| 0 <= i < n ==> (#[trigger] items[i]).name@ != name {
            assert(items[n - 1].name@ != name);
        }
    }
}

/// A listing keeps the order of the entries.
pub proof fn law_listing_keeps_the_order<T>(
    entries: Seq<(String, ExpiringValue<T>)>,
    more: Seq<(String, ExpiringValue<T>)>,
    now: u64,
)
    ensures
        good_entries(entries + more, now) == good_entries(entries, now) + good_entries(more, now),
        good_entries(entries, now).len() <= entries.len(),
    decreases entries.len(),
{
    if entries.len() == 0 {
        assert(entries + more =~= more);
        assert(good_entries(entries, now) + good_entries(more, now) =~= good_entries(more, now));
    } else {
        let rest = entries.skip(1);
        law_listing_keeps_the_order(rest, more, now);
        assert((entries + more).skip(1) =~= rest + more);
        assert(good_entries(entries + more, now) =~= good_entries(entries, now) + good_entries(
            more,
            now,
        ));
    }
}

} // verus!
