use vstd::prelude::*;

use core::time::Duration;
use dashmap::DashMap;
use std::sync::Arc;
use std::time::Instant;
use tokio::sync::watch;

verus! {

#[verifier::external_type_specification]
#[verifier::external_body]
#[verifier::reject_recursive_types(K)]
#[verifier::reject_recursive_types(V)]
#[verifier::reject_recursive_types(S)]
pub struct ExDashMap<K, V, S>(dashmap::DashMap<K, V, S>);

#[verifier::external_type_specification]
#[verifier::external_body]
pub struct ExInstant(std::time::Instant);

#[verifier::external_type_specification]
#[verifier::external_body]
#[verifier::reject_recursive_types(T)]
pub struct ExWatchSender<T>(tokio::sync::watch::Sender<T>);

#[verifier::external_type_specification]
#[verifier::external_body]
#[verifier::reject_recursive_types(T)]
pub struct ExWatchReceiver<T>(tokio::sync::watch::Receiver<T>);

/// A cached screenshot and when it was taken.
pub struct CacheEntry {
    data: Vec<u8>,
    created_at: Instant,
}

/// What the cache map holds: the screenshot data under each key (the time an
/// entry was taken is not part of it).
pub uninterp spec fn cached(m: DashMap<String, CacheEntry>) -> Map<Seq<char>, Seq<u8>>;

/// When each screenshot in the cache map was stored.
pub uninterp spec fn cached_times(m: DashMap<String, CacheEntry>) -> Map<Seq<char>, Instant>;

/// The senders of the requests in flight, by key.
pub uninterp spec fn pending_senders(m: DashMap<String, Arc<watch::Sender<Option<Vec<u8>>>>>) -> Map<Seq<char>, watch::Sender<Option<Vec<u8>>>>;

/// `rx` was made by `tx.subscribe()`: it is connected to `tx`'s channel and
/// sees each value that `tx` sends from then on.
pub uninterp spec fn subscribed(rx: watch::Receiver<Option<Vec<u8>>>, tx: watch::Sender<Option<Vec<u8>>>) -> bool;

/// The time from one instant to a later one
/// (`Instant::saturating_duration_since`).
pub uninterp spec fn duration_since(later: Instant, earlier: Instant) -> Duration;

/// The number of nanoseconds in a duration (`Duration::as_nanos`). Durations
/// compare as their numbers of nanoseconds do.
pub uninterp spec fn nanos_of(d: Duration) -> u128;

/// An empty cache map (`DashMap::new`). Trusted: it holds nothing.
#[verifier::external_body]
fn cache_map_new() -> (r: DashMap<String, CacheEntry>)
    ensures
        cached(r).dom() == Set::<Seq<char>>::empty(),
        cached_times(r).dom() == Set::<Seq<char>>::empty(),
{
    DashMap::new()
}

/// An empty map of in-flight requests (`DashMap::new`). Trusted: it holds
/// nothing.
#[verifier::external_body]
fn pending_map_new() -> (r: DashMap<String, Arc<watch::Sender<Option<Vec<u8>>>>>)
    ensures
        pending_senders(r).dom() == Set::<Seq<char>>::empty(),
{
    DashMap::new()
}

/// The number of cached screenshots (`DashMap::len`). Trusted: the number
/// of keys the map holds.
#[verifier::external_body]
fn cache_map_len(m: &DashMap<String, CacheEntry>) -> (r: usize)
    ensures
        r == cached(*m).dom().len(),
{
    m.len()
}

/// The data and time of the screenshot under `key` (`DashMap::get`, the
/// entry's fields copied). Trusted: an entry comes back exactly when the
/// key is held, with the data and time held under it.
#[verifier::external_body]
fn cache_map_get(m: &DashMap<String, CacheEntry>, key: &str) -> (r: Option<(Vec<u8>, Instant)>)
    ensures
        match r {
            Some(e) => cached(*m).dom().contains(key@) && e.0@ == cached(*m)[key@] && e.1 == cached_times(*m)[key@],
            None => !cached(*m).dom().contains(key@),
        },
{
    match m.get(key) {
        Some(e) => Some((e.data.clone(), e.created_at)),
        None => None,
    }
}

/// Removes the screenshot under `key` (`DashMap::remove`). Trusted: the key
/// is gone and the other entries stay.
#[verifier::external_body]
fn cache_map_remove(m: &mut DashMap<String, CacheEntry>, key: &str)
    ensures
        cached(*final(m)) == cached(*old(m)).remove(key@),
        cached_times(*final(m)) == cached_times(*old(m)).remove(key@),
{
    m.remove(key);
}

/// Stores a screenshot under `key`, replacing any before
/// (`DashMap::insert`). Trusted: the key then holds the entry's data and
/// time, and the other entries stay.
#[verifier::external_body]
fn cache_map_insert(m: &mut DashMap<String, CacheEntry>, key: String, entry: CacheEntry)
    ensures
        cached(*final(m)) == cached(*old(m)).insert(key@, entry.data@),
        cached_times(*final(m)) == cached_times(*old(m)).insert(key@, entry.created_at),
{
    m.insert(key, entry);
}

/// A key of the map, the first that its iterator yields (`DashMap::iter`,
/// then `next`). Trusted: a key comes back, one the map holds, exactly when
/// the map is not empty; which one is not stated (it depends on hashing).
#[verifier::external_body]
fn cache_map_some_key(m: &DashMap<String, CacheEntry>) -> (r: Option<String>)
    ensures
        match r {
            Some(k) => cached(*m).dom().contains(k@),
            None => cached(*m).dom().len() == 0,
        },
{
    m.iter().next().map(|e| e.key().clone())
}

/// The current time (`Instant::now`). Nothing is stated.
#[verifier::external_body]
fn now() -> Instant {
    Instant::now()
}

/// The time from `earlier` to `later` (`Instant::saturating_duration_since`;
/// zero if `later` comes first). Trusted: it is what `duration_since` names.
#[verifier::external_body]
fn time_between(later: &Instant, earlier: &Instant) -> (r: Duration)
    ensures
        r == duration_since(*later, *earlier),
{
    later.saturating_duration_since(*earlier)
}

/// The number of nanoseconds in `d` (`Duration::as_nanos`). Trusted: it is
/// what `nanos_of` names.
#[verifier::external_body]
fn duration_nanos(d: &Duration) -> (r: u128)
    ensures
        r == nanos_of(*d),
{
    d.as_nanos()
}

/// Subscribes to the request in flight under `key`, if there is one
/// (`DashMap::get`, then `watch::Sender::subscribe` on what it finds).
/// Trusted: a receiver comes back exactly when the key is held, and it is
/// subscribed to the sender held under the key.
#[verifier::external_body]
fn pending_map_subscribe(m: &DashMap<String, Arc<watch::Sender<Option<Vec<u8>>>>>, key: &str) -> (r: Option<watch::Receiver<Option<Vec<u8>>>>)
    ensures
        match r {
            Some(rx) => pending_senders(*m).dom().contains(key@) && subscribed(rx, pending_senders(*m)[key@]),
            None => !pending_senders(*m).dom().contains(key@),
        },
{
    match m.get(key) {
        Some(sender) => Some(sender.subscribe()),
        None => None,
    }
}

/// Records the request in flight under `key` (`DashMap::insert`). Trusted:
/// the key then holds this sender, and the other keys stay.
#[verifier::external_body]
fn pending_map_insert(m: &mut DashMap<String, Arc<watch::Sender<Option<Vec<u8>>>>>, key: String, sender: Arc<watch::Sender<Option<Vec<u8>>>>)
    ensures
        pending_senders(*final(m)) == pending_senders(*old(m)).insert(key@, *sender),
{
    m.insert(key, sender);
}

/// Forgets the request in flight under `key` (`DashMap::remove`). Trusted:
/// the key is gone, and the other keys stay.
#[verifier::external_body]
fn pending_map_remove(m: &mut DashMap<String, Arc<watch::Sender<Option<Vec<u8>>>>>, key: &str)
    ensures
        pending_senders(*final(m)) == pending_senders(*old(m)).remove(key@),
{
    m.remove(key);
}

/// Another handle on the same sender (`Arc::clone`). Trusted: it points to
/// the same sender.
#[verifier::external_body]
fn share_sender(tx: &Arc<watch::Sender<Option<Vec<u8>>>>) -> (r: Arc<watch::Sender<Option<Vec<u8>>>>)
    ensures
        *r == **tx,
{
    tx.clone()
}

/// A channel with no result yet (`watch::channel(None)`); its sender. Nothing
/// is stated.
#[verifier::external_body]
fn new_result_sender() -> watch::Sender<Option<Vec<u8>>> {
    watch::channel(None).0
}

/// A screenshot cache with a short time to live, and the requests in flight
/// (so that a second request for the same screenshot waits for the first).
pub struct ScreenshotCache {
    cache: DashMap<String, CacheEntry>,
    pending: DashMap<String, Arc<watch::Sender<Option<Vec<u8>>>>>,
    max_size: usize,
    ttl: Duration,
}

/// A screenshot that has been stored for `elapsed` is fresh while that is
/// less than the time to live.
pub open spec fn fresh(elapsed: Duration, ttl: Duration) -> bool {
    nanos_of(elapsed) < nanos_of(ttl)
}

/// The most entries a cache holds: its maximum size, but at least one (a
/// store always keeps what it stores).
pub open spec fn capacity(max_size: usize) -> nat {
    if max_size == 0 { 1 } else { max_size as nat }
}

/// What a store of `data` under `key`, taken at `t`, leaves: the key holds
/// the data and the time; before that, a cache holding its maximum size or
/// more drops one of its entries (which one is not stated); nothing else
/// changes.
pub open spec fn stored(
    before: ScreenshotCache,
    after: ScreenshotCache,
    key: Seq<char>,
    data: Seq<u8>,
    t: Instant,
) -> bool {
    &&& after.senders() == before.senders()
    &&& after.max_size() == before.max_size()
    &&& after.ttl() == before.ttl()
    &&& if before.entries().dom().len() < before.max_size() || before.entries().dom().len() == 0 {
        &&& after.entries() == before.entries().insert(key, data)
        &&& after.times() == before.times().insert(key, t)
    } else {
        exists|k: Seq<char>|
            {
                &&& #[trigger] before.entries().dom().contains(k)
                &&& after.entries() == before.entries().remove(k).insert(key, data)
                &&& after.times() == before.times().remove(k).insert(key, t)
            }
    }
}

impl ScreenshotCache {
    /// The cached screenshots.
    pub closed spec fn entries(&self) -> Map<Seq<char>, Seq<u8>> {
        cached(self.cache)
    }

    /// When each cached screenshot was stored.
    pub closed spec fn times(&self) -> Map<Seq<char>, Instant> {
        cached_times(self.cache)
    }

    /// The keys with a request in flight.
    pub open spec fn pending(&self) -> Set<Seq<char>> {
        self.senders().dom()
    }

    /// The sender of each request in flight.
    pub closed spec fn senders(&self) -> Map<Seq<char>, watch::Sender<Option<Vec<u8>>>> {
        pending_senders(self.pending)
    }

    /// The maximum size.
    pub closed spec fn max_size(&self) -> usize {
        self.max_size
    }

    /// How long a screenshot stays fresh.
    pub closed spec fn ttl(&self) -> Duration {
        self.ttl
    }

    /// Every cached screenshot has a time, and the cache never holds more
    /// entries than its capacity.
    #[verifier::type_invariant]
    closed spec fn inv(&self) -> bool {
        &&& self.entries().dom().finite()
        &&& self.times().dom() == self.entries().dom()
        &&& self.entries().dom().len() <= capacity(self.max_size)
    }

    /// An empty cache for at most `max_size` screenshots kept for `ttl`.
    pub fn new(max_size: usize, ttl: Duration) -> (r: Self)
        ensures
            r.entries() == Map::<Seq<char>, Seq<u8>>::empty(),
            r.times() == Map::<Seq<char>, Instant>::empty(),
            r.senders() == Map::<Seq<char>, watch::Sender<Option<Vec<u8>>>>::empty(),
            r.max_size() == max_size,
            r.ttl() == ttl,
    {
        let cache = cache_map_new();
        proof {
            assert(cached(cache) =~= Map::<Seq<char>, Seq<u8>>::empty());
            assert(cached_times(cache) =~= Map::<Seq<char>, Instant>::empty());
        }
        let pending = pending_map_new();
        proof {
            assert(pending_senders(pending) =~= Map::<Seq<char>, watch::Sender<Option<Vec<u8>>>>::empty());
        }
        ScreenshotCache { cache, pending, max_size, ttl }
    }

    /// The number of cached screenshots.
    pub fn len(&self) -> (r: usize)
        ensures
            r == self.entries().dom().len(),
            r <= capacity(self.max_size()),
    {
        proof {
            use_type_invariant(self);
        }
        cache_map_len(&self.cache)
    }

    /// Settles a lookup of `key` once its outcome is known: `found` is the
    /// screenshot found under the key, if any, with the time passed since it
    /// was stored. It is fresh while that time is below the time to live; a
    /// fresh one is returned, a stale one is dropped and nothing is returned.
    pub fn resolve(&mut self, key: &str, found: Option<(Vec<u8>, Duration)>) -> (r: Option<Vec<u8>>)
        ensures
            final(self).senders() == old(self).senders(),
            final(self).max_size() == old(self).max_size(),
            final(self).ttl() == old(self).ttl(),
            match found {
                Some((d, elapsed)) => if fresh(elapsed, old(self).ttl()) {
                    r == Some(d) && final(self).entries() == old(self).entries() && final(self).times()
                        == old(self).times()
                } else {
                    r is None && final(self).entries() == old(self).entries().remove(key@) && final(self).times()
                        == old(self).times().remove(key@)
                },
                None => r is None && final(self).entries() == old(self).entries() && final(self).times()
                    == old(self).times(),
            },
    {
        proof {
            use_type_invariant(&*self);
        }
        match found {
            Some((data, elapsed)) => {
                let passed = duration_nanos(&elapsed);
                let ttl = duration_nanos(&self.ttl);
                if passed < ttl {
                    Some(data)
                } else {
                    let ghost before = *self;
                    let mut map = cache_map_new();
                    std::mem::swap(&mut map, &mut self.cache);
                    cache_map_remove(&mut map, key);
                    proof {
                        assert(cached(map).dom() =~= before.entries().dom().remove(key@));
                        assert(cached_times(map).dom() =~= before.times().dom().remove(key@));
                        assert(before.entries().dom().remove(key@).len() <= before.entries().dom().len());
                    }
                    std::mem::swap(&mut map, &mut self.cache);
                    None
                }
            },
            None => None,
        }
    }

    /// The screenshot under `key` if it is still fresh: less than the time
    /// to live has passed from when it was stored to now (the clock gives
    /// now; `resolve` decides). A stale one is dropped. With a time to live of
    /// zero nothing is ever fresh.
    pub fn get(&mut self, key: &str) -> (r: Option<Vec<u8>>)
        ensures
            final(self).senders() == old(self).senders(),
            final(self).max_size() == old(self).max_size(),
            final(self).ttl() == old(self).ttl(),
            old(self).entries().dom().contains(key@) ==> exists|t: Instant|
                (r is Some) == fresh(duration_since(t, old(self).times()[key@]), old(self).ttl()),
            !old(self).entries().dom().contains(key@) ==> r is None && final(self).entries() == old(
                self,
            ).entries() && final(self).times() == old(self).times(),
            match r {
                Some(d) => old(self).entries().dom().contains(key@) && d@ == old(self).entries()[key@]
                    && final(self).entries() == old(self).entries() && final(self).times() == old(self).times(),
                None => final(self).entries() == old(self).entries().remove(key@) && final(self).times()
                    == old(self).times().remove(key@),
            },
            nanos_of(old(self).ttl()) == 0 ==> r is None,
    {
        proof {
            use_type_invariant(&*self);
        }
        let entry = cache_map_get(&self.cache, key);
        let at = now();
        let found = match entry {
            Some((data, created_at)) => {
                let elapsed = time_between(&at, &created_at);
                Some((data, elapsed))
            },
            None => None,
        };
        let ghost before = *self;
        let r = self.resolve(key, found);
        proof {
            if found is None {
                assert(before.entries() =~= before.entries().remove(key@));
                assert(before.times() =~= before.times().remove(key@));
            } else {
                assert((r is Some) == fresh(duration_since(at, before.times()[key@]), before.ttl()));
            }
        }
        r
    }

    /// Stores `data` under `key` as taken at `created_at` (see `stored`).
    pub fn store(&mut self, key: &str, data: Vec<u8>, created_at: Instant)
        ensures
            stored(*old(self), *final(self), key@, data@, created_at),
            final(self).entries().dom().contains(key@),
            final(self).entries()[key@] == data@,
            final(self).times()[key@] == created_at,
    {
        proof {
            use_type_invariant(&*self);
        }
        let ghost before = *self;
        let mut map = cache_map_new();
        std::mem::swap(&mut map, &mut self.cache);
        if cache_map_len(&map) >= self.max_size {
            if let Some(k) = cache_map_some_key(&map) {
                proof {
                    assert(before.entries().dom().contains(k@));
                    assert(before.entries().dom().remove(k@).len() < before.entries().dom().len());
                }
                cache_map_remove(&mut map, k.as_str());
                proof {
                    assert(cached(map).dom() =~= before.entries().dom().remove(k@));
                    assert(cached_times(map).dom() =~= before.times().dom().remove(k@));
                }
            }
        }
        let ghost mid = cached(map);
        let ghost mid_t = cached_times(map);
        let ghost d = data@;
        proof {
            assert(mid.dom().insert(key@).len() <= capacity(self.max_size)) by {
                if !mid.dom().contains(key@) {
                    assert(mid.dom().len() < capacity(self.max_size));
                }
            }
        }
        let entry = CacheEntry { data, created_at };
        cache_map_insert(&mut map, key.to_string(), entry);
        proof {
            assert(cached(map) == mid.insert(key@, d));
            assert(cached(map).dom() =~= mid.dom().insert(key@));
            assert(cached_times(map).dom() =~= mid_t.dom().insert(key@));
        }
        std::mem::swap(&mut map, &mut self.cache);
    }

    /// Stores a screenshot under `key`, taken now (see `stored`).
    pub fn set(&mut self, key: &str, data: Vec<u8>)
        ensures
            exists|t: Instant| stored(*old(self), *final(self), key@, data@, t),
            final(self).entries().dom().contains(key@),
            final(self).entries()[key@] == data@,
    {
        let t = now();
        self.store(key, data, t);
    }

    /// Subscribes to the request in flight for `key`, if there is one: the
    /// receiver sees what that request's sender publishes.
    pub fn try_subscribe(&self, key: &str) -> (r: Option<watch::Receiver<Option<Vec<u8>>>>)
        ensures
            match r {
                Some(rx) => self.pending().contains(key@) && subscribed(rx, self.senders()[key@]),
                None => !self.pending().contains(key@),
            },
    {
        pending_map_subscribe(&self.pending, key)
    }

    /// Records a request in flight for `key`; the sender returned is the one
    /// held for the key, which publishes the request's result.
    pub fn register_pending(&mut self, key: &str) -> (r: Arc<watch::Sender<Option<Vec<u8>>>>)
        ensures
            final(self).senders() == old(self).senders().insert(key@, *r),
            final(self).entries() == old(self).entries(),
            final(self).times() == old(self).times(),
            final(self).max_size() == old(self).max_size(),
            final(self).ttl() == old(self).ttl(),
    {
        proof {
            use_type_invariant(&*self);
        }
        let tx = Arc::new(new_result_sender());
        let held = share_sender(&tx);
        let mut pending = pending_map_new();
        std::mem::swap(&mut pending, &mut self.pending);
        pending_map_insert(&mut pending, key.to_string(), held);
        std::mem::swap(&mut pending, &mut self.pending);
        tx
    }

    /// Forgets the request in flight for `key`.
    pub fn clear_pending(&mut self, key: &str)
        ensures
            final(self).senders() == old(self).senders().remove(key@),
            final(self).entries() == old(self).entries(),
            final(self).times() == old(self).times(),
            final(self).max_size() == old(self).max_size(),
            final(self).ttl() == old(self).ttl(),
    {
        proof {
            use_type_invariant(&*self);
        }
        let mut pending = pending_map_new();
        std::mem::swap(&mut pending, &mut self.pending);
        pending_map_remove(&mut pending, key);
        std::mem::swap(&mut pending, &mut self.pending);
    }
}

/// A screenshot just stored is what a lookup of its key finds: while less
/// than the time to live has passed, the lookup returns its data and changes
/// nothing; after that the key is dropped and the rest of the cache stays as
/// the store left it.
pub proof fn lemma_store_then_resolve(
    before: ScreenshotCache,
    after: ScreenshotCache,
    looked: ScreenshotCache,
    key: Seq<char>,
    data: Seq<u8>,
    t: Instant,
    elapsed: Duration,
)
    requires
        stored(before, after, key, data, t),
        fresh(elapsed, after.ttl()) ==> looked.entries() == after.entries(),
        !fresh(elapsed, after.ttl()) ==> looked.entries() == after.entries().remove(key),
    ensures
        after.entries().dom().contains(key),
        after.entries()[key] == data,
        after.times()[key] == t,
        after.ttl() == before.ttl(),
        fresh(elapsed, before.ttl()) ==> looked.entries()[key] == data,
        !fresh(elapsed, before.ttl()) ==> !looked.entries().dom().contains(key),
        forall|k: Seq<char>| k != key && #[trigger] after.entries().dom().contains(k)
            ==> before.entries().dom().contains(k) && after.entries()[k] == before.entries()[k],
{
}

} // verus!
