//! A cache for the statistics of the store: a value, the time at which it
//! was set, and the time for which it stays good.
//!
//! Times are seconds on a clock that the caller reads.

use vstd::prelude::*;
use crate::models::StatsResponse;

verus! {

/// For how long statistics stay good, in seconds, where nothing else is asked for.
pub const DEFAULT_CACHE_SECONDS: u64 = 300;

/// The cache.
#[derive(Debug, Clone, Copy)]
pub struct StatsCache {
    data: Option<StatsResponse>,
    last_updated: Option<u64>,
    cache_duration: u64,
}

/// The model of the cache.
pub struct StatsCacheModel {
    pub data: Option<StatsResponse>,
    pub last_updated: Option<u64>,
    pub cache_duration: u64,
}

impl StatsCacheModel {
    /// The time that has passed at `now` since the value was set; none has
    /// where the clock stands before that.
    pub open spec fn age(self, now: u64) -> int {
        if now >= self.last_updated->0 {
            now - self.last_updated->0
        } else {
            0
        }
    }

    /// Whether the cache has nothing good at `now`: nothing was set, or more
    /// time has passed since than values stay good.
    pub open spec fn expired(self, now: u64) -> bool {
        self.last_updated is None || self.age(now) > self.cache_duration
    }

    /// What the cache gives at `now`.
    pub open spec fn value_at(self, now: u64) -> Option<StatsResponse> {
        if self.expired(now) {
            None
        } else {
            self.data
        }
    }
}

impl View for StatsCache {
    type V = StatsCacheModel;

    closed spec fn view(&self) -> StatsCacheModel {
        StatsCacheModel {
            data: self.data,
            last_updated: self.last_updated,
            cache_duration: self.cache_duration,
        }
    }
}

impl StatsCache {
    /// An empty cache whose values stay good for `DEFAULT_CACHE_SECONDS`.
    pub fn new() -> (cache: StatsCache)
        ensures
            cache@ == (StatsCacheModel {
                data: None,
                last_updated: None,
                cache_duration: DEFAULT_CACHE_SECONDS,
            }),
    {
        StatsCache { data: None, last_updated: None, cache_duration: DEFAULT_CACHE_SECONDS }
    }

    /// An empty cache whose values stay good for `seconds`.
    pub fn with_duration(seconds: u64) -> (cache: StatsCache)
        ensures
            cache@ == (StatsCacheModel { data: None, last_updated: None, cache_duration: seconds }),
    {
        StatsCache { data: None, last_updated: None, cache_duration: seconds }
    }

    /// Whether the cache has nothing good at `now`.
    pub fn is_expired(&self, now: u64) -> (expired: bool)
        ensures
            expired == self@.expired(now),
    {
        match self.last_updated {
            Some(set_at) => {
                let age: u64 = if now >= set_at {
                    now - set_at
                } else {
                    0
                };
                age > self.cache_duration
            },
            None => true,
        }
    }

    /// Sets the value at `now`.
    pub fn update(&mut self, data: StatsResponse, now: u64)
        ensures
            final(self)@ == (StatsCacheModel {
                data: Some(data),
                last_updated: Some(now),
                cache_duration: old(self)@.cache_duration,
            }),
    {
        self.data = Some(data);
        self.last_updated = Some(now);
    }

    /// The value, where the cache has a good one at `now`.
    pub fn get(&self, now: u64) -> (value: Option<StatsResponse>)
        ensures
            value == self@.value_at(now),
    {
        if self.is_expired(now) {
            None
        } else {
            self.data
        }
    }
}

/// A translation that was looked up, with the time, in seconds, at which it
/// was put into the cache.
#[derive(Debug, Clone, PartialEq, Eq)]
pub struct CacheItem {
    pub key: String,
    pub value: String,
    pub timestamp: u64,
}

/// The model of a cached translation.
pub struct CacheItemModel {
    pub key: Seq<char>,
    pub value: Seq<char>,
    pub timestamp: u64,
}

impl View for CacheItem {
    type V = CacheItemModel;

    open spec fn view(&self) -> CacheItemModel {
        CacheItemModel { key: self.key@, value: self.value@, timestamp: self.timestamp }
    }
}

/// The models of a list of cached translations.
pub open spec fn item_models(items: Seq<CacheItem>) -> Seq<CacheItemModel> {
    items.map_values(|i: CacheItem| i@)
}

/// Whether an item is still good at `now`, where items stay good for less
/// than `minutes` minutes.  An item from the future of the clock is good.
pub open spec fn is_fresh(item: CacheItemModel, now: u64, minutes: u64) -> bool {
    now < item.timestamp || now - item.timestamp < minutes * 60
}

/// The item that is kept for `key`: the last one with this key.
pub open spec fn item_for(items: Seq<CacheItemModel>, key: Seq<char>) -> Option<CacheItemModel>
    decreases items.len(),
{
    if items.len() == 0 {
        None
    } else if items.last().key == key {
        Some(items.last())
    } else {
        item_for(items.drop_last(), key)
    }
}

/// What the cache gives for `key` at `now`: the value of the item that is
/// kept for the key, where that is still good.
pub open spec fn cached_value(
    items: Seq<CacheItemModel>,
    key: Seq<char>,
    now: u64,
    minutes: u64,
) -> Option<Seq<char>> {
    match item_for(items, key) {
        Some(item) => if is_fresh(item, now, minutes) {
            Some(item.value)
        } else {
            None
        },
        None => None,
    }
}

/// The items after `key` is set to `value` at `now`: the items of other
/// keys, and behind them the new item.
pub open spec fn items_with(
    items: Seq<CacheItemModel>,
    key: Seq<char>,
    value: Seq<char>,
    now: u64,
) -> Seq<CacheItemModel> {
    items.filter(|i: CacheItemModel| i.key != key).push(
        CacheItemModel { key, value, timestamp: now },
    )
}

/// The items that are still good at `now`.
pub open spec fn fresh_items(items: Seq<CacheItemModel>, now: u64, minutes: u64) -> Seq<
    CacheItemModel,
> {
    items.filter(|i: CacheItemModel| is_fresh(i, now, minutes))
}

/// A cache of translations, each good for a number of minutes.
#[derive(Debug)]
pub struct TranslationCache {
    items: Vec<CacheItem>,
    expire_minutes: u64,
}

/// The model of a cache of translations.
pub struct TranslationCacheModel {
    pub items: Seq<CacheItemModel>,
    pub expire_minutes: u64,
}

impl View for TranslationCache {
    type V = TranslationCacheModel;

    closed spec fn view(&self) -> TranslationCacheModel {
        TranslationCacheModel { items: item_models(self.items@), expire_minutes: self.expire_minutes }
    }
}

fn item_is_fresh(item: &CacheItem, now: u64, minutes: u64) -> (b: bool)
    ensures
        b == is_fresh(item@, now, minutes),
{
    if now < item.timestamp {
        true
    } else {
        let age: u64 = now - item.timestamp;
        age / 60 < minutes
    }
}

impl TranslationCache {
    /// An empty cache whose items stay good for less than `expire_minutes` minutes.
    pub fn new(expire_minutes: u64) -> (cache: TranslationCache)
        ensures
            cache@ == (TranslationCacheModel { items: Seq::empty(), expire_minutes }),
    {
        let cache = TranslationCache { items: Vec::new(), expire_minutes };
        assert(cache@.items =~= Seq::<CacheItemModel>::empty());
        cache
    }

    /// The number of items.
    pub fn len(&self) -> (n: usize)
        ensures
            n == self@.items.len(),
    {
        self.items.len()
    }

    /// The cached translation for `key`, where there is one that is still good.
    pub fn get_from_cache(&self, key: &str, now: u64) -> (value: Option<String>)
        ensures
            match value {
                Some(v) => cached_value(self@.items, key@, now, self@.expire_minutes) == Some(v@),
                None => cached_value(self@.items, key@, now, self@.expire_minutes) is None,
            },
    {
        let ghost models = item_models(self.items@);
        let mut i: usize = self.items.len();
        assert(models.take(i as int) =~= models);
        while i > 0
            invariant
                i <= self.items.len(),
                models == item_models(self.items@),
                item_for(models, key@) == item_for(models.take(i as int), key@),
            decreases i,
        {
            proof {
                let part = models.take(i as int);
                assert(part.drop_last() =~= models.take(i as int - 1));
                assert(part.last() == self.items@[i as int - 1]@);
            }
            if crate::text::same_text(self.items[i - 1].key.as_str(), key) {
                if item_is_fresh(&self.items[i - 1], now, self.expire_minutes) {
                    return Some(self.items[i - 1].value.clone());
                } else {
                    return None;
                }
            }
            i = i - 1;
        }
        None
    }

    /// Caches `value` for `key` at `now`.
    pub fn set_cache(&mut self, key: &str, value: &str, now: u64)
        ensures
            final(self)@ == (TranslationCacheModel {
                items: items_with(old(self)@.items, key@, value@, now),
                ..old(self)@
            }),
    {
        let ghost models = item_models(self.items@);
        let ghost pred = |i: CacheItemModel| i.key != key@;
        let mut kept: Vec<CacheItem> = Vec::new();
        let mut i: usize = 0;
        proof {
            reveal(Seq::filter);
            assert(models.take(0) =~= Seq::<CacheItemModel>::empty());
            assert(item_models(kept@) =~= models.take(0).filter(pred));
        }
        while i < self.items.len()
            invariant
                i <= self.items.len(),
                models == item_models(self.items@),
                pred == |i: CacheItemModel| i.key != key@,
                item_models(kept@) == models.take(i as int).filter(pred),
            decreases self.items.len() - i,
        {
            proof {
                reveal(Seq::filter);
                let part = models.take(i as int + 1);
                assert(part.drop_last() =~= models.take(i as int));
                assert(part.last() == self.items@[i as int]@);
            }
            if !crate::text::same_text(self.items[i].key.as_str(), key) {
                let ghost before = item_models(kept@);
                kept.push(
                    CacheItem {
                        key: self.items[i].key.clone(),
                        value: self.items[i].value.clone(),
                        timestamp: self.items[i].timestamp,
                    },
                );
                assert(item_models(kept@) =~= before.push(self.items@[i as int]@));
            }
            i = i + 1;
        }
        assert(models.take(self.items.len() as int) =~= models);
        let ghost before = item_models(kept@);
        kept.push(CacheItem { key: key.to_owned(), value: value.to_owned(), timestamp: now });
        assert(item_models(kept@) =~= before.push(
            CacheItemModel { key: key@, value: value@, timestamp: now },
        ));
        self.items = kept;
    }

    /// Drops the items that are no longer good at `now`.
    pub fn cleanup_cache(&mut self, now: u64)
        ensures
            final(self)@ == (TranslationCacheModel {
                items: fresh_items(old(self)@.items, now, old(self)@.expire_minutes),
                ..old(self)@
            }),
    {
        let ghost models = item_models(self.items@);
        let minutes: u64 = self.expire_minutes;
        let ghost pred = |i: CacheItemModel| is_fresh(i, now, minutes);
        let mut kept: Vec<CacheItem> = Vec::new();
        let mut i: usize = 0;
        proof {
            reveal(Seq::filter);
            assert(models.take(0) =~= Seq::<CacheItemModel>::empty());
            assert(item_models(kept@) =~= models.take(0).filter(pred));
        }
        while i < self.items.len()
            invariant
                i <= self.items.len(),
                models == item_models(self.items@),
                minutes == self.expire_minutes,
                pred == |i: CacheItemModel| is_fresh(i, now, minutes),
                item_models(kept@) == models.take(i as int).filter(pred),
            decreases self.items.len() - i,
        {
            proof {
                reveal(Seq::filter);
                let part = models.take(i as int + 1);
                assert(part.drop_last() =~= models.take(i as int));
                assert(part.last() == self.items@[i as int]@);
            }
            if item_is_fresh(&self.items[i], now, minutes) {
                let ghost before = item_models(kept@);
                kept.push(
                    CacheItem {
                        key: self.items[i].key.clone(),
                        value: self.items[i].value.clone(),
                        timestamp: self.items[i].timestamp,
                    },
                );
                assert(item_models(kept@) =~= before.push(self.items@[i as int]@));
            }
            i = i + 1;
        }
        assert(models.take(self.items.len() as int) =~= models);
        self.items = kept;
    }

    /// Drops every item.
    pub fn clear(&mut self)
        ensures
            final(self)@ == (TranslationCacheModel { items: Seq::empty(), ..old(self)@ }),
    {
        self.items = Vec::new();
        assert(item_models(self.items@) =~= Seq::<CacheItemModel>::empty());
    }
}

/// A value that was set is given back for as long as it stays good, and not
/// after: asked at `later`, no earlier than it was set, the cache gives the
/// value exactly when no more time has passed than values stay good.
pub proof fn law_cache_serves_until_expiry(
    before: StatsCacheModel,
    data: StatsResponse,
    now: u64,
    later: u64,
)
    requires
        now <= later,
    ensures
        ({
            let after = StatsCacheModel {
                data: Some(data),
                last_updated: Some(now),
                cache_duration: before.cache_duration,
            };
            after.value_at(later) == if later - now <= before.cache_duration {
                Some(data)
            } else {
                None
            }
        }),
{
}

} // verus!
