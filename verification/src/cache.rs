//! A value that is fetched again once it is older than its time to live.
//!
//! Times and spans are counted in nanoseconds.
use std::sync::Arc;

use vstd::prelude::*;

verus! {

/// The last fetched value, with the time at which it was stored.
#[derive(Debug)]
pub struct TtlCache<T> {
    pub ttl: u128,
    pub entry: Option<(u128, Arc<T>)>,
}

impl<T> TtlCache<T> {
    /// Whether the cache holds a value younger than its time to live.
    pub open spec fn fresh(self, now: u128) -> bool {
        match self.entry {
            Some((at, _)) => if now <= at {
                self.ttl > 0
            } else {
                now - at < self.ttl
            },
            None => false,
        }
    }

    /// A cache that holds nothing yet.
    pub fn new(ttl: u128) -> (r: Self)
        ensures
            r.ttl == ttl,
            r.entry is None,
    {
        TtlCache { ttl, entry: None }
    }

    /// The cached value, where it is still fresh.
    pub fn lookup(&self, now: u128) -> (r: Option<Arc<T>>)
        ensures
            match r {
                Some(value) => self.fresh(now) && value == (self.entry->0).1,
                None => !self.fresh(now),
            },
    {
        match &self.entry {
            Some((at, value)) => {
                let elapsed: u128 = if now <= *at {
                    0
                } else {
                    now - *at
                };
                if elapsed < self.ttl {
                    Some(Arc::clone(value))
                } else {
                    None
                }
            },
            None => None,
        }
    }

    /// Takes in the result of a fetch: a value is stored and handed out, a
    /// failure leaves the cache as it was.
    pub fn refresh<E>(&mut self, now: u128, fetched: Result<T, E>) -> (r: Result<Arc<T>, E>)
        ensures
            final(self).ttl == old(self).ttl,
            match fetched {
                Ok(value) => r is Ok && *r->Ok_0 == value && final(self).entry == Some(
                    (now, r->Ok_0),
                ),
                Err(error) => r == Err::<Arc<T>, E>(error) && *final(self) == *old(self),
            },
    {
        match fetched {
            Ok(value) => {
                let shared = Arc::new(value);
                self.entry = Some((now, Arc::clone(&shared)));
                Ok(shared)
            },
            Err(error) => Err(error),
        }
    }
}

/// A value just stored is served until its time to live has passed, and not after.
pub proof fn stored_value_lives_for_its_ttl<T>(cache: TtlCache<T>, at: u128, value: Arc<T>, now: u128)
    requires
        cache.entry == Some((at, value)),
        at <= now,
    ensures
        cache.fresh(now) <==> now - at < cache.ttl,
{
}

/// A lookup gives the stored value while less than its time to live has passed since
/// it was stored, where a clock that went back counts as no time at all; after that,
/// and where nothing is stored, it gives nothing.
pub proof fn lookup_serves_fresh_values<T>(cache: TtlCache<T>, now: u128, r: Option<Arc<T>>)
    requires
        call_ensures(TtlCache::<T>::lookup, (&cache, now), r),
    ensures
        cache.entry is None ==> r is None,
        cache.entry is Some ==> {
            let (at, value) = cache.entry->0;
            let passed = if now <= at {
                0int
            } else {
                now - at
            };
            r == if passed < cache.ttl {
                Some(value)
            } else {
                None
            }
        },
{
}

/// A fetched value is stored with its time and handed out; a failed fetch is handed
/// on, and what was stored stays.
pub proof fn only_fetched_values_are_stored<T, E>(
    cache: &mut TtlCache<T>,
    now: u128,
    fetched: Result<T, E>,
    r: Result<Arc<T>, E>,
)
    requires
        call_ensures(TtlCache::<T>::refresh::<E>, (cache, now, fetched), r),
    ensures
        final(cache).ttl == old(cache).ttl,
        fetched is Ok ==> r is Ok && *r->Ok_0 == fetched->Ok_0 && final(cache).entry is Some && (
        final(cache).entry->0).0 == now && *(final(cache).entry->0).1 == fetched->Ok_0,
        fetched is Err ==> r is Err && r->Err_0 == fetched->Err_0 && final(cache).entry == old(
            cache,
        ).entry,
{
}

} // verus!
