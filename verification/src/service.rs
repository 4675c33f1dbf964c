//! The single entry point for callers: resolve a requested day-offset into a
//! date and cache key, answer from the cache when it can, and reconcile
//! freshly fetched page text when it cannot. Fetching itself is the
//! caller's: the service hands out the key whose query string names what to
//! ask the source for.

use vstd::prelude::*;

verus! {

use crate::cache::{CacheEntryV, CacheKey, CacheStore, spec_reconcile};
use crate::date::{Date, MAX_YEAR, spec_iso_date};
use crate::menu::{DayMenu, DayMenuV, MenuError};

/// A resolved request: the cache key to consult, the calendar date it names,
/// and how many days the resolution moved forward past a weekend.
pub struct ResolvedRequest {
    pub key: CacheKey,
    pub date: Date,
    pub shifted_by: u32,
}

/// The menu service: the fixed site identifier and the cache it keeps.
pub struct MenuService {
    pub location: u32,
    pub store: CacheStore,
}

impl MenuService {
    pub open spec fn wf(self) -> bool {
        self.store.wf()
    }

    /// A service for one site, with an empty cache.
    pub fn new(location: u32) -> (r: MenuService)
        ensures
            r.wf(),
            r.location == location,
            r.store@ == Map::<Seq<char>, CacheEntryV>::empty(),
    {
        MenuService { location, store: CacheStore::new() }
    }

    /// Resolves a request for `today + mode` days: the weekend-shifted date,
    /// how far it shifted, and the cache key that addresses it.
    pub fn plan(&self, today: &Date, mode: u32) -> (r: ResolvedRequest)
        requires
            today.wf(),
            today.year < MAX_YEAR,
            mode <= 2,
        ensures
            r.date == today.spec_resolve(mode as nat).date,
            r.shifted_by == today.spec_resolve(mode as nat).shifted_by,
            r.date.wf(),
            r.shifted_by <= 2,
            r.key.location == self.location,
            r.key.date_iso@ == spec_iso_date(r.date),
    {
        let rd = today.resolve(mode);
        let date_iso = rd.date.iso_string();
        ResolvedRequest {
            key: CacheKey { location: self.location, date_iso },
            date: rd.date,
            shifted_by: rd.shifted_by,
        }
    }

    /// The read path of `get_menu`: the cached structured record for the
    /// resolved request, or nothing, in which case the caller fetches the
    /// key's query and hands the text to `get_menu_fetched`.
    pub fn get_menu_cached(&self, req: &ResolvedRequest) -> (r: Option<DayMenu>)
        requires
            self.wf(),
        ensures
            match r {
                Some(m) => self.store@.contains_key(req.key.spec_query()) && m@
                    == self.store@[req.key.spec_query()].menu,
                None => !self.store@.contains_key(req.key.spec_query()),
            },
    {
        self.store.read(&req.key)
    }

    /// The miss path of `get_menu`: reconciles freshly fetched page text
    /// against the cache and returns the structured menu, or the error that
    /// says why there is none, with the cache left untouched on failure.
    pub fn get_menu_fetched(&mut self, req: &ResolvedRequest, raw: &str) -> (r: Result<
        DayMenu,
        MenuError,
    >)
        requires
            old(self).wf(),
        ensures
            final(self).wf(),
            final(self).location == old(self).location,
            final(self).store@ == spec_reconcile(
                old(self).store@,
                req.key.spec_query(),
                req.key.date_iso@,
                raw@,
            ).0,
            match r {
                Ok(m) => spec_reconcile(
                    old(self).store@,
                    req.key.spec_query(),
                    req.key.date_iso@,
                    raw@,
                ).1 == Ok::<DayMenuV, MenuError>(m@),
                Err(e) => spec_reconcile(
                    old(self).store@,
                    req.key.spec_query(),
                    req.key.date_iso@,
                    raw@,
                ).1 == Err::<DayMenuV, MenuError>(e),
            },
    {
        self.store.reconcile(&req.key, raw)
    }

    /// The prefetch plan: one cache key for each distinct date that the
    /// three request offsets resolve to today, in the same order as the
    /// resolver's date set. The keys are pairwise disjoint, so concurrent
    /// per-date work touches disjoint storage and needs no cross-unit
    /// locking.
    pub fn prefetch_plan(&self, today: &Date) -> (r: Vec<CacheKey>)
        requires
            today.wf(),
            today.year < MAX_YEAR,
        ensures
            r@.len() == today.spec_prefetch_dates().len(),
            forall|i: int|
                0 <= i < r@.len() ==> (#[trigger] r@[i]).location == self.location
                    && r@[i].date_iso@ == spec_iso_date(today.spec_prefetch_dates()[i]),
            forall|i: int, j: int|
                0 <= i < j < r@.len() ==> (#[trigger] r@[i]).spec_query() != (
                #[trigger] r@[j]).spec_query(),
    {
        let dates = today.prefetch_dates();
        let mut r: Vec<CacheKey> = Vec::new();
        let mut i: usize = 0;
        while i < dates.len()
            invariant
                i <= dates@.len(),
                dates@ == today.spec_prefetch_dates(),
                forall|j: int| 0 <= j < dates@.len() ==> (#[trigger] dates@[j]).wf(),
                r@.len() == i,
                forall|j: int|
                    0 <= j < i ==> (#[trigger] r@[j]).location == self.location && r@[j].date_iso@
                        == spec_iso_date(dates@[j]),
            decreases dates@.len() - i,
        {
            let date_iso = dates[i].iso_string();
            r.push(CacheKey { location: self.location, date_iso });
            i = i + 1;
        }
        proof {
            crate::date::lemma_prefetch_dates(*today);
            assert forall|a: int, b: int| 0 <= a < b < r@.len() implies (#[trigger] r@[a]).spec_query()
                != (#[trigger] r@[b]).spec_query() by {
                if r@[a].spec_query() == r@[b].spec_query() {
                    crate::cache::lemma_query_injective(r@[a], r@[b]);
                    crate::date::lemma_iso_date_injective(dates@[a], dates@[b]);
                }
            }
        }
        r
    }
}

} // verus!
