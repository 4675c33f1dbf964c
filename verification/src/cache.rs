//! The two-tier cache: for each request key, the raw page snapshot together
//! with the structured record derived from it.
//!
//! The raw snapshot is solely the change detector; the structured record is
//! the fast path for reads. `reconcile` keeps the two in step: an unchanged
//! snapshot answers from the stored record without re-deriving it, a changed
//! or missing one re-derives and replaces the pair wholesale, and a failed
//! derivation leaves the prior entry untouched.

use vstd::prelude::*;

verus! {

use vstd::string::StringExecFns;

use crate::extract::{extract_menu, spec_extract};
use crate::menu::{DayMenu, DayMenuV, MenuError, duplicate_menu};
use crate::text::{push_decimal, spec_decimal, str_eq};

/// What a request is addressed by: the fixed site and the resolved ISO date.
/// Its query string doubles as the wire query and as the cache address.
#[derive(Clone, Debug)]
pub struct CacheKey {
    pub location: u32,
    pub date_iso: String,
}

impl CacheKey {
    /// The request's query string, `location=<id>&date=<iso>`: both the
    /// outbound wire parameters and the cache address of this key.
    pub open spec fn spec_query(self) -> Seq<char> {
        "location="@ + spec_decimal(self.location as nat) + "&date="@ + self.date_iso@
    }

    pub fn query_string(&self) -> (r: String)
        ensures
            r@ == self.spec_query(),
    {
        let mut s = String::from_str("location=");
        push_decimal(&mut s, self.location as usize);
        s.append("&date=");
        s.append(self.date_iso.as_str());
        proof {
            assert(s@ =~= self.spec_query());
        }
        s
    }
}

/// The mathematical value of one cache entry: the raw snapshot and the
/// structured record derived from it.
#[verifier::ext_equal]
pub struct CacheEntryV {
    pub raw: Seq<char>,
    pub menu: DayMenuV,
}

struct CacheEntry {
    key: String,
    raw: String,
    menu: DayMenu,
}

impl CacheEntry {
    spec fn entry_v(self) -> CacheEntryV {
        CacheEntryV { raw: self.raw@, menu: self.menu@ }
    }
}

/// The cache: entries addressed by their key's query string.
pub struct CacheStore {
    entries: Vec<CacheEntry>,
}

spec fn entries_map(s: Seq<CacheEntry>) -> Map<Seq<char>, CacheEntryV>
    decreases s.len(),
{
    if s.len() == 0 {
        Map::empty()
    } else {
        entries_map(s.drop_last()).insert(s.last().key@, s.last().entry_v())
    }
}

impl View for CacheStore {
    type V = Map<Seq<char>, CacheEntryV>;

    closed spec fn view(&self) -> Map<Seq<char>, CacheEntryV> {
        entries_map(self.entries@)
    }
}

spec fn distinct_keys(s: Seq<CacheEntry>) -> bool {
    forall|i: int, j: int| 0 <= i < j < s.len() ==> s[i].key@ != s[j].key@
}

proof fn lemma_map_membership(s: Seq<CacheEntry>, k: Seq<char>)
    ensures
        entries_map(s).contains_key(k) <==> exists|i: int| 0 <= i < s.len() && s[i].key@ == k,
    decreases s.len(),
{
    if s.len() > 0 {
        lemma_map_membership(s.drop_last(), k);
        if entries_map(s).contains_key(k) {
            if s.last().key@ == k {
                assert(s[s.len() - 1].key@ == k);
            } else {
                let i = choose|i: int| 0 <= i < s.drop_last().len() && s.drop_last()[i].key@ == k;
                assert(s[i].key@ == k);
            }
        }
        if exists|i: int| 0 <= i < s.len() && s[i].key@ == k {
            let i = choose|i: int| 0 <= i < s.len() && s[i].key@ == k;
            if i < s.len() - 1 {
                assert(s.drop_last()[i].key@ == k);
            }
        }
    }
}

proof fn lemma_map_at(s: Seq<CacheEntry>, i: int)
    requires
        distinct_keys(s),
        0 <= i < s.len(),
    ensures
        entries_map(s).contains_key(s[i].key@),
        entries_map(s)[s[i].key@] == s[i].entry_v(),
    decreases s.len(),
{
    if i == s.len() - 1 {
    } else {
        assert(distinct_keys(s.drop_last()));
        lemma_map_at(s.drop_last(), i);
        assert(s.drop_last()[i] == s[i]);
        assert(s.last().key@ != s[i].key@);
    }
}

proof fn lemma_map_update(s: Seq<CacheEntry>, i: int, e: CacheEntry)
    requires
        distinct_keys(s),
        0 <= i < s.len(),
        e.key@ == s[i].key@,
    ensures
        entries_map(s.update(i, e)) =~= entries_map(s).insert(e.key@, e.entry_v()),
        distinct_keys(s.update(i, e)),
    decreases s.len(),
{
    let t = s.update(i, e);
    assert(t.len() == s.len());
    if i == s.len() - 1 {
        assert(t.drop_last() =~= s.drop_last());
        assert(t.last() == e);
        assert(entries_map(t) == entries_map(s.drop_last()).insert(e.key@, e.entry_v()));
        assert(entries_map(s.drop_last()).insert(s.last().key@, s.last().entry_v()).insert(
            e.key@,
            e.entry_v(),
        ) =~= entries_map(s.drop_last()).insert(e.key@, e.entry_v()));
    } else {
        assert(distinct_keys(s.drop_last()));
        assert(s.drop_last()[i] == s[i]);
        lemma_map_update(s.drop_last(), i, e);
        assert(t.drop_last() =~= s.drop_last().update(i, e));
        assert(t.last() == s.last());
        assert(entries_map(t) == entries_map(s.drop_last().update(i, e)).insert(
            s.last().key@,
            s.last().entry_v(),
        ));
        assert(s.last().key@ != e.key@);
        assert(entries_map(s.drop_last()).insert(e.key@, e.entry_v()).insert(
            s.last().key@,
            s.last().entry_v(),
        ) =~= entries_map(s.drop_last()).insert(s.last().key@, s.last().entry_v()).insert(
            e.key@,
            e.entry_v(),
        ));
    }
}

/// The cache address is injective: two keys with the same query string are
/// the same key. Both cache artifacts of a key take their file names from
/// this string alone, so entries never collide across dates or locations.
pub proof fn lemma_query_injective(a: CacheKey, b: CacheKey)
    requires
        a.spec_query() == b.spec_query(),
    ensures
        a.location == b.location,
        a.date_iso@ == b.date_iso@,
{
    reveal_strlit("location=");
    reveal_strlit("&date=");
    let pre = "location="@;
    let mid = "&date="@;
    let da = spec_decimal(a.location as nat);
    let db = spec_decimal(b.location as nat);
    crate::codec::lemma_decimal_digits(a.location as nat);
    crate::codec::lemma_decimal_digits(b.location as nat);
    let w = a.spec_query();
    assert(pre.len() == 9 && mid.len() == 6);
    assert(!crate::text::spec_is_digit(mid[0]));
    assert(w.skip(9) =~= da + (mid + a.date_iso@));
    assert(w.skip(9) =~= db + (mid + b.date_iso@));
    crate::codec::lemma_digit_run_concat(da, mid + a.date_iso@);
    crate::codec::lemma_digit_run_concat(db, mid + b.date_iso@);
    assert(da.len() == crate::codec::spec_digit_run(w.skip(9)));
    assert(db.len() == da.len());
    assert(da =~= w.skip(9).take(da.len() as int));
    assert(db =~= w.skip(9).take(da.len() as int));
    assert(crate::codec::spec_digits_val(da) == a.location as nat);
    assert(crate::codec::spec_digits_val(db) == b.location as nat);
    assert(a.date_iso@ =~= w.skip(9).skip(da.len() as int).skip(6));
    assert(b.date_iso@ =~= w.skip(9).skip(db.len() as int).skip(6));
}

/// The cache reconciliation rule over mathematical values: what one
/// `reconcile` call does to the store's contents and returns.
///
/// An entry whose stored snapshot equals the fresh text answers from the
/// stored record, touching nothing. Otherwise the fresh text is extracted
/// for the key's date: success replaces the pair wholesale, failure leaves
/// the store as it was.
pub open spec fn spec_reconcile(
    m: Map<Seq<char>, CacheEntryV>,
    k: Seq<char>,
    date: Seq<char>,
    raw: Seq<char>,
) -> (Map<Seq<char>, CacheEntryV>, Result<DayMenuV, MenuError>) {
    if m.contains_key(k) && m[k].raw == raw {
        (m, Ok(m[k].menu))
    } else {
        match spec_extract(raw, date) {
            Ok(mv) => (m.insert(k, CacheEntryV { raw, menu: mv }), Ok(mv)),
            Err(e) => (m, Err(e)),
        }
    }
}

/// Reconciling the same raw snapshot twice does the derivation work at most
/// once: whatever the first call left, the second call finds a stored
/// snapshot equal to the fresh one whenever the first succeeded, so it
/// answers from the stored record, changes nothing, and returns the same
/// result; and a failed first call leaves the store as it was, so the second
/// fails the same way.
pub proof fn lemma_reconcile_idempotent(
    m: Map<Seq<char>, CacheEntryV>,
    k: Seq<char>,
    date: Seq<char>,
    raw: Seq<char>,
)
    ensures
        ({
            let (m1, r1) = spec_reconcile(m, k, date, raw);
            let (m2, r2) = spec_reconcile(m1, k, date, raw);
            &&& m2 == m1
            &&& r2 == r1
            &&& r1 is Ok ==> m1.contains_key(k) && m1[k].raw == raw && r1 == Ok::<
                DayMenuV,
                MenuError,
            >(m1[k].menu)
        }),
{
}

impl CacheStore {
    /// The store's entries carry pairwise different keys.
    pub closed spec fn wf(self) -> bool {
        distinct_keys(self.entries@)
    }

    /// An empty store.
    pub fn new() -> (r: CacheStore)
        ensures
            r.wf(),
            r@ == Map::<Seq<char>, CacheEntryV>::empty(),
    {
        let entries: Vec<CacheEntry> = Vec::new();
        CacheStore { entries }
    }

    fn find_index(&self, q: &str) -> (r: Option<usize>)
        ensures
            match r {
                Some(i) => i < self.entries@.len() && self.entries@[i as int].key@ == q@,
                None => forall|j: int| 0 <= j < self.entries@.len() ==> self.entries@[j].key@ != q@,
            },
    {
        let mut i: usize = 0;
        while i < self.entries.len()
            invariant
                i <= self.entries@.len(),
                forall|j: int| 0 <= j < i ==> self.entries@[j].key@ != q@,
            decreases self.entries@.len() - i,
        {
            if str_eq(self.entries[i].key.as_str(), q) {
                return Some(i);
            }
            i = i + 1;
        }
        None
    }

    /// The stored structured record for a key, without touching the network
    /// or re-deriving anything; nothing when the key has no entry.
    pub fn read(&self, key: &CacheKey) -> (r: Option<DayMenu>)
        requires
            self.wf(),
        ensures
            match r {
                Some(m) => self@.contains_key(key.spec_query()) && m@ == self@[key.spec_query()].menu,
                None => !self@.contains_key(key.spec_query()),
            },
    {
        let q = key.query_string();
        proof {
            lemma_map_membership(self.entries@, key.spec_query());
        }
        match self.find_index(q.as_str()) {
            Some(i) => {
                proof {
                    lemma_map_at(self.entries@, i as int);
                }
                Some(duplicate_menu(&self.entries[i].menu))
            },
            None => None,
        }
    }

    /// The stored raw snapshot for a key, when one exists.
    pub fn read_raw(&self, key: &CacheKey) -> (r: Option<String>)
        requires
            self.wf(),
        ensures
            match r {
                Some(s) => self@.contains_key(key.spec_query()) && s@ == self@[key.spec_query()].raw,
                None => !self@.contains_key(key.spec_query()),
            },
    {
        let q = key.query_string();
        proof {
            lemma_map_membership(self.entries@, key.spec_query());
        }
        match self.find_index(q.as_str()) {
            Some(i) => {
                proof {
                    lemma_map_at(self.entries@, i as int);
                }
                Some(self.entries[i].raw.clone())
            },
            None => None,
        }
    }

    /// Reconciles a fresh raw snapshot against the store, as
    /// `spec_reconcile` says: a byte-equal snapshot answers from the stored
    /// record without re-deriving it; otherwise the fresh text is extracted
    /// and, on success, both tiers are replaced together; a failed
    /// extraction changes nothing.
    pub fn reconcile(&mut self, key: &CacheKey, fresh_raw: &str) -> (r: Result<DayMenu, MenuError>)
        requires
            old(self).wf(),
        ensures
            final(self).wf(),
            final(self)@ == spec_reconcile(
                old(self)@,
                key.spec_query(),
                key.date_iso@,
                fresh_raw@,
            ).0,
            match r {
                Ok(m) => spec_reconcile(old(self)@, key.spec_query(), key.date_iso@, fresh_raw@).1
                    == Ok::<DayMenuV, MenuError>(m@),
                Err(e) => spec_reconcile(old(self)@, key.spec_query(), key.date_iso@, fresh_raw@).1
                    == Err::<DayMenuV, MenuError>(e),
            },
    {
        let ghost k = key.spec_query();
        let q = key.query_string();
        proof {
            lemma_map_membership(self.entries@, k);
        }
        let found = self.find_index(q.as_str());
        if let Some(i) = found {
            proof {
                lemma_map_at(self.entries@, i as int);
            }
            if str_eq(self.entries[i].raw.as_str(), fresh_raw) {
                return Ok(duplicate_menu(&self.entries[i].menu));
            }
        }
        match extract_menu(fresh_raw, key.date_iso.as_str()) {
            Err(e) => Err(e),
            Ok(menu) => {
                let stored = duplicate_menu(&menu);
                let entry = CacheEntry { key: q, raw: fresh_raw.to_owned(), menu: stored };
                match found {
                    Some(i) => {
                        proof {
                            lemma_map_update(self.entries@, i as int, entry);
                        }
                        self.entries.set(i, entry);
                    },
                    None => {
                        proof {
                            assert(self.entries@.push(entry).drop_last() =~= self.entries@);
                            assert(self.entries@.push(entry).last() == entry);
                        }
                        self.entries.push(entry);
                    },
                }
                Ok(menu)
            },
        }
    }
}

} // verus!
