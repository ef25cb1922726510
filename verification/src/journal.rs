//! The journal cache: the single point of truth the application talks to.
//!
//! A read-through, write-through cache from date to entry in front of a
//! repository. A read misses through to the repository and caches what it
//! finds; absence is not cached, so out-of-band writes become visible on the
//! next read. `get_entry_mut` materializes a fresh empty entry for dates
//! with no data, so the editor workflow always has something to edit; the
//! materialized entry is served from the cache afterwards. Saving pushes the
//! cached copy through to the repository and never touches the cache.

use vstd::prelude::*;

use crate::date::{Date, DateRange};
use crate::entry::{Entry, EntryModel};
use crate::error::JournalError;
use crate::storage::{
    entry_views, lemma_map_of_contains, lemma_map_of_index, lemma_map_of_push, listed_dates_ok,
    map_of, unique_dates, upsert, EntryRepository,
};

verus! {

/// What a read of `date` finds, cache first, then backend.
pub open spec fn lookup(
    cache: Map<int, EntryModel>,
    backend: Map<int, EntryModel>,
    date: Date,
) -> Option<EntryModel> {
    if cache.contains_key(date.ord()) {
        Some(cache[date.ord()])
    } else if backend.contains_key(date.ord()) {
        Some(backend[date.ord()])
    } else {
        None
    }
}

/// What `get_entry_mut` hands out: what a read finds, or a fresh empty
/// entry.
pub open spec fn materialize(
    cache: Map<int, EntryModel>,
    backend: Map<int, EntryModel>,
    date: Date,
) -> EntryModel {
    match lookup(cache, backend, date) {
        Some(e) => e,
        None => EntryModel::empty(date),
    }
}

/// The cache after `get_entry`: a hit leaves it alone; a miss caches what
/// the backend had; absence is not cached.
pub open spec fn cache_after_get(
    cache: Map<int, EntryModel>,
    backend: Map<int, EntryModel>,
    date: Date,
) -> Map<int, EntryModel> {
    if cache.contains_key(date.ord()) {
        cache
    } else if backend.contains_key(date.ord()) {
        cache.insert(date.ord(), backend[date.ord()])
    } else {
        cache
    }
}

/// The cache after `get_entry_mut`: afterwards the date is always cached.
pub open spec fn cache_after_get_mut(
    cache: Map<int, EntryModel>,
    backend: Map<int, EntryModel>,
    date: Date,
) -> Map<int, EntryModel> {
    if cache.contains_key(date.ord()) {
        cache
    } else {
        cache.insert(date.ord(), materialize(cache, backend, date))
    }
}

/// The in-memory journal cache over a repository.
pub struct Journal<R: EntryRepository> {
    entries: Vec<Entry>,
    repository: R,
}

impl<R: EntryRepository> Journal<R> {
    /// At most one cached entry per date, every cached date valid.
    /// Constructors establish it; every method preserves it.
    pub closed spec fn wf(self) -> bool {
        &&& unique_dates(entry_views(self.entries@))
        &&& forall|i: int|
            0 <= i < self.entries@.len() ==> (#[trigger] entry_views(
                self.entries@,
            )[i]).date.valid()
    }

    /// The cached entries, keyed by `Date::ord`.
    pub closed spec fn cache(&self) -> Map<int, EntryModel> {
        map_of(entry_views(self.entries@))
    }

    /// The repository's durable entries, keyed by `Date::ord`.
    pub closed spec fn backend(&self) -> Map<int, EntryModel> {
        self.repository.entries()
    }

    /// A journal with an empty cache over the given repository.
    pub fn new(repository: R) -> (r: Journal<R>)
        ensures
            r.wf(),
            r.cache() == Map::<int, EntryModel>::empty(),
            r.backend() == repository.entries(),
    {
        let r = Journal { entries: Vec::new(), repository };
        proof {
            assert(entry_views(r.entries@) =~= Seq::<EntryModel>::empty());
        }
        r
    }

    /// Index of the cached entry for a date, if any.
    fn find_index(&self, date: Date) -> (r: Option<usize>)
        requires
            self.wf(),
            date.valid(),
        ensures
            match r {
                Some(i) => 0 <= i < self.entries@.len() && entry_views(
                    self.entries@,
                )[i as int].date.ord() == date.ord(),
                None => forall|j: int|
                    0 <= j < self.entries@.len() ==> (#[trigger] entry_views(
                        self.entries@,
                    )[j]).date.ord() != date.ord(),
            },
    {
        let k = date.ord_key();
        let mut j: usize = 0;
        while j < self.entries.len()
            invariant
                0 <= j <= self.entries@.len(),
                self.wf(),
                k as int == date.ord(),
                forall|a: int|
                    0 <= a < j ==> (#[trigger] entry_views(self.entries@)[a]).date.ord()
                        != date.ord(),
            decreases self.entries@.len() - j,
        {
            proof {
                assert(entry_views(self.entries@)[j as int] == self.entries@[j as int]@);
            }
            if self.entries[j].date.ord_key() == k {
                return Some(j);
            }
            j = j + 1;
        }
        None
    }

    /// Caches an entry for a date not yet cached.
    fn cache_insert(&mut self, entry: Entry)
        requires
            old(self).wf(),
            entry.date.valid(),
            !old(self).cache().contains_key(entry.date.ord()),
        ensures
            final(self).wf(),
            final(self).cache() == old(self).cache().insert(entry.date.ord(), entry@),
            final(self).repository == old(self).repository,
    {
        let ghost s0 = entry_views(self.entries@);
        proof {
            lemma_map_of_contains(s0, entry@.date.ord());
            assert(forall|j: int|
                0 <= j < s0.len() ==> (#[trigger] s0[j]).date.ord() != entry@.date.ord());
        }
        self.entries.push(entry);
        proof {
            assert(entry_views(self.entries@) =~= s0.push(entry@));
            lemma_map_of_push(s0, entry@);
            assert(unique_dates(entry_views(self.entries@))) by {
                assert(forall|a: int|
                    0 <= a < s0.len() ==> #[trigger] entry_views(self.entries@)[a] == s0[a]);
                assert(entry_views(self.entries@)[entry_views(self.entries@).len() - 1] == entry@);
            }
        }
    }

    /// The entry for a date: from the cache, else loaded through the
    /// repository and cached. Absence is `Ok(None)` and is not cached.
    pub fn get_entry(&mut self, date: Date) -> (r: Result<Option<Entry>, JournalError>)
        requires
            old(self).wf(),
            date.valid(),
        ensures
            final(self).wf(),
            final(self).backend() == old(self).backend(),
            old(self).cache().contains_key(date.ord()) ==> r is Ok,
            match r {
                Ok(o) => {
                    &&& (match o {
                        Some(e) => lookup(old(self).cache(), old(self).backend(), date) == Some(
                            e@,
                        ) && e@.date == date,
                        None => lookup(old(self).cache(), old(self).backend(), date) is None,
                    })
                    &&& final(self).cache() == cache_after_get(
                        old(self).cache(),
                        old(self).backend(),
                        date,
                    )
                },
                Err(_) => final(self).cache() == old(self).cache(),
            },
    {
        proof {
            lemma_map_of_contains(entry_views(self.entries@), date.ord());
        }
        match self.find_index(date) {
            Some(i) => {
                proof {
                    lemma_map_of_index(entry_views(self.entries@), i as int);
                    crate::date::lemma_ord_injective(
                        entry_views(self.entries@)[i as int].date,
                        date,
                    );
                }
                Ok(Some(self.entries[i].clone()))
            },
            None => {
                match self.repository.load(date) {
                    Ok(Some(e)) => {
                        let out = e.clone();
                        self.cache_insert(e);
                        Ok(Some(out))
                    },
                    Ok(None) => Ok(None),
                    Err(err) => Err(err),
                }
            },
        }
    }

    /// A usable entry for a date, always: cached, loaded, or freshly
    /// materialized (and cached) when neither the cache nor the repository
    /// has one.
    pub fn get_entry_mut(&mut self, date: Date) -> (r: Result<Entry, JournalError>)
        requires
            old(self).wf(),
            date.valid(),
        ensures
            final(self).wf(),
            final(self).backend() == old(self).backend(),
            old(self).cache().contains_key(date.ord()) ==> r is Ok,
            match r {
                Ok(e) => e@ == materialize(old(self).cache(), old(self).backend(), date)
                    && e@.date == date && final(self).cache() == cache_after_get_mut(
                    old(self).cache(),
                    old(self).backend(),
                    date,
                ),
                Err(_) => final(self).cache() == old(self).cache(),
            },
    {
        proof {
            lemma_map_of_contains(entry_views(self.entries@), date.ord());
        }
        match self.find_index(date) {
            Some(i) => {
                proof {
                    lemma_map_of_index(entry_views(self.entries@), i as int);
                    crate::date::lemma_ord_injective(
                        entry_views(self.entries@)[i as int].date,
                        date,
                    );
                }
                Ok(self.entries[i].clone())
            },
            None => {
                match self.repository.load(date) {
                    Ok(Some(e)) => {
                        let out = e.clone();
                        self.cache_insert(e);
                        Ok(out)
                    },
                    Ok(None) => {
                        let e = Entry::new(date);
                        let out = e.clone();
                        self.cache_insert(e);
                        Ok(out)
                    },
                    Err(err) => Err(err),
                }
            },
        }
    }

    /// Replaces (or sets) the cached entry for the entry's date, without
    /// touching the repository.
    pub fn insert_entry(&mut self, entry: Entry)
        requires
            old(self).wf(),
            entry.date.valid(),
        ensures
            final(self).wf(),
            final(self).cache() == old(self).cache().insert(entry.date.ord(), entry@),
            final(self).backend() == old(self).backend(),
    {
        let ghost s0 = entry_views(self.entries@);
        match self.find_index(entry.date) {
            Some(i) => {
                proof {
                    crate::storage::lemma_map_of_remove(s0, i as int);
                }
                self.entries.remove(i);
                proof {
                    assert(entry_views(self.entries@) =~= s0.remove(i as int));
                    lemma_unique_remove_j(s0, i as int);
                }
                proof {
                    lemma_map_of_contains(entry_views(self.entries@), entry@.date.ord());
                    if exists|j: int|
                        0 <= j < entry_views(self.entries@).len() && (#[trigger] entry_views(
                            self.entries@,
                        )[j]).date.ord() == entry@.date.ord() {
                        let j = choose|j: int|
                            0 <= j < entry_views(self.entries@).len() && (#[trigger] entry_views(
                                self.entries@,
                            )[j]).date.ord() == entry@.date.ord();
                        lemma_map_of_index(entry_views(self.entries@), j);
                        assert(false);
                    }
                }
                self.cache_insert(entry);
                proof {
                    assert(final(self).cache() =~= old(self).cache().insert(
                        entry@.date.ord(),
                        entry@,
                    ));
                }
            },
            None => {
                proof {
                    lemma_map_of_contains(s0, entry@.date.ord());
                }
                self.cache_insert(entry);
            },
        }
    }

    /// Writes the cached entry for a date through to the repository; a date
    /// with nothing cached is a no-op.
    pub fn save_entry(&mut self, date: Date) -> (r: Result<(), JournalError>)
        requires
            old(self).wf(),
            date.valid(),
        ensures
            final(self).wf(),
            final(self).cache() == old(self).cache(),
            !old(self).cache().contains_key(date.ord()) ==> r is Ok,
            match r {
                Ok(_) => final(self).backend() == (if old(self).cache().contains_key(date.ord()) {
                    upsert(old(self).backend(), old(self).cache()[date.ord()])
                } else {
                    old(self).backend()
                }),
                Err(_) => final(self).backend() == old(self).backend(),
            },
    {
        proof {
            lemma_map_of_contains(entry_views(self.entries@), date.ord());
        }
        match self.find_index(date) {
            Some(i) => {
                proof {
                    lemma_map_of_index(entry_views(self.entries@), i as int);
                }
                let e = self.entries[i].clone();
                self.repository.save(e)
            },
            None => Ok(()),
        }
    }

    /// The entries of the range, cache first, backend second, ascending by
    /// date; loaded entries are cached along the way.
    pub fn get_entries_in_range(&mut self, range: DateRange) -> (r: Result<
        Vec<Entry>,
        JournalError,
    >)
        requires
            old(self).wf(),
            range.valid(),
        ensures
            final(self).wf(),
            final(self).backend() == old(self).backend(),
            (forall|d: Date|
                d.valid() && range.start.ord() <= #[trigger] d.ord() <= range.end.ord() ==> old(
                    self,
                ).cache().contains_key(d.ord())) ==> r is Ok,
            // Reads populate the cache exactly as `get_entry` does: nothing
            // is evicted, only durable entries of the range come in, and a
            // cached value is never refreshed.
            forall|k: int|
                old(self).cache().contains_key(k) ==> #[trigger] final(self).cache().contains_key(
                    k,
                ),
            forall|k: int|
                #[trigger] final(self).cache().contains_key(k) ==> old(self).cache().contains_key(
                    k,
                ) || (old(self).backend().contains_key(k) && (exists|d: Date|
                    d.valid() && range.start.ord() <= #[trigger] d.ord() <= range.end.ord()
                        && d.ord() == k)),
            forall|k: int|
                #[trigger] final(self).cache().contains_key(k) ==> final(self).cache()[k] == (
                if old(self).cache().contains_key(k) {
                    old(self).cache()[k]
                } else {
                    old(self).backend()[k]
                }),
            match r {
                Ok(v) => {
                    let ms = entry_views(v@);
                    &&& forall|i: int, j: int|
                        0 <= i < j < ms.len() ==> (#[trigger] ms[i]).date.ord() < (
                        #[trigger] ms[j]).date.ord()
                    &&& forall|i: int|
                        0 <= i < ms.len() ==> range.start.ord() <= (#[trigger] ms[i]).date.ord()
                            <= range.end.ord() && lookup(
                            old(self).cache(),
                            old(self).backend(),
                            ms[i].date,
                        ) == Some(ms[i])
                    &&& forall|d: Date|
                        #![trigger lookup(old(self).cache(), old(self).backend(), d)]
                        d.valid() && range.start.ord() <= d.ord() <= range.end.ord() && lookup(
                            old(self).cache(),
                            old(self).backend(),
                            d,
                        ) is Some ==> exists|i: int|
                            0 <= i < ms.len() && (#[trigger] ms[i]).date.ord() == d.ord()
                    &&& forall|d: Date|
                        d.valid() && range.start.ord() <= #[trigger] d.ord() <= range.end.ord()
                            && old(self).backend().contains_key(d.ord()) ==> final(self).cache().contains_key(d.ord())
                },
                Err(_) => true,
            },
    {
        let days = range.days();
        let mut out: Vec<Entry> = Vec::new();
        let mut di: usize = 0;
        while di < days.len()
            invariant
                0 <= di <= days@.len(),
                range.valid(),
                self.wf(),
                self.backend() == old(self).backend(),
                forall|a: int|
                    0 <= a < days@.len() ==> (#[trigger] days@[a]).valid() && range.start.ord()
                        <= days@[a].ord() <= range.end.ord(),
                forall|a: int, b: int| 0 <= a < b < days@.len() ==> days@[a].ord() < days@[b].ord(),
                forall|i: int|
                    0 <= i < entry_views(out@).len() ==> range.start.ord() <= (
                    #[trigger] entry_views(out@)[i]).date.ord() <= range.end.ord() && lookup(
                        old(self).cache(),
                        old(self).backend(),
                        entry_views(out@)[i].date,
                    ) == Some(entry_views(out@)[i]) && (exists|d: int|
                        0 <= d < di && (#[trigger] days@[d]).ord() == entry_views(
                            out@,
                        )[i].date.ord()),
                forall|i: int, j: int|
                    0 <= i < j < entry_views(out@).len() ==> (#[trigger] entry_views(
                        out@,
                    )[i]).date.ord() < (#[trigger] entry_views(out@)[j]).date.ord(),
                forall|d: int|
                    0 <= d < di && lookup(
                        old(self).cache(),
                        old(self).backend(),
                        days@[d],
                    ) is Some ==> exists|i: int|
                        0 <= i < entry_views(out@).len() && (#[trigger] entry_views(
                            out@,
                        )[i]).date.ord() == (#[trigger] days@[d]).ord(),
                forall|k: int|
                    self.cache().contains_key(k) <==> old(self).cache().contains_key(k) || (exists|
                        d: int,
                    |
                        0 <= d < di && (#[trigger] days@[d]).ord() == k && old(
                            self,
                        ).backend().contains_key(k)),
                forall|k: int|
                    self.cache().contains_key(k) ==> self.cache()[k] == (if old(
                        self,
                    ).cache().contains_key(k) {
                        old(self).cache()[k]
                    } else {
                        old(self).backend()[k]
                    }),
            decreases days@.len() - di,
        {
            let d = days[di];
            let ghost c0 = self.cache();
            let ghost o0 = entry_views(out@);
            proof {
                // A read through the evolved cache finds exactly what a read
                // through the original cache would.
                lemma_lookup_stable(old(self).cache(), c0, old(self).backend(), d);
            }
            match self.get_entry(d) {
                Ok(Some(e)) => {
                    let ghost em = e@;
                    out.push(e);
                    proof {
                        assert(entry_views(out@) =~= o0.push(em));
                        assert(lookup(c0, old(self).backend(), d) == Some(em));
                        assert(em.date == d);
                        assert(entry_views(out@)[entry_views(out@).len() - 1] == em);
                        assert forall|dd: int|
                            0 <= dd < di + 1 && lookup(
                                old(self).cache(),
                                old(self).backend(),
                                days@[dd],
                            ) is Some implies exists|i: int|
                                0 <= i < entry_views(out@).len() && (#[trigger] entry_views(
                                    out@,
                                )[i]).date.ord() == (#[trigger] days@[dd]).ord() by {
                            if dd == di as int {
                                assert(entry_views(out@)[entry_views(out@).len() - 1].date.ord()
                                    == days@[dd].ord());
                            } else {
                                let i = choose|i: int|
                                    0 <= i < o0.len() && (#[trigger] o0[i]).date.ord()
                                        == days@[dd].ord();
                                assert(entry_views(out@)[i].date.ord() == days@[dd].ord());
                            }
                        }
                        assert forall|k: int|
                            self.cache().contains_key(k) <==> old(self).cache().contains_key(k)
                                || (exists|dd: int|
                                0 <= dd < di + 1 && (#[trigger] days@[dd]).ord() == k && old(
                                    self,
                                ).backend().contains_key(k)) by {
                            if self.cache().contains_key(k) && !old(self).cache().contains_key(k) {
                                if c0.contains_key(k) {
                                    let dd = choose|dd: int|
                                        0 <= dd < di && (#[trigger] days@[dd]).ord() == k && old(
                                            self,
                                        ).backend().contains_key(k);
                                    assert(days@[dd].ord() == k);
                                } else {
                                    assert(days@[di as int].ord() == k);
                                }
                            }
                            if !self.cache().contains_key(k) && (exists|dd: int|
                                0 <= dd < di + 1 && (#[trigger] days@[dd]).ord() == k && old(
                                    self,
                                ).backend().contains_key(k)) {
                                let dd = choose|dd: int|
                                    0 <= dd < di + 1 && (#[trigger] days@[dd]).ord() == k && old(
                                        self,
                                    ).backend().contains_key(k);
                                if dd < di {
                                    assert(c0.contains_key(k));
                                    assert(self.cache().contains_key(k));
                                } else {
                                    assert(days@[di as int].ord() == k);
                                }
                            }
                        }
                    }
                },
                Ok(None) => {
                    proof {
                        assert(lookup(old(self).cache(), old(self).backend(), d) is None);
                        assert forall|k: int|
                            self.cache().contains_key(k) <==> old(self).cache().contains_key(k)
                                || (exists|dd: int|
                                0 <= dd < di + 1 && (#[trigger] days@[dd]).ord() == k && old(
                                    self,
                                ).backend().contains_key(k)) by {
                            if self.cache().contains_key(k) && !old(self).cache().contains_key(k) {
                                let dd = choose|dd: int|
                                    0 <= dd < di && (#[trigger] days@[dd]).ord() == k && old(
                                        self,
                                    ).backend().contains_key(k);
                                assert(days@[dd].ord() == k);
                            }
                            if !self.cache().contains_key(k) && (exists|dd: int|
                                0 <= dd < di + 1 && (#[trigger] days@[dd]).ord() == k && old(
                                    self,
                                ).backend().contains_key(k)) {
                                let dd = choose|dd: int|
                                    0 <= dd < di + 1 && (#[trigger] days@[dd]).ord() == k && old(
                                        self,
                                    ).backend().contains_key(k);
                                if dd < di {
                                    assert(c0.contains_key(k));
                                } else {
                                    assert(days@[di as int].ord() == k);
                                    assert(lookup(c0, old(self).backend(), d) is None);
                                    assert(false);
                                }
                            }
                        }
                    }
                },
                Err(err) => {
                    proof {
                        if forall|dd: Date|
                            dd.valid() && range.start.ord() <= #[trigger] dd.ord()
                                <= range.end.ord() ==> old(self).cache().contains_key(dd.ord()) {
                            assert(old(self).cache().contains_key(d.ord()));
                            assert(c0.contains_key(d.ord()));
                            assert(false);
                        }
                        assert forall|k: int| #[trigger]
                            self.cache().contains_key(k) implies old(self).cache().contains_key(k)
                            || (old(self).backend().contains_key(k) && (exists|dd: Date|
                            dd.valid() && range.start.ord() <= #[trigger] dd.ord()
                                <= range.end.ord() && dd.ord() == k)) by {
                            if !old(self).cache().contains_key(k) {
                                let dd = choose|dd: int|
                                    0 <= dd < di && (#[trigger] days@[dd]).ord() == k && old(
                                        self,
                                    ).backend().contains_key(k);
                                assert(days@[dd].valid() && range.start.ord() <= days@[dd].ord()
                                    <= range.end.ord());
                                assert(days@[dd].ord() == k);
                            }
                        }
                    }
                    return Err(err);
                },
            }
            di = di + 1;
        }
        proof {
            assert forall|d: Date|
                #![trigger lookup(old(self).cache(), old(self).backend(), d)]
                d.valid() && range.start.ord() <= d.ord() <= range.end.ord() && lookup(
                    old(self).cache(),
                    old(self).backend(),
                    d,
                ) is Some implies exists|i: int|
                    0 <= i < entry_views(out@).len() && (#[trigger] entry_views(
                        out@,
                    )[i]).date.ord() == d.ord() by {
                assert(days@.contains(d));
                let dd = choose|dd: int| 0 <= dd < days@.len() && days@[dd] == d;
                assert(lookup(old(self).cache(), old(self).backend(), days@[dd]) is Some);
            }
            assert forall|k: int| #[trigger]
                self.cache().contains_key(k) implies old(self).cache().contains_key(k) || (old(
                self,
            ).backend().contains_key(k) && (exists|dd: Date|
                dd.valid() && range.start.ord() <= #[trigger] dd.ord() <= range.end.ord()
                    && dd.ord() == k)) by {
                if !old(self).cache().contains_key(k) {
                    let dd = choose|dd: int|
                        0 <= dd < di && (#[trigger] days@[dd]).ord() == k && old(
                            self,
                        ).backend().contains_key(k);
                    assert(days@[dd].valid() && range.start.ord() <= days@[dd].ord()
                        <= range.end.ord());
                    assert(days@[dd].ord() == k);
                }
            }
            assert forall|d2: Date|
                d2.valid() && range.start.ord() <= #[trigger] d2.ord() <= range.end.ord() && old(
                    self,
                ).backend().contains_key(d2.ord()) implies self.cache().contains_key(
                d2.ord(),
            ) by {
                assert(days@.contains(d2));
                let dd = choose|dd: int| 0 <= dd < days@.len() && days@[dd] == d2;
                assert(days@[dd].ord() == d2.ord());
            }
        }
        Ok(out)
    }

    /// The dates with durable entries in the range, straight from the
    /// repository: always reflects durable state, never in-memory edits.
    pub fn list_dates_in_range(&self, range: DateRange) -> (r: Result<Vec<Date>, JournalError>)
        requires
            range.valid(),
        ensures
            match r {
                Ok(ds) => listed_dates_ok(ds@, self.backend(), range),
                Err(_) => true,
            },
    {
        self.repository.list_dates(range)
    }
}

/// Reads through an evolved cache agree with reads through the cache it
/// evolved from, when the evolution only pulled values in from the backend.
proof fn lemma_lookup_stable(
    c_old: Map<int, EntryModel>,
    c_new: Map<int, EntryModel>,
    backend: Map<int, EntryModel>,
    date: Date,
)
    requires
        forall|k: int|
            c_new.contains_key(k) ==> #[trigger] c_old.contains_key(k) || backend.contains_key(k),
        forall|k: int| c_old.contains_key(k) ==> #[trigger] c_new.contains_key(k),
        forall|k: int|
            c_new.contains_key(k) ==> #[trigger] c_new[k] == (if c_old.contains_key(k) {
                c_old[k]
            } else {
                backend[k]
            }),
    ensures
        lookup(c_new, backend, date) == lookup(c_old, backend, date),
{
}

/// Uniqueness of dates survives removal (cache flavour).
proof fn lemma_unique_remove_j(s: Seq<EntryModel>, i: int)
    requires
        unique_dates(s),
        0 <= i < s.len(),
    ensures
        unique_dates(s.remove(i)),
        forall|a: int|
            0 <= a < s.remove(i).len() ==> (#[trigger] s.remove(i)[a]) == (if a < i {
                s[a]
            } else {
                s[a + 1]
            }),
{
    assert(forall|a: int|
        0 <= a < s.remove(i).len() ==> (#[trigger] s.remove(i)[a]) == (if a < i {
            s[a]
        } else {
            s[a + 1]
        }));
}

// ---------------------------------------------------------------------------
// The lazy-materialization law.
// ---------------------------------------------------------------------------
/// Lazy materialization: on a date with no cached and no durable data,
/// `get_entry_mut` yields a fresh entry with zero bullets and caches it, and
/// a subsequent `get_entry` serves that same zero-bullet entry from the
/// cache without touching it — even though nothing was persisted.
pub proof fn lemma_cache_lazy_materialization(
    cache: Map<int, EntryModel>,
    backend: Map<int, EntryModel>,
    date: Date,
)
    requires
        !cache.contains_key(date.ord()),
        !backend.contains_key(date.ord()),
    ensures
        ({
            let e = materialize(cache, backend, date);
            let c1 = cache_after_get_mut(cache, backend, date);
            &&& e == EntryModel::empty(date)
            &&& e.total() == 0
            &&& lookup(c1, backend, date) == Some(e)
            &&& cache_after_get(c1, backend, date) == c1
        }),
{
}

} // verus!
