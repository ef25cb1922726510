//! The in-memory storage backend: the library's own realization of the
//! storage contract, against which the contract's laws are provable.
//!
//! Entries are held as plain values with at most one entry per date; saving
//! an empty entry stores nothing, so an empty entry is indistinguishable
//! from an absent one, as in a row-per-bullet store. The backend also tracks
//! its migration bookkeeping: the units available to it and the versions
//! already applied.

use vstd::prelude::*;

use crate::date::{Date, DateRange};
use crate::entry::{Entry, EntryModel};
use crate::error::JournalError;
use crate::migration::{unit_models, versions_of, MigrationModel, MigrationUnit};
use crate::storage::{
    dates_ascending, dates_descending, entry_matches, entry_views, found_with_type,
    lemma_map_of_contains, lemma_map_of_dom_len, lemma_map_of_index, lemma_map_of_push,
    lemma_map_of_remove, listed_dates_ok, loaded_entries_ok, map_of, search_ok, section_matches,
    unique_dates, upsert, EntryRepository, JournalStorage,
};
use crate::text::{contains_sub, contains_substring};

verus! {

/// An in-memory storage backend.
pub struct MemoryStorage {
    entries: Vec<Entry>,
    available: Vec<MigrationUnit>,
    applied: Vec<u32>,
}

impl MemoryStorage {
    /// One valid, non-empty entry per date; no migration version recorded
    /// twice.
    #[verifier::type_invariant]
    closed spec fn wf(self) -> bool {
        &&& unique_dates(entry_views(self.entries@))
        &&& forall|i: int|
            0 <= i < self.entries@.len() ==> (#[trigger] entry_views(
                self.entries@,
            )[i]).date.valid() && !entry_views(self.entries@)[i].is_empty()
        &&& forall|i: int, j: int|
            0 <= i < j < self.applied@.len() ==> self.applied@[i] != self.applied@[j]
    }

    /// A fresh, empty backend with no available migrations.
    pub fn new() -> (r: MemoryStorage)
        ensures
            r.stored() == Map::<int, EntryModel>::empty(),
            r.applied() == Set::<u32>::empty(),
            r.available() == Seq::<MigrationModel>::empty(),
    {
        let r = MemoryStorage { entries: Vec::new(), available: Vec::new(), applied: Vec::new() };
        proof {
            assert(entry_views(r.entries@) =~= Seq::<EntryModel>::empty());
            assert(r.applied() =~= Set::<u32>::empty());
            assert(r.available() =~= Seq::<MigrationModel>::empty());
        }
        r
    }

    /// A fresh, empty backend that knows the given migration units.
    pub fn with_migrations(units: Vec<MigrationUnit>) -> (r: MemoryStorage)
        ensures
            r.stored() == Map::<int, EntryModel>::empty(),
            r.applied() == Set::<u32>::empty(),
            r.available() == unit_models(units@),
    {
        let r = MemoryStorage { entries: Vec::new(), available: units, applied: Vec::new() };
        proof {
            assert(entry_views(r.entries@) =~= Seq::<EntryModel>::empty());
            assert(r.applied() =~= Set::<u32>::empty());
        }
        r
    }

    /// The versions recorded as applied, each exactly once.
    pub fn applied_versions(&self) -> (r: Vec<u32>)
        ensures
            r@.to_set() == self.applied(),
            forall|a: int, b: int| 0 <= a < b < r@.len() ==> r@[a] != r@[b],
    {
        proof {
            use_type_invariant(&*self);
        }
        let mut out: Vec<u32> = Vec::new();
        let mut i: usize = 0;
        while i < self.applied.len()
            invariant
                0 <= i <= self.applied@.len(),
                self.wf(),
                out@ == self.applied@.take(i as int),
            decreases self.applied@.len() - i,
        {
            out.push(self.applied[i]);
            proof {
                assert(out@ =~= self.applied@.take(i + 1));
            }
            i = i + 1;
        }
        proof {
            assert(out@ =~= self.applied@);
            assert(out@.to_set() =~= self.applied());
        }
        out
    }

    /// Index of the entry stored for a date, if any.
    fn find_index(&self, date: Date) -> (r: Option<usize>)
        requires
            date.valid(),
        ensures
            match r {
                Some(i) => 0 <= i < self.entries@.len() && entry_views(
                    self.entries@,
                )[i as int].date.ord() == date.ord(),
                None => forall|j: int|
                    0 <= j < self.entries@.len() ==> (#[trigger] entry_views(
                        self.entries@,
                    )[j]).date.ord() != date.ord(),
            },
    {
        proof {
            use_type_invariant(&*self);
        }
        let k = date.ord_key();
        let mut j: usize = 0;
        while j < self.entries.len()
            invariant
                0 <= j <= self.entries@.len(),
                self.wf(),
                k as int == date.ord(),
                forall|a: int|
                    0 <= a < j ==> (#[trigger] entry_views(self.entries@)[a]).date.ord()
                        != date.ord(),
            decreases self.entries@.len() - j,
        {
            proof {
                assert(entry_views(self.entries@)[j as int] == self.entries@[j as int]@);
            }
            if self.entries[j].date.ord_key() == k {
                return Some(j);
            }
            j = j + 1;
        }
        None
    }

    /// Loads a clone of the entry stored for a date.
    fn load_impl(&self, date: Date) -> (r: Option<Entry>)
        requires
            date.valid(),
        ensures
            match r {
                Some(e) => self.stored().contains_key(date.ord()) && e@ == self.stored()[
                    date.ord()
                ] && e@.date == date,
                None => !self.stored().contains_key(date.ord()),
            },
    {
        proof {
            use_type_invariant(&*self);
            lemma_map_of_contains(entry_views(self.entries@), date.ord());
        }
        match self.find_index(date) {
            Some(i) => {
                proof {
                    lemma_map_of_index(entry_views(self.entries@), i as int);
                    crate::date::lemma_ord_injective(
                        entry_views(self.entries@)[i as int].date,
                        date,
                    );
                }
                Some(self.entries[i].clone())
            },
            None => None,
        }
    }

    /// Saves an entry: removes whatever the date had, stores the entry if it
    /// is not empty.
    fn save_impl(&mut self, entry: &Entry) -> (r: Result<(), JournalError>)
        requires
            entry.date.valid(),
        ensures
            r is Ok,
            final(self).stored() == upsert(old(self).stored(), entry@),
            final(self).applied() == old(self).applied(),
            final(self).available() == old(self).available(),
    {
        proof {
            use_type_invariant(&*self);
            lemma_map_of_contains(entry_views(self.entries@), entry@.date.ord());
        }
        let ghost s0 = entry_views(self.entries@);
        let found = self.find_index(entry.date);
        let mut es: Vec<Entry> = Vec::new();
        core::mem::swap(&mut es, &mut self.entries);
        match found {
            Some(i) => {
                proof {
                    lemma_map_of_remove(s0, i as int);
                }
                es.remove(i);
                proof {
                    assert(entry_views(es@) =~= s0.remove(i as int));
                    lemma_unique_remove(s0, i as int);
                }
            },
            None => {
                proof {
                    assert(map_of(s0).remove(entry@.date.ord()) =~= map_of(s0));
                }
            },
        }
        let ghost s1 = entry_views(es@);
        proof {
            assert(map_of(s1) == old(self).stored().remove(entry@.date.ord()));
            assert(unique_dates(s1));
            assert(forall|i: int|
                0 <= i < s1.len() ==> (#[trigger] s1[i]).date.valid() && !s1[i].is_empty());
            assert(forall|j: int|
                0 <= j < s1.len() ==> (#[trigger] s1[j]).date.ord() != entry@.date.ord()) by {
                lemma_map_of_contains(s1, entry@.date.ord());
                if exists|j: int|
                    0 <= j < s1.len() && (#[trigger] s1[j]).date.ord() == entry@.date.ord() {
                    let j = choose|j: int|
                        0 <= j < s1.len() && (#[trigger] s1[j]).date.ord() == entry@.date.ord();
                    lemma_map_of_index(s1, j);
                    assert(false);
                }
            }
        }
        if !entry.is_empty() {
            let e = entry.clone();
            es.push(e);
            proof {
                assert(entry_views(es@) =~= s1.push(entry@));
                lemma_map_of_push(s1, entry@);
                assert(unique_dates(entry_views(es@))) by {
                    assert(forall|a: int| 0 <= a < s1.len() ==> #[trigger] entry_views(es@)[a] == s1[a]);
                    assert(entry_views(es@)[entry_views(es@).len() - 1] == entry@);
                }
            }
        }
        core::mem::swap(&mut es, &mut self.entries);
        proof {
            assert(self.stored() =~= upsert(old(self).stored(), entry@));
        }
        Ok(())
    }

    /// Removes whatever the date had stored.
    fn delete_impl(&mut self, date: Date) -> (r: Result<(), JournalError>)
        requires
            date.valid(),
        ensures
            r is Ok,
            final(self).stored() == old(self).stored().remove(date.ord()),
            final(self).applied() == old(self).applied(),
            final(self).available() == old(self).available(),
    {
        proof {
            use_type_invariant(&*self);
        }
        let ghost s0 = entry_views(self.entries@);
        let found = self.find_index(date);
        match found {
            Some(i) => {
                let mut es: Vec<Entry> = Vec::new();
                core::mem::swap(&mut es, &mut self.entries);
                proof {
                    lemma_map_of_remove(s0, i as int);
                }
                es.remove(i);
                proof {
                    assert(entry_views(es@) =~= s0.remove(i as int));
                    lemma_unique_remove(s0, i as int);
                }
                core::mem::swap(&mut es, &mut self.entries);
            },
            None => {
                proof {
                    lemma_map_of_contains(s0, date.ord());
                    assert(self.stored().remove(date.ord()) =~= self.stored());
                }
            },
        }
        Ok(())
    }
}

/// The invariants of the match-collecting loop in `search_impl`: `w` names,
/// for each collected entry, the source index it came from, in increasing
/// order, and every matching source entry is represented.
pub open spec fn collect_inv(
    src: Seq<EntryModel>,
    f: Seq<EntryModel>,
    w: Seq<int>,
    i: int,
    q: Seq<char>,
) -> bool {
    &&& w.len() == f.len()
    &&& forall|a: int|
        0 <= a < f.len() ==> 0 <= #[trigger] w[a] < i && f[a] == src[w[a]] && entry_matches(
            src[w[a]],
            q,
        )
    &&& forall|a: int, b: int| 0 <= a < b < f.len() ==> w[a] < w[b]
    &&& forall|j: int|
        0 <= j < i && entry_matches(#[trigger] src[j], q) ==> exists|a: int|
            0 <= a < f.len() && (#[trigger] f[a]).date.ord() == src[j].date.ord()
}

/// One collecting step that takes the current source entry.
proof fn lemma_collect_step(
    src: Seq<EntryModel>,
    f0: Seq<EntryModel>,
    f1: Seq<EntryModel>,
    w0: Seq<int>,
    i: int,
    q: Seq<char>,
)
    requires
        0 <= i < src.len(),
        collect_inv(src, f0, w0, i, q),
        entry_matches(src[i], q),
        f1 == f0.push(src[i]),
    ensures
        collect_inv(src, f1, w0.push(i), i + 1, q),
{
    let w1 = w0.push(i);
    assert(f1[f1.len() - 1] == src[i]);
    assert(w1[w1.len() - 1] == i);
    assert(forall|a: int| 0 <= a < f0.len() ==> #[trigger] f1[a] == f0[a]);
    assert(forall|a: int| 0 <= a < w0.len() ==> #[trigger] w1[a] == w0[a]);
    assert forall|j: int|
        0 <= j < i + 1 && entry_matches(#[trigger] src[j], q) implies exists|a: int|
            0 <= a < f1.len() && (#[trigger] f1[a]).date.ord() == src[j].date.ord() by {
        if j == i {
            assert(f1[f1.len() - 1].date.ord() == src[j].date.ord());
        } else {
            let a = choose|a: int|
                0 <= a < f0.len() && (#[trigger] f0[a]).date.ord() == src[j].date.ord();
            assert(f1[a].date.ord() == src[j].date.ord());
        }
    }
}

/// One collecting step that skips the current source entry.
proof fn lemma_collect_skip(
    src: Seq<EntryModel>,
    f: Seq<EntryModel>,
    w: Seq<int>,
    i: int,
    q: Seq<char>,
)
    requires
        0 <= i < src.len(),
        collect_inv(src, f, w, i, q),
        !entry_matches(src[i], q),
    ensures
        collect_inv(src, f, w, i + 1, q),
{
    assert forall|j: int|
        0 <= j < i + 1 && entry_matches(#[trigger] src[j], q) implies exists|a: int|
            0 <= a < f.len() && (#[trigger] f[a]).date.ord() == src[j].date.ord() by {
        assert(j != i);
        assert(0 <= j < i && entry_matches(src[j], q));
    }
}

/// The view of a push is the push of the views.
proof fn lemma_entry_views_push(s: Seq<Entry>, e: Entry)
    ensures
        entry_views(s.push(e)) == entry_views(s).push(e@),
{
    assert(entry_views(s.push(e)) =~= entry_views(s).push(e@));
}

/// Uniqueness of dates survives removal.
proof fn lemma_unique_remove(s: Seq<EntryModel>, i: int)
    requires
        unique_dates(s),
        0 <= i < s.len(),
    ensures
        unique_dates(s.remove(i)),
        forall|a: int|
            0 <= a < s.remove(i).len() ==> (#[trigger] s.remove(i)[a]) == (if a < i {
                s[a]
            } else {
                s[a + 1]
            }),
{
    assert(forall|a: int|
        0 <= a < s.remove(i).len() ==> (#[trigger] s.remove(i)[a]) == (if a < i {
            s[a]
        } else {
            s[a + 1]
        }));
}

impl MemoryStorage {
    /// The dates with stored entries in the range, ascending.
    fn list_dates_impl(&self, range: DateRange) -> (r: Vec<Date>)
        requires
            range.valid(),
        ensures
            listed_dates_ok(r@, self.stored(), range),
    {
        proof {
            use_type_invariant(&*self);
        }
        let days = range.days();
        let mut r: Vec<Date> = Vec::new();
        let mut di: usize = 0;
        while di < days.len()
            invariant
                0 <= di <= days@.len(),
                self.wf(),
                range.valid(),
                forall|a: int|
                    0 <= a < days@.len() ==> (#[trigger] days@[a]).valid() && range.start.ord()
                        <= days@[a].ord() <= range.end.ord(),
                forall|a: int, b: int| 0 <= a < b < days@.len() ==> days@[a].ord() < days@[b].ord(),
                forall|e: Date|
                    e.valid() && range.start.ord() <= e.ord() <= range.end.ord() ==> days@.contains(
                        e,
                    ),
                forall|i: int, j: int|
                    0 <= i < j < r@.len() ==> (#[trigger] r@[i]).ord() < (#[trigger] r@[j]).ord(),
                forall|i: int|
                    0 <= i < r@.len() ==> (#[trigger] r@[i]).valid() && range.start.ord()
                        <= r@[i].ord() <= range.end.ord() && self.stored().contains_key(r@[i].ord())
                        && (exists|d: int| 0 <= d < di && (#[trigger] days@[d]).ord() == r@[i].ord()),
                forall|d: int|
                    0 <= d < di && self.stored().contains_key((#[trigger] days@[d]).ord())
                        ==> exists|i: int| 0 <= i < r@.len() && (#[trigger] r@[i]).ord()
                        == days@[d].ord(),
            decreases days@.len() - di,
        {
            let d = days[di];
            let ghost r0 = r@;
            match self.find_index(d) {
                Some(idx) => {
                    proof {
                        lemma_map_of_index(entry_views(self.entries@), idx as int);
                    }
                    r.push(d);
                    proof {
                        assert(r@[r@.len() - 1] == d);
                        assert(forall|i: int| 0 <= i < r0.len() ==> r@[i] == r0[i]);
                    }
                },
                None => {
                    proof {
                        lemma_map_of_contains(entry_views(self.entries@), d.ord());
                    }
                },
            }
            di = di + 1;
        }
        proof {
            assert forall|k: int|
                self.stored().contains_key(k) && range.start.ord() <= k
                    <= range.end.ord() implies exists|i: int|
                0 <= i < r@.len() && (#[trigger] r@[i]).ord() == k by {
                lemma_map_of_contains(entry_views(self.entries@), k);
                let j = choose|j: int|
                    0 <= j < entry_views(self.entries@).len() && (#[trigger] entry_views(
                        self.entries@,
                    )[j]).date.ord() == k;
                let e = entry_views(self.entries@)[j].date;
                assert(e.valid());
                assert(days@.contains(e));
                let d = choose|d: int| 0 <= d < days@.len() && days@[d] == e;
            }
        }
        r
    }

    /// The entries of the range, ascending by date.
    fn load_entries_impl(&self, range: DateRange) -> (r: Vec<Entry>)
        requires
            range.valid(),
        ensures
            loaded_entries_ok(entry_views(r@), self.stored(), range),
    {
        proof {
            use_type_invariant(&*self);
        }
        let dates = self.list_dates_impl(range);
        let mut r: Vec<Entry> = Vec::new();
        let mut di: usize = 0;
        while di < dates.len()
            invariant
                0 <= di <= dates@.len(),
                self.wf(),
                range.valid(),
                forall|i: int, j: int|
                    0 <= i < j < dates@.len() ==> (#[trigger] dates@[i]).ord() < (
                    #[trigger] dates@[j]).ord(),
                forall|i: int|
                    0 <= i < dates@.len() ==> (#[trigger] dates@[i]).valid() && range.start.ord()
                        <= dates@[i].ord() <= range.end.ord() && self.stored().contains_key(
                        dates@[i].ord(),
                    ),
                entry_views(r@).len() == di,
                forall|i: int|
                    0 <= i < di ==> (#[trigger] entry_views(r@)[i]).date.ord() == dates@[i].ord()
                        && entry_views(r@)[i] == self.stored()[dates@[i].ord()],
            decreases dates@.len() - di,
        {
            let d = dates[di];
            let ghost r0 = entry_views(r@);
            match self.load_impl(d) {
                Some(e) => {
                    let ghost em = e@;
                    r.push(e);
                    proof {
                        assert(entry_views(r@) =~= r0.push(em));
                        let src = entry_views(self.entries@);
                        lemma_map_of_contains(src, d.ord());
                        let j = choose|j: int|
                            0 <= j < src.len() && (#[trigger] src[j]).date.ord() == d.ord();
                        lemma_map_of_index(src, j);
                        assert(em.date.ord() == d.ord());
                    }
                },
                None => {
                    proof {
                        assert(false);
                    }
                },
            }
            di = di + 1;
        }
        proof {
            let ms = entry_views(r@);
            assert forall|k: int|
                self.stored().contains_key(k) && range.start.ord() <= k
                    <= range.end.ord() implies exists|i: int|
                0 <= i < ms.len() && (#[trigger] ms[i]).date.ord() == k by {
                let d = choose|d: int| 0 <= d < dates@.len() && (#[trigger] dates@[d]).ord() == k;
                assert(ms[d].date.ord() == k);
            }
        }
        r
    }

    /// Keeps the entries having at least one bullet of the given type.
    #[verifier::rlimit(100)]
    fn filter_by_type(
        &self,
        v: Vec<Entry>,
        range: DateRange,
        t: crate::bullet::BulletType,
    ) -> (r: Vec<Entry>)
        requires
            range.valid(),
            loaded_entries_ok(entry_views(v@), self.stored(), range),
        ensures
            found_with_type(entry_views(r@), self.stored(), range, t),
    {
        let ghost src = entry_views(v@);
        let mut r: Vec<Entry> = Vec::new();
        let mut i: usize = 0;
        while i < v.len()
            invariant
                0 <= i <= v@.len(),
                src == entry_views(v@),
                dates_ascending(src),
                forall|a: int|
                    0 <= a < src.len() ==> range.start.ord() <= (#[trigger] src[a]).date.ord()
                        <= range.end.ord() && self.stored().contains_key(src[a].date.ord())
                        && src[a] == self.stored()[src[a].date.ord()],
                forall|a: int|
                    #![trigger entry_views(r@)[a]]
                    0 <= a < entry_views(r@).len() ==> exists|j: int|
                        0 <= j < i && entry_views(r@)[a] == #[trigger] src[j],
                dates_ascending(entry_views(r@)),
                forall|a: int|
                    0 <= a < entry_views(r@).len() ==> (#[trigger] entry_views(
                        r@,
                    )[a]).count_of(t) > 0,
                forall|j: int|
                    0 <= j < i && (#[trigger] src[j]).count_of(t) > 0 ==> exists|a: int|
                        0 <= a < entry_views(r@).len() && (#[trigger] entry_views(r@)[a]).date.ord()
                            == src[j].date.ord(),
            decreases v@.len() - i,
        {
            let ghost r0 = entry_views(r@);
            proof {
                assert(src[i as int] == v@[i as int]@);
            }
            if v[i].bullet_count(&t) > 0 {
                let e = v[i].clone();
                r.push(e);
                proof {
                    assert(entry_views(r@) =~= r0.push(src[i as int]));
                    assert(entry_views(r@)[entry_views(r@).len() - 1] == src[i as int]);
                    assert forall|a: int, b: int|
                        0 <= a < b < entry_views(r@).len() implies (#[trigger] entry_views(
                        r@,
                    )[a]).date.ord() < (#[trigger] entry_views(r@)[b]).date.ord() by {
                        if b == entry_views(r@).len() - 1 {
                            assert(entry_views(r@)[a] == r0[a]);
                            let j = choose|j: int| 0 <= j < i && r0[a] == #[trigger] src[j];
                            assert(src[j].date.ord() < src[i as int].date.ord());
                        }
                    }
                    assert forall|j: int|
                        0 <= j < i + 1 && (#[trigger] src[j]).count_of(t) > 0 implies exists|a: int|
                            0 <= a < entry_views(r@).len() && (#[trigger] entry_views(
                                r@,
                            )[a]).date.ord() == src[j].date.ord() by {
                        if j == i as int {
                            assert(entry_views(r@)[entry_views(r@).len() - 1].date.ord()
                                == src[j].date.ord());
                        } else {
                            let a = choose|a: int|
                                0 <= a < r0.len() && (#[trigger] r0[a]).date.ord()
                                    == src[j].date.ord();
                            assert(entry_views(r@)[a] == r0[a]);
                        }
                    }
                }
            }
            i = i + 1;
        }
        proof {
            assert forall|k: int|
                self.stored().contains_key(k) && range.start.ord() <= k <= range.end.ord()
                    && self.stored()[k].count_of(t) > 0 implies exists|a: int|
                0 <= a < entry_views(r@).len() && (#[trigger] entry_views(r@)[a]).date.ord()
                    == k by {
                let j = choose|j: int| 0 <= j < src.len() && (#[trigger] src[j]).date.ord() == k;
                assert(src[j] == self.stored()[k]);
                assert(src[j].count_of(t) > 0);
            }
        }
        r
    }
}

impl MemoryStorage {
    /// The stored entries with a bullet containing the query, most recent
    /// first.
    #[verifier::rlimit(100)]
    fn search_impl(&self, query: &str) -> (r: Vec<Entry>)
        ensures
            search_ok(entry_views(r@), self.stored(), query@),
    {
        broadcast use vstd::seq_lib::group_to_multiset_ensures;

        proof {
            use_type_invariant(&*self);
        }
        let ghost src = entry_views(self.entries@);
        let mut found: Vec<Entry> = Vec::new();
        let ghost mut w = Seq::<int>::empty();
        let mut i: usize = 0;
        while i < self.entries.len()
            invariant
                0 <= i <= self.entries@.len(),
                self.wf(),
                src == entry_views(self.entries@),
                collect_inv(src, entry_views(found@), w, i as int, query@),
            decreases self.entries@.len() - i,
        {
            let ghost f0 = entry_views(found@);
            proof {
                assert(src[i as int] == self.entries@[i as int]@);
            }
            if entry_has_match(&self.entries[i], query) {
                let e = self.entries[i].clone();
                found.push(e);
                proof {
                    assert(entry_views(found@) =~= f0.push(src[i as int]));
                    lemma_collect_step(src, f0, entry_views(found@), w, i as int, query@);
                    w = w.push(i as int);
                }
            } else {
                proof {
                    lemma_collect_skip(src, entry_views(found@), w, i as int, query@);
                }
            }
            i = i + 1;
        }
        let ghost fms = entry_views(found@);
        proof {
            assert forall|a: int|
                0 <= a < fms.len() implies (#[trigger] fms[a]).date.valid()
                    && self.stored().contains_key(fms[a].date.ord()) && fms[a] == self.stored()[
                fms[a].date.ord()] && entry_matches(fms[a], query@) by {
                assert(fms[a] == src[w[a]]);
                lemma_map_of_index(src, w[a]);
            }
            assert forall|a: int, b: int|
                0 <= a < b < fms.len() implies (#[trigger] fms[a]).date.ord() != (
            #[trigger] fms[b]).date.ord() by {
                assert(fms[a] == src[w[a]] && fms[b] == src[w[b]]);
                assert(w[a] < w[b]);
            }
        }
        let r = sort_entries_desc(found);
        proof {
            let ms = entry_views(r@);
            fms.to_multiset_ensures();
            ms.to_multiset_ensures();
            assert forall|a: int|
                0 <= a < ms.len() implies {
                let e = #[trigger] ms[a];
                &&& self.stored().contains_key(e.date.ord())
                &&& e == self.stored()[e.date.ord()]
                &&& entry_matches(e, query@)
            } by {
                assert(ms.to_multiset().count(ms[a]) > 0);
                assert(fms.contains(ms[a]));
                let j = choose|j: int| 0 <= j < fms.len() && fms[j] == ms[a];
            }
            assert forall|k: int|
                self.stored().contains_key(k) && entry_matches(
                    self.stored()[k],
                    query@,
                ) implies exists|i2: int| 0 <= i2 < ms.len() && (#[trigger] ms[i2]).date.ord()
                == k by {
                lemma_map_of_contains(src, k);
                let j = choose|j: int| 0 <= j < src.len() && (#[trigger] src[j]).date.ord() == k;
                lemma_map_of_index(src, j);
                assert(entry_matches(src[j], query@));
                let a = choose|a: int|
                    0 <= a < fms.len() && (#[trigger] fms[a]).date.ord() == src[j].date.ord();
                assert(fms.to_multiset().count(fms[a]) > 0);
                assert(ms.contains(fms[a]));
                let i2 = choose|i2: int| 0 <= i2 < ms.len() && ms[i2] == fms[a];
                assert(ms[i2].date.ord() == k);
            }
        }
        r
    }
}

/// Sorts entries by descending date (selection of the latest), keeping the
/// same entries. Dates must be pairwise distinct.
fn sort_entries_desc(v: Vec<Entry>) -> (r: Vec<Entry>)
    requires
        forall|a: int|
            0 <= a < entry_views(v@).len() ==> (#[trigger] entry_views(v@)[a]).date.valid(),
        forall|a: int, b: int|
            0 <= a < b < entry_views(v@).len() ==> (#[trigger] entry_views(v@)[a]).date.ord() != (
            #[trigger] entry_views(v@)[b]).date.ord(),
    ensures
        dates_descending(entry_views(r@)),
        entry_views(r@).to_multiset() == entry_views(v@).to_multiset(),
{
    broadcast use vstd::seq_lib::group_to_multiset_ensures;

    let mut src = v;
    let mut out: Vec<Entry> = Vec::new();
    proof {
        assert(entry_views(out@) =~= Seq::<EntryModel>::empty());
        assert(entry_views(out@).to_multiset().add(entry_views(src@).to_multiset())
            =~= entry_views(src@).to_multiset());
    }
    while src.len() > 0
        invariant
            dates_descending(entry_views(out@)),
            entry_views(out@).to_multiset().add(entry_views(src@).to_multiset()) == entry_views(
                v@,
            ).to_multiset(),
            forall|a: int|
                0 <= a < entry_views(src@).len() ==> (#[trigger] entry_views(
                    src@,
                )[a]).date.valid(),
            forall|a: int, b: int|
                0 <= a < entry_views(out@).len() && 0 <= b < entry_views(src@).len() ==> (
                #[trigger] entry_views(out@)[a]).date.ord() > (#[trigger] entry_views(
                    src@,
                )[b]).date.ord(),
            forall|a: int, b: int|
                0 <= a < b < entry_views(src@).len() ==> (#[trigger] entry_views(
                    src@,
                )[a]).date.ord() != (#[trigger] entry_views(src@)[b]).date.ord(),
        decreases src@.len(),
    {
        let mut mi: usize = 0;
        let mut j: usize = 1;
        proof {
            assert(entry_views(src@)[0] == src@[0]@);
        }
        while j < src.len()
            invariant
                0 <= mi < src@.len(),
                j <= src@.len(),
                forall|a: int|
                    0 <= a < entry_views(src@).len() ==> (#[trigger] entry_views(
                        src@,
                    )[a]).date.valid(),
                forall|k: int|
                    0 <= k < j ==> entry_views(src@)[mi as int].date.ord() >= (
                    #[trigger] entry_views(src@)[k]).date.ord(),
            decreases src@.len() - j,
        {
            proof {
                assert(entry_views(src@)[j as int] == src@[j as int]@);
                assert(entry_views(src@)[mi as int] == src@[mi as int]@);
            }
            if src[j].date.ord_key() > src[mi].date.ord_key() {
                mi = j;
            }
            j = j + 1;
        }
        let ghost s0 = entry_views(src@);
        let ghost o0 = entry_views(out@);
        let u = src.remove(mi);
        out.push(u);
        proof {
            s0.to_multiset_ensures();
            o0.to_multiset_ensures();
            assert(entry_views(src@) =~= s0.remove(mi as int));
            assert(entry_views(out@) =~= o0.push(u@));
            assert(u@ == s0[mi as int]);
            assert(entry_views(out@).to_multiset().add(entry_views(src@).to_multiset())
                =~= entry_views(v@).to_multiset());
            assert(forall|b: int|
                0 <= b < entry_views(src@).len() ==> (#[trigger] entry_views(src@)[b]) == (if b
                    < mi as int {
                    s0[b]
                } else {
                    s0[b + 1]
                }));
            assert(forall|a: int| 0 <= a < o0.len() ==> #[trigger] entry_views(out@)[a] == o0[a]);
            assert(entry_views(out@)[o0.len() as int] == u@);
            // The chosen entry strictly exceeds every remaining one.
            assert(forall|b: int|
                0 <= b < entry_views(src@).len() ==> u@.date.ord() > (#[trigger] entry_views(
                    src@,
                )[b]).date.ord());
        }
    }
    proof {
        assert(entry_views(src@).to_multiset() =~= Seq::<EntryModel>::empty().to_multiset());
        assert(entry_views(out@).to_multiset().add(Seq::<EntryModel>::empty().to_multiset())
            =~= entry_views(out@).to_multiset());
    }
    out
}

/// Whether some bullet of the section contains the query.
fn section_has_match(v: &Vec<crate::bullet::Bullet>, query: &str) -> (r: bool)
    ensures
        r == section_matches(crate::entry::models_of(v@), query@),
{
    let ghost ms = crate::entry::models_of(v@);
    let mut i: usize = 0;
    while i < v.len()
        invariant
            0 <= i <= v@.len(),
            ms == crate::entry::models_of(v@),
            forall|a: int| 0 <= a < i ==> !contains_sub((#[trigger] ms[a]).content, query@),
        decreases v@.len() - i,
    {
        proof {
            assert(ms[i as int] == v@[i as int]@);
        }
        if contains_substring(v[i].content.as_str(), query) {
            return true;
        }
        i = i + 1;
    }
    false
}

/// Whether some bullet of the entry contains the query.
fn entry_has_match(e: &Entry, query: &str) -> (r: bool)
    ensures
        r == entry_matches(e@, query@),
{
    section_has_match(&e.tasks, query) || section_has_match(&e.events, query) || section_has_match(
        &e.notes,
        query,
    ) || section_has_match(&e.priorities, query) || section_has_match(&e.inspirations, query)
        || section_has_match(&e.insights, query) || section_has_match(&e.missteps, query)
}

impl EntryRepository for MemoryStorage {
    closed spec fn entries(&self) -> Map<int, EntryModel> {
        map_of(entry_views(self.entries@))
    }

    open spec fn infallible(&self) -> bool {
        true
    }

    fn load(&self, date: Date) -> (r: Result<Option<Entry>, JournalError>) {
        Ok(self.load_impl(date))
    }

    fn save(&mut self, entry: Entry) -> (r: Result<(), JournalError>) {
        self.save_impl(&entry)
    }

    fn list_dates(&self, range: DateRange) -> (r: Result<Vec<Date>, JournalError>) {
        Ok(self.list_dates_impl(range))
    }
}

impl JournalStorage for MemoryStorage {
    closed spec fn stored(&self) -> Map<int, EntryModel> {
        map_of(entry_views(self.entries@))
    }

    closed spec fn applied(&self) -> Set<u32> {
        self.applied@.to_set()
    }

    closed spec fn available(&self) -> Seq<MigrationModel> {
        unit_models(self.available@)
    }

    open spec fn infallible(&self) -> bool {
        true
    }

    fn initialize(&mut self) -> (r: Result<(), JournalError>) {
        proof {
            use_type_invariant(&*self);
        }
        let ghost av = unit_models(self.available@);
        let ghost a0 = self.applied@.to_set();
        let mut ap: Vec<u32> = Vec::new();
        core::mem::swap(&mut ap, &mut self.applied);
        let n = self.available.len();
        let mut i: usize = 0;
        proof {
            lemma_versions_take(av, 0);
            assert(ap@.to_set() =~= a0.union(versions_of(av.take(0))));
        }
        while i < n
            invariant
                0 <= i <= n,
                n == self.available@.len(),
                av == unit_models(self.available@),
                self.entries@ == old(self).entries@,
                self.available@ == old(self).available@,
                forall|a: int, b: int| 0 <= a < b < ap@.len() ==> ap@[a] != ap@[b],
                ap@.to_set() == a0.union(versions_of(av.take(i as int))),
            decreases n - i,
        {
            let v = self.available[i].version;
            proof {
                assert(av[i as int].version == self.available@[i as int]@.version);
            }
            if !contains_u32(&ap, v) {
                let ghost ap0 = ap@;
                ap.push(v);
                proof {
                    assert(forall|a: int| 0 <= a < ap0.len() ==> #[trigger] ap@[a] == ap0[a]);
                    assert(ap@[ap@.len() - 1] == v);
                    lemma_versions_take_step(av, i as int);
                    assert(ap@.to_set() =~= a0.union(versions_of(av.take(i + 1)))) by {
                        assert forall|x: u32|
                            #[trigger] ap@.to_set().contains(x) <==> a0.union(
                            versions_of(av.take(i + 1)),
                        ).contains(x) by {
                            if ap@.contains(x) {
                                let a = choose|a: int| 0 <= a < ap@.len() && ap@[a] == x;
                                if a < ap0.len() {
                                    assert(ap0.contains(x));
                                } else {
                                    assert(x == v);
                                }
                            }
                            if ap0.to_set().contains(x) {
                                let a = choose|a: int| 0 <= a < ap0.len() && ap0[a] == x;
                                assert(ap@[a] == x);
                            }
                            if x == v {
                                assert(ap@.last() == x);
                            }
                        }
                    }
                }
            } else {
                proof {
                    lemma_versions_take_step(av, i as int);
                    assert(ap@.to_set() =~= a0.union(versions_of(av.take(i + 1))));
                }
            }
            i = i + 1;
        }
        proof {
            assert(av.take(n as int) =~= av);
        }
        core::mem::swap(&mut ap, &mut self.applied);
        Ok(())
    }

    fn backend_info(&self) -> (r: &'static str) {
        "in-memory storage backend"
    }

    fn maintenance(&self) -> (r: Result<(), JournalError>) {
        Ok(())
    }

    fn load_entry(&self, date: Date) -> (r: Result<Option<Entry>, JournalError>) {
        Ok(self.load_impl(date))
    }

    fn load_entries(&self, range: DateRange) -> (r: Result<Vec<Entry>, JournalError>) {
        Ok(self.load_entries_impl(range))
    }

    fn list_dates(&self, range: DateRange) -> (r: Result<Vec<Date>, JournalError>) {
        Ok(self.list_dates_impl(range))
    }

    fn save_entry(&mut self, entry: &Entry) -> (r: Result<(), JournalError>) {
        self.save_impl(entry)
    }

    fn delete_entry(&mut self, date: Date) -> (r: Result<(), JournalError>) {
        self.delete_impl(date)
    }

    fn search_entries(&self, query: &str) -> (r: Result<Vec<Entry>, JournalError>) {
        Ok(self.search_impl(query))
    }

    fn count_entries(&self) -> (r: Result<u64, JournalError>) {
        proof {
            use_type_invariant(&*self);
            lemma_map_of_dom_len(entry_views(self.entries@));
        }
        Ok(self.entries.len() as u64)
    }

    fn find_entries_with_tasks(&self, range: DateRange) -> (r: Result<Vec<Entry>, JournalError>) {
        let v = self.load_entries_impl(range);
        Ok(self.filter_by_type(v, range, crate::bullet::BulletType::Task))
    }

    fn find_entries_with_events(&self, range: DateRange) -> (r: Result<Vec<Entry>, JournalError>) {
        let v = self.load_entries_impl(range);
        Ok(self.filter_by_type(v, range, crate::bullet::BulletType::Event))
    }

    fn find_entries_with_priorities(&self, range: DateRange) -> (r: Result<
        Vec<Entry>,
        JournalError,
    >) {
        let v = self.load_entries_impl(range);
        Ok(self.filter_by_type(v, range, crate::bullet::BulletType::Priority))
    }

    fn refresh_metadata(&self, date: Date, entry: &Entry) -> (r: Result<(), JournalError>) {
        Ok(())
    }
}

/// Whether a vector contains a value.
fn contains_u32(v: &Vec<u32>, x: u32) -> (r: bool)
    ensures
        r == v@.contains(x),
{
    let mut i: usize = 0;
    while i < v.len()
        invariant
            0 <= i <= v@.len(),
            forall|a: int| 0 <= a < i ==> v@[a] != x,
        decreases v@.len() - i,
    {
        if v[i] == x {
            return true;
        }
        i = i + 1;
    }
    false
}

/// The versions of an empty prefix.
proof fn lemma_versions_take(av: Seq<MigrationModel>, i: int)
    requires
        0 <= i <= av.len(),
    ensures
        i == 0 ==> versions_of(av.take(i)) =~= Set::<u32>::empty(),
{
    if i == 0 {
        assert(av.take(0).map(|a: int, u: MigrationModel| u.version) =~= Seq::<u32>::empty());
        assert forall|x: u32| !(#[trigger] versions_of(av.take(0)).contains(x)) by {
            assert(!Seq::<u32>::empty().contains(x));
        }
        assert(versions_of(av.take(0)) =~= Set::<u32>::empty());
    }
}

/// Extending the prefix by one unit adds exactly its version.
proof fn lemma_versions_take_step(av: Seq<MigrationModel>, i: int)
    requires
        0 <= i < av.len(),
    ensures
        versions_of(av.take(i + 1)) =~= versions_of(av.take(i)).insert(av[i].version),
{
    let m1 = av.take(i + 1).map(|a: int, u: MigrationModel| u.version);
    let m0 = av.take(i).map(|a: int, u: MigrationModel| u.version);
    assert(m1 =~= m0.push(av[i].version)) by {
        assert(forall|a: int| 0 <= a < i ==> m1[a] == av[a].version && m0[a] == av[a].version);
        assert(m1[i] == av[i].version);
    }
    assert forall|x: u32| #[trigger]
        versions_of(av.take(i + 1)).contains(x) <==> versions_of(av.take(i)).insert(
        av[i].version,
    ).contains(x) by {
        if m1.contains(x) {
            let a = choose|a: int| 0 <= a < m1.len() && m1[a] == x;
            if a < i {
                assert(m0[a] == x);
            } else {
                assert(x == av[i].version);
            }
        }
        if m0.contains(x) {
            let a = choose|a: int| 0 <= a < m0.len() && m0[a] == x;
            assert(m1[a] == x);
        }
        if x == av[i].version {
            assert(m1[i] == x);
        }
    }
}

} // verus!
