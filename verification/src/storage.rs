//! The storage contract: what every backend promises.
//!
//! A backend's durable contents are modelled as a map from a date's order
//! key (`Date::ord`) to the entry stored for that date. Saving is an upsert:
//! it replaces entirely whatever was stored for the date, and an empty entry
//! leaves nothing stored — this library resolves the empty-entry question
//! the row-per-bullet way, where no content means absent. Range results come
//! back in ascending date order; search results most-recent first.

use vstd::prelude::*;

use crate::bullet::{BulletModel, BulletType};
use crate::date::{dec2, dec4, Date, DateRange};
use crate::entry::{Entry, EntryModel};
use crate::error::JournalError;
use crate::migration::versions_of;
use crate::text::contains_sub;

verus! {

/// The durable contents of a backend holding the entries of `s`, keyed by
/// `Date::ord`.
pub open spec fn map_of(s: Seq<EntryModel>) -> Map<int, EntryModel>
    decreases s.len(),
{
    if s.len() == 0 {
        Map::empty()
    } else {
        map_of(s.drop_last()).insert(s.last().date.ord(), s.last())
    }
}

/// At most one entry per date.
pub open spec fn unique_dates(s: Seq<EntryModel>) -> bool {
    forall|i: int, j: int|
        0 <= i < j < s.len() ==> (#[trigger] s[i]).date.ord() != (#[trigger] s[j]).date.ord()
}

/// The models of a sequence of entries.
pub open spec fn entry_views(s: Seq<Entry>) -> Seq<EntryModel> {
    s.map(|i: int, e: Entry| e@)
}

/// What a save leaves stored: the entry replaces whatever the date had; an
/// empty entry leaves the date absent.
pub open spec fn upsert(m: Map<int, EntryModel>, e: EntryModel) -> Map<int, EntryModel> {
    if e.is_empty() {
        m.remove(e.date.ord())
    } else {
        m.insert(e.date.ord(), e)
    }
}

/// Whether some bullet of the section contains the query as a substring.
pub open spec fn section_matches(bs: Seq<BulletModel>, q: Seq<char>) -> bool {
    exists|i: int| 0 <= i < bs.len() && contains_sub((#[trigger] bs[i]).content, q)
}

/// Whether some bullet of the entry contains the query as a substring.
pub open spec fn entry_matches(e: EntryModel, q: Seq<char>) -> bool {
    ||| section_matches(e.tasks, q)
    ||| section_matches(e.events, q)
    ||| section_matches(e.notes, q)
    ||| section_matches(e.priorities, q)
    ||| section_matches(e.inspirations, q)
    ||| section_matches(e.insights, q)
    ||| section_matches(e.missteps, q)
}

/// Ascending date order, at most one entry per date.
pub open spec fn dates_ascending(ms: Seq<EntryModel>) -> bool {
    forall|i: int, j: int|
        0 <= i < j < ms.len() ==> (#[trigger] ms[i]).date.ord() < (#[trigger] ms[j]).date.ord()
}

/// Descending date order, at most one entry per date.
pub open spec fn dates_descending(ms: Seq<EntryModel>) -> bool {
    forall|i: int, j: int|
        0 <= i < j < ms.len() ==> (#[trigger] ms[i]).date.ord() > (#[trigger] ms[j]).date.ord()
}

/// The contract of date listing: exactly the dates of the range with a
/// stored entry, ascending.
pub open spec fn listed_dates_ok(
    ds: Seq<Date>,
    stored: Map<int, EntryModel>,
    range: DateRange,
) -> bool {
    &&& forall|i: int, j: int|
        0 <= i < j < ds.len() ==> (#[trigger] ds[i]).ord() < (#[trigger] ds[j]).ord()
    &&& forall|i: int|
        0 <= i < ds.len() ==> (#[trigger] ds[i]).valid() && range.start.ord() <= ds[i].ord()
            <= range.end.ord() && stored.contains_key(ds[i].ord())
    &&& forall|k: int|
        stored.contains_key(k) && range.start.ord() <= k <= range.end.ord() ==> exists|i: int|
            0 <= i < ds.len() && (#[trigger] ds[i]).ord() == k
}

/// The contract of range loading: exactly the stored entries of the range,
/// ascending by date.
pub open spec fn loaded_entries_ok(
    ms: Seq<EntryModel>,
    stored: Map<int, EntryModel>,
    range: DateRange,
) -> bool {
    &&& dates_ascending(ms)
    &&& forall|i: int|
        0 <= i < ms.len() ==> range.start.ord() <= (#[trigger] ms[i]).date.ord()
            <= range.end.ord() && stored.contains_key(ms[i].date.ord()) && ms[i] == stored[
            ms[i].date.ord()
        ]
    &&& forall|k: int|
        stored.contains_key(k) && range.start.ord() <= k <= range.end.ord() ==> exists|i: int|
            0 <= i < ms.len() && (#[trigger] ms[i]).date.ord() == k
}

/// The contract of search: exactly the stored entries with a matching
/// bullet, most recent first.
pub open spec fn search_ok(ms: Seq<EntryModel>, stored: Map<int, EntryModel>, q: Seq<char>) -> bool {
    &&& dates_descending(ms)
    &&& forall|i: int|
        0 <= i < ms.len() ==> stored.contains_key((#[trigger] ms[i]).date.ord()) && ms[i] == stored[
            ms[i].date.ord()
        ] && entry_matches(ms[i], q)
    &&& forall|k: int|
        stored.contains_key(k) && entry_matches(stored[k], q) ==> exists|i: int|
            0 <= i < ms.len() && (#[trigger] ms[i]).date.ord() == k
}

// ---------------------------------------------------------------------------
// Facts about `map_of`.
// ---------------------------------------------------------------------------
pub proof fn lemma_map_of_contains(s: Seq<EntryModel>, k: int)
    ensures
        map_of(s).contains_key(k) <==> (exists|i: int|
            0 <= i < s.len() && (#[trigger] s[i]).date.ord() == k),
    decreases s.len(),
{
    if s.len() == 0 {
    } else {
        lemma_map_of_contains(s.drop_last(), k);
        if s.last().date.ord() == k {
            assert(s[s.len() - 1].date.ord() == k);
        } else {
            if exists|i: int| 0 <= i < s.drop_last().len() && (#[trigger] s.drop_last()[i]).date.ord() == k {
                let i = choose|i: int|
                    0 <= i < s.drop_last().len() && (#[trigger] s.drop_last()[i]).date.ord() == k;
                assert(s[i].date.ord() == k);
            }
            if exists|i: int| 0 <= i < s.len() && (#[trigger] s[i]).date.ord() == k {
                let i = choose|i: int| 0 <= i < s.len() && (#[trigger] s[i]).date.ord() == k;
                assert(s.drop_last()[i].date.ord() == k);
            }
        }
    }
}

pub proof fn lemma_map_of_index(s: Seq<EntryModel>, i: int)
    requires
        unique_dates(s),
        0 <= i < s.len(),
    ensures
        map_of(s).contains_key(s[i].date.ord()),
        map_of(s)[s[i].date.ord()] == s[i],
    decreases s.len(),
{
    if i == s.len() - 1 {
    } else {
        assert(unique_dates(s.drop_last())) by {
            assert(forall|a: int|
                0 <= a < s.drop_last().len() ==> #[trigger] s.drop_last()[a] == s[a]);
        }
        assert(s.drop_last()[i] == s[i]);
        lemma_map_of_index(s.drop_last(), i);
        assert(s[i].date.ord() != s.last().date.ord());
    }
}

pub proof fn lemma_map_of_push(s: Seq<EntryModel>, e: EntryModel)
    ensures
        map_of(s.push(e)) == map_of(s).insert(e.date.ord(), e),
{
    assert(s.push(e).drop_last() =~= s);
    assert(s.push(e).last() == e);
}

pub proof fn lemma_map_of_remove(s: Seq<EntryModel>, i: int)
    requires
        unique_dates(s),
        0 <= i < s.len(),
    ensures
        map_of(s.remove(i)) == map_of(s).remove(s[i].date.ord()),
    decreases s.len(),
{
    let k = s[i].date.ord();
    if i == s.len() - 1 {
        assert(s.remove(i) =~= s.drop_last());
        lemma_map_of_contains(s.drop_last(), k);
        assert(forall|a: int|
            0 <= a < s.drop_last().len() ==> #[trigger] s.drop_last()[a] == s[a]);
        assert(!map_of(s.drop_last()).contains_key(k));
        assert(map_of(s.drop_last()).insert(k, s.last()).remove(k) =~= map_of(s.drop_last()));
    } else {
        let last = s.last();
        assert(unique_dates(s.drop_last())) by {
            assert(forall|a: int|
                0 <= a < s.drop_last().len() ==> #[trigger] s.drop_last()[a] == s[a]);
        }
        assert(s.remove(i).drop_last() =~= s.drop_last().remove(i));
        assert(s.remove(i).last() == last);
        assert(s.drop_last()[i] == s[i]);
        lemma_map_of_remove(s.drop_last(), i);
        assert(k != last.date.ord());
        assert(map_of(s.drop_last()).remove(k).insert(last.date.ord(), last) =~= map_of(
            s.drop_last(),
        ).insert(last.date.ord(), last).remove(k));
        assert(map_of(s.remove(i)) == map_of(s.drop_last().remove(i)).insert(
            last.date.ord(),
            last,
        )) by {
            assert(s.remove(i).len() > 0);
        }
    }
}

pub proof fn lemma_map_of_dom_len(s: Seq<EntryModel>)
    requires
        unique_dates(s),
    ensures
        map_of(s).dom().finite(),
        map_of(s).dom().len() == s.len(),
    decreases s.len(),
{
    if s.len() == 0 {
        assert(map_of(s).dom() =~= Set::<int>::empty());
    } else {
        assert(unique_dates(s.drop_last())) by {
            assert(forall|a: int|
                0 <= a < s.drop_last().len() ==> #[trigger] s.drop_last()[a] == s[a]);
        }
        lemma_map_of_dom_len(s.drop_last());
        lemma_map_of_contains(s.drop_last(), s.last().date.ord());
        assert(forall|a: int|
            0 <= a < s.drop_last().len() ==> #[trigger] s.drop_last()[a] == s[a]);
        assert(!map_of(s.drop_last()).contains_key(s.last().date.ord()));
        assert(map_of(s).dom() =~= map_of(s.drop_last()).dom().insert(s.last().date.ord()));
    }
}

// ---------------------------------------------------------------------------
// The file layout of the file backend.
// ---------------------------------------------------------------------------
/// The relative path of a date's entry file: `YYYY/MM/DD/entry.md`.
pub open spec fn spec_entry_rel_path(d: Date) -> Seq<char> {
    dec4(d.year as int) + seq!['/'] + dec2(d.month as int) + seq!['/'] + dec2(d.day as int)
        + seq!['/', 'e', 'n', 't', 'r', 'y', '.', 'm', 'd']
}

/// Writes the relative path of a date's entry file.
pub fn entry_rel_path(date: Date) -> (r: String)
    requires
        date.valid(),
    ensures
        r@ == spec_entry_rel_path(date),
{
    proof {
        reveal_strlit("/");
        reveal_strlit("/entry.md");
    }
    let mut s = String::new();
    crate::date::append_dec4(&mut s, date.year as u32);
    s.append("/");
    crate::date::append_dec2(&mut s, date.month);
    s.append("/");
    crate::date::append_dec2(&mut s, date.day);
    s.append("/entry.md");
    proof {
        assert("/"@ =~= seq!['/']);
        assert("/entry.md"@ =~= seq!['/', 'e', 'n', 't', 'r', 'y', '.', 'm', 'd']);
        assert(s@ =~= spec_entry_rel_path(date));
    }
    s
}

// ---------------------------------------------------------------------------
// The backend contracts.
// ---------------------------------------------------------------------------
/// The narrow repository contract the journal cache relies on: load, save,
/// and date listing over a durable store of entries.
pub trait EntryRepository: Sized {
    /// The durable entries, keyed by `Date::ord`. Verified repositories give
    /// this a real body; outside implementations may leave the default.
    open spec fn entries(&self) -> Map<int, EntryModel> {
        Map::empty()
    }

    /// Whether this repository can never fail. A repository that declares
    /// itself infallible owes success on every call; one facing real I/O
    /// leaves the default.
    open spec fn infallible(&self) -> bool {
        false
    }

    /// Loads the entry for a date; absence is `Ok(None)`, never an error.
    fn load(&self, date: Date) -> (r: Result<Option<Entry>, JournalError>)
        requires
            date.valid(),
        ensures
            self.infallible() ==> r is Ok,
            match r {
                Ok(Some(e)) => self.entries().contains_key(date.ord()) && e@ == self.entries()[
                    date.ord()
                ] && e@.date == date,
                Ok(None) => !self.entries().contains_key(date.ord()),
                Err(_) => true,
            },
    ;

    /// Saves an entry: replaces entirely whatever the date had. A failed
    /// save leaves the store as it was: the save did not happen.
    fn save(&mut self, entry: Entry) -> (r: Result<(), JournalError>)
        requires
            entry.date.valid(),
        ensures
            old(self).infallible() ==> r is Ok,
            r is Ok ==> final(self).entries() == upsert(old(self).entries(), entry@),
            r is Err ==> final(self).entries() == old(self).entries(),
    ;

    /// The dates with stored entries in the range, ascending.
    fn list_dates(&self, range: DateRange) -> (r: Result<Vec<Date>, JournalError>)
        requires
            range.valid(),
        ensures
            self.infallible() ==> r is Ok,
            match r {
                Ok(ds) => listed_dates_ok(ds@, self.entries(), range),
                Err(_) => true,
            },
    ;
}

/// The full storage contract: migrations, CRUD, range queries, search and
/// maintenance over a durable store of entries.
pub trait JournalStorage: Sized {
    /// The durable entries, keyed by `Date::ord`. Verified backends give
    /// this a real body; outside implementations may leave the default.
    open spec fn stored(&self) -> Map<int, EntryModel> {
        Map::empty()
    }

    /// The versions of the migrations already applied.
    open spec fn applied(&self) -> Set<u32> {
        Set::empty()
    }

    /// The migration units available to this backend, ascending by version.
    open spec fn available(&self) -> Seq<crate::migration::MigrationModel> {
        Seq::empty()
    }

    /// Whether this backend can never fail. A backend that declares itself
    /// infallible owes success on every call; one facing real I/O leaves the
    /// default.
    open spec fn infallible(&self) -> bool {
        false
    }

    /// Runs the migration runner: afterwards every available version is
    /// applied; entries are untouched. Safe to call again: a second run
    /// leaves the applied set unchanged. A failure halts the run: entries
    /// and units are untouched, and the applied set sits between what it was
    /// and what a full run would leave — at the last successfully applied
    /// version.
    fn initialize(&mut self) -> (r: Result<(), JournalError>)
        ensures
            old(self).infallible() ==> r is Ok,
            r is Ok ==> final(self).applied() == old(self).applied().union(
                versions_of(old(self).available()),
            ),
            final(self).stored() == old(self).stored(),
            final(self).available() == old(self).available(),
            old(self).applied().subset_of(final(self).applied()),
            final(self).applied().subset_of(
                old(self).applied().union(versions_of(old(self).available())),
            ),
    ;

    /// A short description of the backend.
    fn backend_info(&self) -> (r: &'static str)
    ;

    /// Best-effort compaction; never required for correctness.
    fn maintenance(&self) -> (r: Result<(), JournalError>)
        ensures
            self.infallible() ==> r is Ok,
    ;

    /// Loads the entry for a date; absence is `Ok(None)`, never an error.
    fn load_entry(&self, date: Date) -> (r: Result<Option<Entry>, JournalError>)
        requires
            date.valid(),
        ensures
            self.infallible() ==> r is Ok,
            match r {
                Ok(Some(e)) => self.stored().contains_key(date.ord()) && e@ == self.stored()[
                    date.ord()
                ] && e@.date == date,
                Ok(None) => !self.stored().contains_key(date.ord()),
                Err(_) => true,
            },
    ;

    /// The entries of the range, ascending by date.
    fn load_entries(&self, range: DateRange) -> (r: Result<Vec<Entry>, JournalError>)
        requires
            range.valid(),
        ensures
            self.infallible() ==> r is Ok,
            match r {
                Ok(v) => loaded_entries_ok(entry_views(v@), self.stored(), range),
                Err(_) => true,
            },
    ;

    /// The dates with stored entries in the range, ascending.
    fn list_dates(&self, range: DateRange) -> (r: Result<Vec<Date>, JournalError>)
        requires
            range.valid(),
        ensures
            self.infallible() ==> r is Ok,
            match r {
                Ok(ds) => listed_dates_ok(ds@, self.stored(), range),
                Err(_) => true,
            },
    ;

    /// Saves an entry: replaces entirely whatever the date had; never merges.
    fn save_entry(&mut self, entry: &Entry) -> (r: Result<(), JournalError>)
        requires
            entry.date.valid(),
        ensures
            old(self).infallible() ==> r is Ok,
            r is Ok ==> final(self).stored() == upsert(old(self).stored(), entry@),
            r is Err ==> final(self).stored() == old(self).stored(),
            final(self).applied() == old(self).applied(),
            final(self).available() == old(self).available(),
    ;

    /// Removes all data for a date; removing an absent date is not an error.
    fn delete_entry(&mut self, date: Date) -> (r: Result<(), JournalError>)
        requires
            date.valid(),
        ensures
            old(self).infallible() ==> r is Ok,
            r is Ok ==> final(self).stored() == old(self).stored().remove(date.ord()),
            r is Err ==> final(self).stored() == old(self).stored(),
            final(self).applied() == old(self).applied(),
            final(self).available() == old(self).available(),
    ;

    /// The entries with a bullet containing the query, most recent first.
    fn search_entries(&self, query: &str) -> (r: Result<Vec<Entry>, JournalError>)
        ensures
            self.infallible() ==> r is Ok,
            match r {
                Ok(v) => search_ok(entry_views(v@), self.stored(), query@),
                Err(_) => true,
            },
    ;

    /// The number of distinct dates with a stored entry.
    fn count_entries(&self) -> (r: Result<u64, JournalError>)
        ensures
            self.infallible() ==> r is Ok,
            match r {
                Ok(n) => self.stored().dom().finite() && n == self.stored().dom().len(),
                Err(_) => true,
            },
    ;

    /// The entries of the range with at least one task, ascending by date.
    fn find_entries_with_tasks(&self, range: DateRange) -> (r: Result<Vec<Entry>, JournalError>)
        requires
            range.valid(),
        ensures
            self.infallible() ==> r is Ok,
            match r {
                Ok(v) => found_with_type(entry_views(v@), self.stored(), range, BulletType::Task),
                Err(_) => true,
            },
    ;

    /// The entries of the range with at least one event, ascending by date.
    fn find_entries_with_events(&self, range: DateRange) -> (r: Result<Vec<Entry>, JournalError>)
        requires
            range.valid(),
        ensures
            self.infallible() ==> r is Ok,
            match r {
                Ok(v) => found_with_type(entry_views(v@), self.stored(), range, BulletType::Event),
                Err(_) => true,
            },
    ;

    /// The entries of the range with at least one priority, ascending by
    /// date.
    fn find_entries_with_priorities(&self, range: DateRange) -> (r: Result<
        Vec<Entry>,
        JournalError,
    >)
        requires
            range.valid(),
        ensures
            self.infallible() ==> r is Ok,
            match r {
                Ok(v) => found_with_type(
                    entry_views(v@),
                    self.stored(),
                    range,
                    BulletType::Priority,
                ),
                Err(_) => true,
            },
    ;

    /// Refreshes derived metadata for a date; best-effort.
    fn refresh_metadata(&self, date: Date, entry: &Entry) -> (r: Result<(), JournalError>)
        requires
            date.valid(),
        ensures
            self.infallible() ==> r is Ok,
    ;
}

/// The contract of the by-type finders: exactly the stored entries of the
/// range having at least one bullet of the type, ascending by date.
pub open spec fn found_with_type(
    ms: Seq<EntryModel>,
    stored: Map<int, EntryModel>,
    range: DateRange,
    t: BulletType,
) -> bool {
    &&& dates_ascending(ms)
    &&& forall|i: int|
        0 <= i < ms.len() ==> range.start.ord() <= (#[trigger] ms[i]).date.ord()
            <= range.end.ord() && stored.contains_key(ms[i].date.ord()) && ms[i]
            == stored[ms[i].date.ord()] && ms[i].count_of(t) > 0
    &&& forall|k: int|
        stored.contains_key(k) && range.start.ord() <= k <= range.end.ord() && stored[k].count_of(
            t,
        ) > 0 ==> exists|i: int| 0 <= i < ms.len() && (#[trigger] ms[i]).date.ord() == k
}

// ---------------------------------------------------------------------------
// The upsert law.
// ---------------------------------------------------------------------------
/// Saving supersedes: after saving `a` and then `b` for the same date, the
/// store holds exactly what saving `b` alone would leave — in particular,
/// loading the date yields exactly `b`'s bullets, never a merge with `a`'s.
pub proof fn lemma_upsert_supersedes(m: Map<int, EntryModel>, a: EntryModel, b: EntryModel)
    requires
        a.date.ord() == b.date.ord(),
    ensures
        upsert(upsert(m, a), b) == upsert(m, b),
        !b.is_empty() ==> upsert(upsert(m, a), b).contains_key(b.date.ord()) && upsert(
            upsert(m, a),
            b,
        )[b.date.ord()] == b,
{
    assert(upsert(upsert(m, a), b) =~= upsert(m, b));
}

} // verus!
