//! The row model of a row-per-bullet store: one row per bullet, holding the
//! date, the raw content, the bullet type's name and the optional task
//! state's name.
//!
//! A backend that stores rows (a relational store, say) persists
//! `rows_of_entry` and reconstructs entries with `entry_from_rows`; rows
//! with an unknown type name are skipped rather than failing the load, and
//! an unknown state name reads as no state. Saving is delete-then-insert,
//! so these two functions carry the whole translation.

use vstd::prelude::*;

use crate::bullet::{Bullet, BulletModel, BulletType, TaskState};
use crate::date::Date;
use crate::entry::{models_of, Entry, EntryModel};
use crate::text::str_eq;

verus! {

/// The stored name of a bullet type.
pub open spec fn type_chars(t: BulletType) -> Seq<char> {
    match t {
        BulletType::Task => seq!['t', 'a', 's', 'k'],
        BulletType::Event => seq!['e', 'v', 'e', 'n', 't'],
        BulletType::Note => seq!['n', 'o', 't', 'e'],
        BulletType::Priority => seq!['p', 'r', 'i', 'o', 'r', 'i', 't', 'y'],
        BulletType::Inspiration => seq!['i', 'n', 's', 'p', 'i', 'r', 'a', 't', 'i', 'o', 'n'],
        BulletType::Insight => seq!['i', 'n', 's', 'i', 'g', 'h', 't'],
        BulletType::Misstep => seq!['m', 'i', 's', 's', 't', 'e', 'p'],
    }
}

/// The stored name of a task state.
pub open spec fn state_chars(s: TaskState) -> Seq<char> {
    match s {
        TaskState::Pending => seq!['p', 'e', 'n', 'd', 'i', 'n', 'g'],
        TaskState::Completed => seq!['c', 'o', 'm', 'p', 'l', 'e', 't', 'e', 'd'],
        TaskState::Migrated => seq!['m', 'i', 'g', 'r', 'a', 't', 'e', 'd'],
        TaskState::Scheduled => seq!['s', 'c', 'h', 'e', 'd', 'u', 'l', 'e', 'd'],
    }
}

/// The bullet type a stored name denotes, if any.
pub open spec fn spec_parse_type(s: Seq<char>) -> Option<BulletType> {
    if s == type_chars(BulletType::Task) {
        Some(BulletType::Task)
    } else if s == type_chars(BulletType::Event) {
        Some(BulletType::Event)
    } else if s == type_chars(BulletType::Note) {
        Some(BulletType::Note)
    } else if s == type_chars(BulletType::Priority) {
        Some(BulletType::Priority)
    } else if s == type_chars(BulletType::Inspiration) {
        Some(BulletType::Inspiration)
    } else if s == type_chars(BulletType::Insight) {
        Some(BulletType::Insight)
    } else if s == type_chars(BulletType::Misstep) {
        Some(BulletType::Misstep)
    } else {
        None
    }
}

/// The task state a stored name denotes, if any.
pub open spec fn spec_parse_state(s: Seq<char>) -> Option<TaskState> {
    if s == state_chars(TaskState::Pending) {
        Some(TaskState::Pending)
    } else if s == state_chars(TaskState::Completed) {
        Some(TaskState::Completed)
    } else if s == state_chars(TaskState::Migrated) {
        Some(TaskState::Migrated)
    } else if s == state_chars(TaskState::Scheduled) {
        Some(TaskState::Scheduled)
    } else {
        None
    }
}

/// One stored row.
#[derive(Debug, Clone)]
pub struct BulletRow {
    pub date: Date,
    pub content: String,
    pub kind: String,
    pub task_state: Option<String>,
}

/// Mathematical model of a row.
#[verifier::ext_equal]
pub ghost struct RowModel {
    pub date: Date,
    pub content: Seq<char>,
    pub kind: Seq<char>,
    pub task_state: Option<Seq<char>>,
}

impl View for BulletRow {
    type V = RowModel;

    open spec fn view(&self) -> RowModel {
        RowModel {
            date: self.date,
            content: self.content@,
            kind: self.kind@,
            task_state: match self.task_state {
                Some(ref s) => Some(s@),
                None => None,
            },
        }
    }
}

/// The models of a sequence of rows.
pub open spec fn row_views(s: Seq<BulletRow>) -> Seq<RowModel> {
    s.map(|i: int, r: BulletRow| r@)
}

/// The row a bullet persists to, under a date.
pub open spec fn row_of(date: Date, b: BulletModel) -> RowModel {
    RowModel {
        date,
        content: b.content,
        kind: type_chars(b.bullet_type),
        task_state: match b.task_state {
            Some(s) => Some(state_chars(s)),
            None => None,
        },
    }
}

/// All rows an entry persists to: one per bullet, sections in canonical
/// order, insertion order kept within each section.
pub open spec fn spec_rows_of_entry(e: EntryModel) -> Seq<RowModel> {
    section_rows(e.date, e.tasks) + section_rows(e.date, e.events) + section_rows(e.date, e.notes)
        + section_rows(e.date, e.priorities) + section_rows(e.date, e.inspirations) + section_rows(
        e.date,
        e.insights,
    ) + section_rows(e.date, e.missteps)
}

/// The rows of one section.
pub open spec fn section_rows(date: Date, bs: Seq<BulletModel>) -> Seq<RowModel> {
    bs.map(|i: int, b: BulletModel| row_of(date, b))
}

/// One reconstruction step: a row with a readable type name adds its bullet;
/// any other row is skipped.
pub open spec fn row_step(acc: EntryModel, row: RowModel) -> EntryModel {
    match spec_parse_type(row.kind) {
        Some(t) => acc.push_bullet(
            BulletModel {
                content: row.content,
                bullet_type: t,
                task_state: match row.task_state {
                    Some(s) => spec_parse_state(s),
                    None => None,
                },
            },
        ),
        None => acc,
    }
}

/// The entry a list of rows reconstructs to, for a date.
pub open spec fn spec_entry_from_rows(date: Date, rows: Seq<RowModel>) -> EntryModel
    decreases rows.len(),
{
    if rows.len() == 0 {
        EntryModel::empty(date)
    } else {
        row_step(spec_entry_from_rows(date, rows.drop_last()), rows.last())
    }
}

/// Reconstruction running over further rows from an accumulator.
pub open spec fn run_rows(acc: EntryModel, rows: Seq<RowModel>) -> EntryModel
    decreases rows.len(),
{
    if rows.len() == 0 {
        acc
    } else {
        row_step(run_rows(acc, rows.drop_last()), rows.last())
    }
}

/// Appending a section's bullets one by one.
pub open spec fn push_all(acc: EntryModel, bs: Seq<BulletModel>) -> EntryModel
    decreases bs.len(),
{
    if bs.len() == 0 {
        acc
    } else {
        push_all(acc, bs.drop_last()).push_bullet(bs.last())
    }
}

/// Every bullet of the section carries the section's own type.
pub open spec fn section_typed(bs: Seq<BulletModel>, t: BulletType) -> bool {
    forall|i: int| 0 <= i < bs.len() ==> (#[trigger] bs[i]).bullet_type == t
}

/// Every bullet sits in the section of its own type — what `add_bullet`
/// produces.
pub open spec fn typed(e: EntryModel) -> bool {
    &&& section_typed(e.tasks, BulletType::Task)
    &&& section_typed(e.events, BulletType::Event)
    &&& section_typed(e.notes, BulletType::Note)
    &&& section_typed(e.priorities, BulletType::Priority)
    &&& section_typed(e.inspirations, BulletType::Inspiration)
    &&& section_typed(e.insights, BulletType::Insight)
    &&& section_typed(e.missteps, BulletType::Misstep)
}

/// The stored type names denote the types they were written for.
proof fn lemma_parse_type_canonical(t: BulletType)
    ensures
        spec_parse_type(type_chars(t)) == Some(t),
{
    assert(type_chars(BulletType::Task).len() == 4);
    assert(type_chars(BulletType::Event).len() == 5);
    assert(type_chars(BulletType::Note).len() == 4);
    assert(type_chars(BulletType::Priority).len() == 8);
    assert(type_chars(BulletType::Inspiration).len() == 11);
    assert(type_chars(BulletType::Insight).len() == 7);
    assert(type_chars(BulletType::Misstep).len() == 7);
    assert(type_chars(BulletType::Task)[0] == 't');
    assert(type_chars(BulletType::Note)[0] == 'n');
    assert(type_chars(BulletType::Insight)[0] == 'i');
    assert(type_chars(BulletType::Misstep)[0] == 'm');
}

/// The stored state names denote the states they were written for.
proof fn lemma_parse_state_canonical(s: TaskState)
    ensures
        spec_parse_state(state_chars(s)) == Some(s),
{
    assert(state_chars(TaskState::Pending).len() == 7);
    assert(state_chars(TaskState::Completed).len() == 9);
    assert(state_chars(TaskState::Migrated).len() == 8);
    assert(state_chars(TaskState::Scheduled).len() == 9);
    assert(state_chars(TaskState::Completed)[0] == 'c');
    assert(state_chars(TaskState::Scheduled)[0] == 's');
}

/// Reconstructing a bullet from its own row gives the bullet back.
proof fn lemma_row_step_of(acc: EntryModel, date: Date, b: BulletModel)
    ensures
        row_step(acc, row_of(date, b)) == acc.push_bullet(b),
{
    lemma_parse_type_canonical(b.bullet_type);
    match b.task_state {
        Some(s) => {
            lemma_parse_state_canonical(s);
        },
        None => {},
    }
    assert(BulletModel {
        content: b.content,
        bullet_type: b.bullet_type,
        task_state: b.task_state,
    } =~= b);
}

/// Reconstruction over concatenated rows runs the second part from where
/// the first left off.
proof fn lemma_from_rows_concat(date: Date, a: Seq<RowModel>, b: Seq<RowModel>)
    ensures
        spec_entry_from_rows(date, a + b) == run_rows(spec_entry_from_rows(date, a), b),
    decreases b.len(),
{
    if b.len() == 0 {
        assert(a + b =~= a);
    } else {
        assert((a + b).drop_last() =~= a + b.drop_last());
        assert((a + b).last() == b.last());
        lemma_from_rows_concat(date, a, b.drop_last());
    }
}

/// Reconstructing one section's rows appends exactly its bullets.
proof fn lemma_run_section(acc: EntryModel, date: Date, bs: Seq<BulletModel>)
    ensures
        run_rows(acc, section_rows(date, bs)) == push_all(acc, bs),
    decreases bs.len(),
{
    let rows = section_rows(date, bs);
    if bs.len() == 0 {
    } else {
        assert(rows.drop_last() =~= section_rows(date, bs.drop_last()));
        assert(rows.last() == row_of(date, bs.last()));
        lemma_run_section(acc, date, bs.drop_last());
        lemma_row_step_of(push_all(acc, bs.drop_last()), date, bs.last());
    }
}

/// Appending a whole typed section lands it, in order, in its own list.
proof fn lemma_push_all_typed(acc: EntryModel, bs: Seq<BulletModel>, t: BulletType)
    requires
        section_typed(bs, t),
    ensures
        push_all(acc, bs) == acc.with_bullets(t, acc.bullets_of(t) + bs),
    decreases bs.len(),
{
    if bs.len() == 0 {
        assert(acc.bullets_of(t) + bs =~= acc.bullets_of(t));
        assert(acc.with_bullets(t, acc.bullets_of(t)) =~= acc);
    } else {
        assert(section_typed(bs.drop_last(), t)) by {
            assert(forall|i: int|
                0 <= i < bs.drop_last().len() ==> #[trigger] bs.drop_last()[i] == bs[i]);
        }
        lemma_push_all_typed(acc, bs.drop_last(), t);
        let mid = acc.with_bullets(t, acc.bullets_of(t) + bs.drop_last());
        assert(bs.last().bullet_type == t);
        assert(mid.bullets_of(t) == acc.bullets_of(t) + bs.drop_last());
        assert((acc.bullets_of(t) + bs.drop_last()).push(bs.last()) =~= acc.bullets_of(t) + bs);
        assert(mid.push_bullet(bs.last()) =~= acc.with_bullets(t, acc.bullets_of(t) + bs));
    }
}

/// The row round trip: reconstructing the rows an entry persists to yields
/// the entry back, bullet for bullet, order preserved within each type.
pub proof fn lemma_rows_round_trip(e: EntryModel)
    requires
        typed(e),
    ensures
        spec_entry_from_rows(e.date, spec_rows_of_entry(e)) == e,
{
    let d = e.date;
    let r1 = section_rows(d, e.tasks);
    let r2 = section_rows(d, e.events);
    let r3 = section_rows(d, e.notes);
    let r4 = section_rows(d, e.priorities);
    let r5 = section_rows(d, e.inspirations);
    let r6 = section_rows(d, e.insights);
    let r7 = section_rows(d, e.missteps);
    let e0 = EntryModel::empty(d);

    assert(spec_rows_of_entry(e) =~= ((((((r1 + r2) + r3) + r4) + r5) + r6) + r7));
    lemma_from_rows_concat(d, (((((r1 + r2) + r3) + r4) + r5) + r6), r7);
    lemma_from_rows_concat(d, ((((r1 + r2) + r3) + r4) + r5), r6);
    lemma_from_rows_concat(d, (((r1 + r2) + r3) + r4), r5);
    lemma_from_rows_concat(d, ((r1 + r2) + r3), r4);
    lemma_from_rows_concat(d, (r1 + r2), r3);
    lemma_from_rows_concat(d, r1, r2);
    assert(spec_entry_from_rows(d, r1) == run_rows(e0, r1)) by {
        assert(Seq::<RowModel>::empty() + r1 =~= r1);
        assert(spec_entry_from_rows(d, Seq::<RowModel>::empty()) == e0);
        lemma_from_rows_concat(d, Seq::<RowModel>::empty(), r1);
    }

    let a1 = push_all(e0, e.tasks);
    let a2 = push_all(a1, e.events);
    let a3 = push_all(a2, e.notes);
    let a4 = push_all(a3, e.priorities);
    let a5 = push_all(a4, e.inspirations);
    let a6 = push_all(a5, e.insights);
    let a7 = push_all(a6, e.missteps);
    lemma_run_section(e0, d, e.tasks);
    lemma_run_section(a1, d, e.events);
    lemma_run_section(a2, d, e.notes);
    lemma_run_section(a3, d, e.priorities);
    lemma_run_section(a4, d, e.inspirations);
    lemma_run_section(a5, d, e.insights);
    lemma_run_section(a6, d, e.missteps);

    lemma_push_all_typed(e0, e.tasks, BulletType::Task);
    lemma_push_all_typed(a1, e.events, BulletType::Event);
    lemma_push_all_typed(a2, e.notes, BulletType::Note);
    lemma_push_all_typed(a3, e.priorities, BulletType::Priority);
    lemma_push_all_typed(a4, e.inspirations, BulletType::Inspiration);
    lemma_push_all_typed(a5, e.insights, BulletType::Insight);
    lemma_push_all_typed(a6, e.missteps, BulletType::Misstep);
    assert(Seq::<BulletModel>::empty() + e.tasks =~= e.tasks);
    assert(Seq::<BulletModel>::empty() + e.events =~= e.events);
    assert(Seq::<BulletModel>::empty() + e.notes =~= e.notes);
    assert(Seq::<BulletModel>::empty() + e.priorities =~= e.priorities);
    assert(Seq::<BulletModel>::empty() + e.inspirations =~= e.inspirations);
    assert(Seq::<BulletModel>::empty() + e.insights =~= e.insights);
    assert(Seq::<BulletModel>::empty() + e.missteps =~= e.missteps);
    assert(a7 =~= e);
}

/// Writes the stored name of a bullet type.
pub fn kind_name(t: BulletType) -> (r: String)
    ensures
        r@ == type_chars(t),
{
    proof {
        lemma_type_literals();
    }
    match t {
        BulletType::Task => String::from_str("task"),
        BulletType::Event => String::from_str("event"),
        BulletType::Note => String::from_str("note"),
        BulletType::Priority => String::from_str("priority"),
        BulletType::Inspiration => String::from_str("inspiration"),
        BulletType::Insight => String::from_str("insight"),
        BulletType::Misstep => String::from_str("misstep"),
    }
}

/// Writes the stored name of a task state.
pub fn state_name(s: TaskState) -> (r: String)
    ensures
        r@ == state_chars(s),
{
    proof {
        lemma_state_literals();
    }
    match s {
        TaskState::Pending => String::from_str("pending"),
        TaskState::Completed => String::from_str("completed"),
        TaskState::Migrated => String::from_str("migrated"),
        TaskState::Scheduled => String::from_str("scheduled"),
    }
}

/// Reads a stored bullet type name.
pub fn parse_type(s: &str) -> (r: Option<BulletType>)
    ensures
        r == spec_parse_type(s@),
{
    proof {
        lemma_type_literals();
    }
    if str_eq(s, "task") {
        Some(BulletType::Task)
    } else if str_eq(s, "event") {
        Some(BulletType::Event)
    } else if str_eq(s, "note") {
        Some(BulletType::Note)
    } else if str_eq(s, "priority") {
        Some(BulletType::Priority)
    } else if str_eq(s, "inspiration") {
        Some(BulletType::Inspiration)
    } else if str_eq(s, "insight") {
        Some(BulletType::Insight)
    } else if str_eq(s, "misstep") {
        Some(BulletType::Misstep)
    } else {
        None
    }
}

/// Reads a stored task state name.
pub fn parse_state(s: &str) -> (r: Option<TaskState>)
    ensures
        r == spec_parse_state(s@),
{
    proof {
        lemma_state_literals();
    }
    if str_eq(s, "pending") {
        Some(TaskState::Pending)
    } else if str_eq(s, "completed") {
        Some(TaskState::Completed)
    } else if str_eq(s, "migrated") {
        Some(TaskState::Migrated)
    } else if str_eq(s, "scheduled") {
        Some(TaskState::Scheduled)
    } else {
        None
    }
}

proof fn lemma_type_literals()
    ensures
        "task"@ == type_chars(BulletType::Task),
        "event"@ == type_chars(BulletType::Event),
        "note"@ == type_chars(BulletType::Note),
        "priority"@ == type_chars(BulletType::Priority),
        "inspiration"@ == type_chars(BulletType::Inspiration),
        "insight"@ == type_chars(BulletType::Insight),
        "misstep"@ == type_chars(BulletType::Misstep),
{
    reveal_strlit("task");
    reveal_strlit("event");
    reveal_strlit("note");
    reveal_strlit("priority");
    reveal_strlit("inspiration");
    reveal_strlit("insight");
    reveal_strlit("misstep");
    assert("task"@ =~= type_chars(BulletType::Task));
    assert("event"@ =~= type_chars(BulletType::Event));
    assert("note"@ =~= type_chars(BulletType::Note));
    assert("priority"@ =~= type_chars(BulletType::Priority));
    assert("inspiration"@ =~= type_chars(BulletType::Inspiration));
    assert("insight"@ =~= type_chars(BulletType::Insight));
    assert("misstep"@ =~= type_chars(BulletType::Misstep));
}

proof fn lemma_state_literals()
    ensures
        "pending"@ == state_chars(TaskState::Pending),
        "completed"@ == state_chars(TaskState::Completed),
        "migrated"@ == state_chars(TaskState::Migrated),
        "scheduled"@ == state_chars(TaskState::Scheduled),
{
    reveal_strlit("pending");
    reveal_strlit("completed");
    reveal_strlit("migrated");
    reveal_strlit("scheduled");
    assert("pending"@ =~= state_chars(TaskState::Pending));
    assert("completed"@ =~= state_chars(TaskState::Completed));
    assert("migrated"@ =~= state_chars(TaskState::Migrated));
    assert("scheduled"@ =~= state_chars(TaskState::Scheduled));
}

/// The rows an entry persists to.
pub fn rows_of_entry(entry: &Entry) -> (r: Vec<BulletRow>)
    requires
        entry@.total() <= usize::MAX,
    ensures
        row_views(r@) == spec_rows_of_entry(entry@),
{
    let mut rows: Vec<BulletRow> = Vec::new();
    append_section_rows(&mut rows, entry.date, &entry.tasks);
    append_section_rows(&mut rows, entry.date, &entry.events);
    append_section_rows(&mut rows, entry.date, &entry.notes);
    append_section_rows(&mut rows, entry.date, &entry.priorities);
    append_section_rows(&mut rows, entry.date, &entry.inspirations);
    append_section_rows(&mut rows, entry.date, &entry.insights);
    append_section_rows(&mut rows, entry.date, &entry.missteps);
    proof {
        assert(row_views(rows@) =~= spec_rows_of_entry(entry@));
    }
    rows
}

/// Appends one section's rows.
fn append_section_rows(rows: &mut Vec<BulletRow>, date: Date, bullets: &Vec<Bullet>)
    requires
        old(rows)@.len() + bullets@.len() <= usize::MAX,
    ensures
        final(rows)@.len() == old(rows)@.len() + bullets@.len(),
        row_views(final(rows)@) == row_views(old(rows)@) + section_rows(
            date,
            models_of(bullets@),
        ),
{
    let mut i: usize = 0;
    while i < bullets.len()
        invariant
            0 <= i <= bullets@.len(),
            rows@.len() == old(rows)@.len() + i,
            forall|j: int|
                0 <= j < old(rows)@.len() ==> (#[trigger] rows@[j])@ == old(rows)@[j]@,
            forall|j: int|
                0 <= j < i ==> (#[trigger] rows@[old(rows)@.len() + j])@ == row_of(
                    date,
                    bullets@[j]@,
                ),
        decreases bullets@.len() - i,
    {
        let b = &bullets[i];
        let task_state = match b.task_state {
            Some(s) => Some(state_name(s)),
            None => None,
        };
        let row = BulletRow {
            date,
            content: b.content.clone(),
            kind: kind_name(b.bullet_type),
            task_state,
        };
        rows.push(row);
        i = i + 1;
    }
    proof {
        let all = row_views(old(rows)@) + section_rows(date, models_of(bullets@));
        assert forall|k: int| 0 <= k < rows@.len() implies #[trigger] row_views(rows@)[k]
            == all[k] by {
            if k < old(rows)@.len() {
                assert(rows@[k]@ == old(rows)@[k]@);
            } else {
                let j = k - old(rows)@.len();
                assert(rows@[old(rows)@.len() + j]@ == row_of(date, bullets@[j]@));
            }
        }
        assert(row_views(rows@) =~= all);
    }
}

/// Reconstructs the entry a list of rows holds for a date, or absence when
/// there are no rows at all. Rows with an unknown type name are skipped but
/// still count as presence, as a row store would report them.
pub fn entry_from_rows(date: Date, rows: &Vec<BulletRow>) -> (r: Option<Entry>)
    ensures
        r is Some <==> rows@.len() > 0,
        r matches Some(e) ==> e@ == spec_entry_from_rows(date, row_views(rows@)),
{
    if rows.len() == 0 {
        return None;
    }
    let mut entry = Entry::new(date);
    let mut i: usize = 0;
    proof {
        assert(row_views(rows@).take(0) =~= Seq::<RowModel>::empty());
    }
    while i < rows.len()
        invariant
            0 <= i <= rows@.len(),
            entry@ == spec_entry_from_rows(date, row_views(rows@).take(i as int)),
        decreases rows@.len() - i,
    {
        let row = &rows[i];
        proof {
            assert(row_views(rows@)[i as int] == rows@[i as int]@);
            assert(row_views(rows@).take(i + 1).drop_last() =~= row_views(rows@).take(i as int));
            assert(row_views(rows@).take(i + 1).last() == rows@[i as int]@);
        }
        match parse_type(row.kind.as_str()) {
            Some(t) => {
                let state = match row.task_state {
                    Some(ref s) => parse_state(s.as_str()),
                    None => None,
                };
                let content: &str = row.content.as_str();
                let mut b = Bullet::new(content, t);
                b.task_state = state;
                entry.add_bullet(b);
            },
            None => {},
        }
        i = i + 1;
    }
    proof {
        assert(row_views(rows@).take(rows@.len() as int) =~= row_views(rows@));
    }
    Some(entry)
}

} // verus!
