//! The codec's round-trip laws.
//!
//! Parsing the serialized form of an entry restores the entry: per type, the
//! same contents in the same order. The laws hold for entries whose bullet
//! contents survive the text form unchanged — one nonempty line each, no
//! leading or trailing whitespace, not starting with the header mark — and
//! they hold for both the editing form (all sections) and the minimal form
//! (nonempty sections only). The template is intentionally asymmetric:
//! parsing it yields an empty entry, whose minimal form is the empty string,
//! not the template.

use vstd::prelude::*;

use crate::bullet::{default_task_state, BulletModel, BulletType};
use crate::codec::{
    blank_section, contents_block, header_chars, header_lower, machine_step, run_machine,
    section_opt, section_text, spec_header_match, spec_parse, spec_serialize,
    spec_serialize_for_editing, spec_template,
};
use crate::date::Date;
use crate::entry::EntryModel;
use crate::text::{is_ws, lines_rec, no_nl, spec_lines, spec_lower, spec_trim};

verus! {

/// Content that survives the codec unchanged: one nonempty line with no
/// leading or trailing whitespace that does not start with the header mark.
pub open spec fn safe_content(c: Seq<char>) -> bool {
    &&& c.len() > 0
    &&& c[0] != '#'
    &&& no_nl(c)
    &&& spec_trim(c) == c
}

/// All bullets of a section have safe content.
pub open spec fn section_safe(bs: Seq<BulletModel>) -> bool {
    forall|i: int| 0 <= i < bs.len() ==> safe_content((#[trigger] bs[i]).content)
}

/// All bullets of the entry have safe content.
pub open spec fn editable(e: EntryModel) -> bool {
    &&& section_safe(e.tasks)
    &&& section_safe(e.events)
    &&& section_safe(e.notes)
    &&& section_safe(e.priorities)
    &&& section_safe(e.inspirations)
    &&& section_safe(e.insights)
    &&& section_safe(e.missteps)
}

/// The bullet the parser rebuilds from a content line of a section.
pub open spec fn reparsed(c: Seq<char>, t: BulletType) -> BulletModel {
    BulletModel { content: c, bullet_type: t, task_state: default_task_state(t) }
}

/// A section as the parser rebuilds it: same contents, type set to the
/// section's type, task state at its constructor default.
pub open spec fn normalize_bullets(t: BulletType, bs: Seq<BulletModel>) -> Seq<BulletModel> {
    bs.map(|i: int, b: BulletModel| reparsed(b.content, t))
}

/// An entry as the parser rebuilds it for `date`.
pub open spec fn normalize(e: EntryModel, date: Date) -> EntryModel {
    EntryModel {
        date,
        tasks: normalize_bullets(BulletType::Task, e.tasks),
        events: normalize_bullets(BulletType::Event, e.events),
        notes: normalize_bullets(BulletType::Note, e.notes),
        priorities: normalize_bullets(BulletType::Priority, e.priorities),
        inspirations: normalize_bullets(BulletType::Inspiration, e.inspirations),
        insights: normalize_bullets(BulletType::Insight, e.insights),
        missteps: normalize_bullets(BulletType::Misstep, e.missteps),
    }
}

/// A section whose bullets already carry the section's type and the default
/// task state — what constructors produce.
pub open spec fn section_canonical(bs: Seq<BulletModel>, t: BulletType) -> bool {
    forall|i: int|
        0 <= i < bs.len() ==> (#[trigger] bs[i]).bullet_type == t && bs[i].task_state
            == default_task_state(t)
}

/// An entry built through the constructors: every bullet sits in the section
/// of its own type and carries the default task state.
pub open spec fn canonical(e: EntryModel) -> bool {
    &&& section_canonical(e.tasks, BulletType::Task)
    &&& section_canonical(e.events, BulletType::Event)
    &&& section_canonical(e.notes, BulletType::Note)
    &&& section_canonical(e.priorities, BulletType::Priority)
    &&& section_canonical(e.inspirations, BulletType::Inspiration)
    &&& section_canonical(e.insights, BulletType::Insight)
    &&& section_canonical(e.missteps, BulletType::Misstep)
}

/// The content lines of a section, in order.
pub open spec fn contents_list(bs: Seq<BulletModel>) -> Seq<Seq<char>> {
    bs.map(|i: int, b: BulletModel| b.content)
}

/// `acc` with a whole reparsed section appended under type `t`.
pub open spec fn push_block(acc: EntryModel, t: BulletType, bs: Seq<BulletModel>) -> EntryModel {
    acc.with_bullets(t, acc.bullets_of(t) + normalize_bullets(t, bs))
}

// ---------------------------------------------------------------------------
// Facts about headers.
// ---------------------------------------------------------------------------
/// Shape facts about every header line.
proof fn lemma_header_shape(t: BulletType)
    ensures
        header_chars(t).len() > 0,
        header_chars(t)[0] == '#',
        !is_ws(header_chars(t)[0]),
        !is_ws(header_chars(t).last()),
        no_nl(header_chars(t)),
        spec_trim(header_chars(t)) == header_chars(t),
{
    crate::text::lemma_trim_unpadded(header_chars(t));
}

/// Lowercasing a header yields its lowercase form, and the lowercase forms
/// of distinct types differ.
proof fn lemma_header_match(t: BulletType)
    ensures
        spec_header_match(header_chars(t)) == Some(t),
{
    assert(spec_lower(header_chars(t)) =~= header_lower(t));
    assert(header_lower(BulletType::Task).len() == 7);
    assert(header_lower(BulletType::Event).len() == 8);
    assert(header_lower(BulletType::Note).len() == 7);
    assert(header_lower(BulletType::Priority).len() == 10);
    assert(header_lower(BulletType::Inspiration).len() == 13);
    assert(header_lower(BulletType::Insight).len() == 10);
    assert(header_lower(BulletType::Misstep).len() == 10);
    assert(header_lower(BulletType::Task)[2] == 't');
    assert(header_lower(BulletType::Note)[2] == 'n');
    assert(header_lower(BulletType::Priority)[2] == 'p');
    assert(header_lower(BulletType::Insight)[2] == 'i');
    assert(header_lower(BulletType::Misstep)[2] == 'm');
}

// ---------------------------------------------------------------------------
// From text to lines.
// ---------------------------------------------------------------------------
/// The lines of a section body followed by further text.
proof fn lemma_contents_lines(bs: Seq<BulletModel>, rest: Seq<char>)
    requires
        section_safe(bs),
    ensures
        lines_rec(contents_block(bs) + rest, Seq::empty()) == contents_list(bs) + lines_rec(
            rest,
            Seq::empty(),
        ),
    decreases bs.len(),
{
    if bs.len() == 0 {
        assert(contents_block(bs) + rest =~= rest);
        assert(contents_list(bs) + lines_rec(rest, Seq::empty()) =~= lines_rec(
            rest,
            Seq::empty(),
        ));
    } else {
        let c = bs[0].content;
        let tail = bs.drop_first();
        assert(safe_content(c));
        assert(contents_block(bs) + rest =~= c + seq!['\n'] + (contents_block(tail) + rest));
        crate::text::lemma_lines_split(c, contents_block(tail) + rest, Seq::empty());
        assert(Seq::empty() + c =~= c);
        lemma_contents_lines(tail, rest);
        assert(contents_list(bs) =~= seq![c] + contents_list(tail));
        assert(seq![c] + (contents_list(tail) + lines_rec(rest, Seq::empty())) =~= contents_list(
            bs,
        ) + lines_rec(rest, Seq::empty()));
    }
}

/// The lines of one full section followed by further text: the header line,
/// the content lines, one empty line, then the lines of the rest.
proof fn lemma_section_lines(bs: Seq<BulletModel>, t: BulletType, rest: Seq<char>)
    requires
        section_safe(bs),
    ensures
        lines_rec(section_text(bs, t) + rest, Seq::empty()) == seq![header_chars(t)]
            + contents_list(bs) + seq![Seq::<char>::empty()] + lines_rec(rest, Seq::empty()),
{
    let h = header_chars(t);
    lemma_header_shape(t);
    let z = contents_block(bs) + (seq!['\n'] + rest);
    assert(section_text(bs, t) + rest =~= h + seq!['\n'] + z);
    crate::text::lemma_lines_split(h, z, Seq::empty());
    assert(Seq::empty() + h =~= h);
    lemma_contents_lines(bs, seq!['\n'] + rest);
    assert(seq!['\n'] + rest =~= Seq::<char>::empty() + seq!['\n'] + rest);
    crate::text::lemma_lines_split(Seq::<char>::empty(), rest, Seq::empty());
    assert(Seq::<char>::empty() + Seq::<char>::empty() =~= Seq::<char>::empty());
    assert(seq![h] + (contents_list(bs) + (seq![Seq::<char>::empty()] + lines_rec(
        rest,
        Seq::empty(),
    ))) =~= seq![h] + contents_list(bs) + seq![Seq::<char>::empty()] + lines_rec(
        rest,
        Seq::empty(),
    ));
}

// ---------------------------------------------------------------------------
// Facts about the entry model updates.
// ---------------------------------------------------------------------------
proof fn lemma_with_bullets_get(acc: EntryModel, t: BulletType, bs: Seq<BulletModel>)
    ensures
        acc.with_bullets(t, bs).bullets_of(t) == bs,
        acc.with_bullets(t, bs).date == acc.date,
{
}

proof fn lemma_with_bullets_twice(
    acc: EntryModel,
    t: BulletType,
    x: Seq<BulletModel>,
    y: Seq<BulletModel>,
)
    ensures
        acc.with_bullets(t, x).with_bullets(t, y) == acc.with_bullets(t, y),
{
    assert(acc.with_bullets(t, x).with_bullets(t, y) =~= acc.with_bullets(t, y));
}

proof fn lemma_with_bullets_self(acc: EntryModel, t: BulletType)
    ensures
        acc.with_bullets(t, acc.bullets_of(t)) == acc,
{
    assert(acc.with_bullets(t, acc.bullets_of(t)) =~= acc);
}

// ---------------------------------------------------------------------------
// Running the machine over the lines of one section.
// ---------------------------------------------------------------------------
/// A header line switches the machine to its section.
proof fn lemma_machine_header(
    t: BulletType,
    rest: Seq<Seq<char>>,
    cur: Option<BulletType>,
    acc: EntryModel,
)
    ensures
        run_machine(seq![header_chars(t)] + rest, cur, acc) == run_machine(rest, Some(t), acc),
{
    let lines = seq![header_chars(t)] + rest;
    assert(lines[0] == header_chars(t));
    assert(lines.drop_first() =~= rest);
    lemma_header_shape(t);
    lemma_header_match(t);
    assert(machine_step(cur, acc, header_chars(t)) == (Some(t), acc));
}

/// A blank line leaves the machine unchanged.
proof fn lemma_machine_blank(rest: Seq<Seq<char>>, cur: Option<BulletType>, acc: EntryModel)
    ensures
        run_machine(seq![Seq::<char>::empty()] + rest, cur, acc) == run_machine(rest, cur, acc),
{
    let lines = seq![Seq::<char>::empty()] + rest;
    assert(lines[0] == Seq::<char>::empty());
    assert(lines.drop_first() =~= rest);
    assert(spec_trim(Seq::<char>::empty()) == Seq::<char>::empty());
    assert(machine_step(cur, acc, Seq::<char>::empty()) == (cur, acc));
}

/// The content lines of a section append its reparsed bullets, in order.
proof fn lemma_machine_contents(
    t: BulletType,
    bs: Seq<BulletModel>,
    rest: Seq<Seq<char>>,
    acc: EntryModel,
)
    requires
        section_safe(bs),
    ensures
        run_machine(contents_list(bs) + rest, Some(t), acc) == run_machine(
            rest,
            Some(t),
            push_block(acc, t, bs),
        ),
    decreases bs.len(),
{
    if bs.len() == 0 {
        assert(contents_list(bs) + rest =~= rest);
        assert(acc.bullets_of(t) + normalize_bullets(t, bs) =~= acc.bullets_of(t));
        lemma_with_bullets_self(acc, t);
    } else {
        let c = bs[0].content;
        let lines = contents_list(bs) + rest;
        assert(lines[0] == c);
        assert(lines.drop_first() =~= contents_list(bs.drop_first()) + rest);
        assert(safe_content(c));
        let b = reparsed(c, t);
        assert(machine_step(Some(t), acc, c) == (Some(t), acc.push_bullet(b)));
        let acc1 = acc.push_bullet(b);
        lemma_machine_contents(t, bs.drop_first(), rest, acc1);
        // The two orders of appending agree.
        lemma_with_bullets_get(acc, t, acc.bullets_of(t).push(b));
        lemma_with_bullets_twice(
            acc,
            t,
            acc.bullets_of(t).push(b),
            acc.bullets_of(t).push(b) + normalize_bullets(t, bs.drop_first()),
        );
        assert(acc.bullets_of(t).push(b) + normalize_bullets(t, bs.drop_first())
            =~= acc.bullets_of(t) + normalize_bullets(t, bs));
        assert(push_block(acc1, t, bs.drop_first()) == push_block(acc, t, bs));
    }
}

/// One section in the editing form, from text to machine: the section's
/// text consumed, the machine sits in that section with its reparsed
/// bullets appended.
proof fn lemma_section_round_text(
    t: BulletType,
    bs: Seq<BulletModel>,
    rest: Seq<char>,
    cur: Option<BulletType>,
    acc: EntryModel,
)
    requires
        section_safe(bs),
    ensures
        run_machine(lines_rec(section_text(bs, t) + rest, Seq::empty()), cur, acc) == run_machine(
            lines_rec(rest, Seq::empty()),
            Some(t),
            push_block(acc, t, bs),
        ),
{
    lemma_section_lines(bs, t, rest);
    lemma_machine_section(t, bs, lines_rec(rest, Seq::empty()), cur, acc);
}

/// One section in the minimal form: an empty section contributes nothing
/// and leaves the machine alone; a nonempty one behaves as in the editing
/// form.
proof fn lemma_section_round_opt(
    t: BulletType,
    bs: Seq<BulletModel>,
    rest: Seq<char>,
    cur: Option<BulletType>,
    acc: EntryModel,
)
    requires
        section_safe(bs),
    ensures
        ({
            let c2 = if bs.len() == 0 {
                cur
            } else {
                Some(t)
            };
            run_machine(lines_rec(section_opt(bs, t) + rest, Seq::empty()), cur, acc)
                == run_machine(lines_rec(rest, Seq::empty()), c2, push_block(acc, t, bs))
        }),
{
    if bs.len() == 0 {
        assert(section_opt(bs, t) + rest =~= rest);
        assert(acc.bullets_of(t) + normalize_bullets(t, bs) =~= acc.bullets_of(t));
        lemma_with_bullets_self(acc, t);
    } else {
        lemma_section_round_text(t, bs, rest, cur, acc);
    }
}

/// One full section of lines: the machine ends in that section with the
/// section's reparsed bullets appended.
proof fn lemma_machine_section(
    t: BulletType,
    bs: Seq<BulletModel>,
    rest: Seq<Seq<char>>,
    cur: Option<BulletType>,
    acc: EntryModel,
)
    requires
        section_safe(bs),
    ensures
        run_machine(
            seq![header_chars(t)] + contents_list(bs) + seq![Seq::<char>::empty()] + rest,
            cur,
            acc,
        ) == run_machine(rest, Some(t), push_block(acc, t, bs)),
{
    let lines = seq![header_chars(t)] + contents_list(bs) + seq![Seq::<char>::empty()] + rest;
    assert(lines =~= seq![header_chars(t)] + (contents_list(bs) + (seq![Seq::<char>::empty()]
        + rest)));
    lemma_machine_header(t, contents_list(bs) + (seq![Seq::<char>::empty()] + rest), cur, acc);
    lemma_machine_contents(t, bs, seq![Seq::<char>::empty()] + rest, acc);
    lemma_machine_blank(rest, Some(t), push_block(acc, t, bs));
}

// ---------------------------------------------------------------------------
// The round-trip laws.
// ---------------------------------------------------------------------------
/// Round trip through the editing form: parsing `serialize_for_editing(e)`
/// for any date yields exactly the reparsed entry — per type, the same
/// contents in the same order, with types and task states at their
/// constructor defaults.
pub proof fn lemma_round_trip_editing(e: EntryModel, date: Date)
    requires
        editable(e),
    ensures
        spec_parse(date, spec_serialize_for_editing(e)) == normalize(e, date),
        forall|t: BulletType|
            spec_parse(date, spec_serialize_for_editing(e)).contents_of(t) == e.contents_of(t),
{
    let t1 = section_text(e.events, BulletType::Event) + (section_text(e.notes, BulletType::Note)
        + (section_text(e.priorities, BulletType::Priority) + (section_text(
        e.inspirations,
        BulletType::Inspiration,
    ) + (section_text(e.insights, BulletType::Insight) + (section_text(
        e.missteps,
        BulletType::Misstep,
    ) + Seq::<char>::empty())))));
    let t2 = section_text(e.notes, BulletType::Note) + (section_text(
        e.priorities,
        BulletType::Priority,
    ) + (section_text(e.inspirations, BulletType::Inspiration) + (section_text(
        e.insights,
        BulletType::Insight,
    ) + (section_text(e.missteps, BulletType::Misstep) + Seq::<char>::empty()))));
    let t3 = section_text(e.priorities, BulletType::Priority) + (section_text(
        e.inspirations,
        BulletType::Inspiration,
    ) + (section_text(e.insights, BulletType::Insight) + (section_text(
        e.missteps,
        BulletType::Misstep,
    ) + Seq::<char>::empty())));
    let t4 = section_text(e.inspirations, BulletType::Inspiration) + (section_text(
        e.insights,
        BulletType::Insight,
    ) + (section_text(e.missteps, BulletType::Misstep) + Seq::<char>::empty()));
    let t5 = section_text(e.insights, BulletType::Insight) + (section_text(
        e.missteps,
        BulletType::Misstep,
    ) + Seq::<char>::empty());
    let t6 = section_text(e.missteps, BulletType::Misstep) + Seq::<char>::empty();
    let t7 = Seq::<char>::empty();
    let w = spec_serialize_for_editing(e);
    assert(w =~= section_text(e.tasks, BulletType::Task) + t1);
    assert(t1 =~= section_text(e.events, BulletType::Event) + t2);
    assert(t2 =~= section_text(e.notes, BulletType::Note) + t3);
    assert(t3 =~= section_text(e.priorities, BulletType::Priority) + t4);
    assert(t4 =~= section_text(e.inspirations, BulletType::Inspiration) + t5);
    assert(t5 =~= section_text(e.insights, BulletType::Insight) + t6);
    assert(t6 =~= section_text(e.missteps, BulletType::Misstep) + t7);

    let a0 = EntryModel::empty(date);
    let a1 = push_block(a0, BulletType::Task, e.tasks);
    let a2 = push_block(a1, BulletType::Event, e.events);
    let a3 = push_block(a2, BulletType::Note, e.notes);
    let a4 = push_block(a3, BulletType::Priority, e.priorities);
    let a5 = push_block(a4, BulletType::Inspiration, e.inspirations);
    let a6 = push_block(a5, BulletType::Misstep, e.missteps);
    lemma_section_round_text(BulletType::Task, e.tasks, t1, None, a0);
    lemma_section_round_text(BulletType::Event, e.events, t2, Some(BulletType::Task), a1);
    lemma_section_round_text(BulletType::Note, e.notes, t3, Some(BulletType::Event), a2);
    lemma_section_round_text(BulletType::Priority, e.priorities, t4, Some(BulletType::Note), a3);
    lemma_section_round_text(
        BulletType::Inspiration,
        e.inspirations,
        t5,
        Some(BulletType::Priority),
        a4,
    );
    lemma_section_round_text(
        BulletType::Insight,
        e.insights,
        t6,
        Some(BulletType::Inspiration),
        push_block(a4, BulletType::Inspiration, e.inspirations),
    );
    lemma_section_round_text(
        BulletType::Misstep,
        e.missteps,
        t7,
        Some(BulletType::Insight),
        push_block(a5, BulletType::Insight, e.insights),
    );
    assert(lines_rec(t7, Seq::empty()) =~= Seq::<Seq<char>>::empty());
    let fin = push_block(
        push_block(a5, BulletType::Insight, e.insights),
        BulletType::Misstep,
        e.missteps,
    );
    assert(spec_parse(date, w) == fin);
    lemma_normalize_chain(e, date);
    lemma_normalize_contents(e, date);
}

/// Round trip through the minimal form: the same law holds when empty
/// sections are omitted.
#[verifier::rlimit(100)]
pub proof fn lemma_round_trip_minimal(e: EntryModel, date: Date)
    requires
        editable(e),
    ensures
        spec_parse(date, spec_serialize(e)) == normalize(e, date),
        forall|t: BulletType|
            spec_parse(date, spec_serialize(e)).contents_of(t) == e.contents_of(t),
{
    let t1 = section_opt(e.events, BulletType::Event) + (section_opt(e.notes, BulletType::Note)
        + (section_opt(e.priorities, BulletType::Priority) + (section_opt(
        e.inspirations,
        BulletType::Inspiration,
    ) + (section_opt(e.insights, BulletType::Insight) + (section_opt(
        e.missteps,
        BulletType::Misstep,
    ) + Seq::<char>::empty())))));
    let t2 = section_opt(e.notes, BulletType::Note) + (section_opt(
        e.priorities,
        BulletType::Priority,
    ) + (section_opt(e.inspirations, BulletType::Inspiration) + (section_opt(
        e.insights,
        BulletType::Insight,
    ) + (section_opt(e.missteps, BulletType::Misstep) + Seq::<char>::empty()))));
    let t3 = section_opt(e.priorities, BulletType::Priority) + (section_opt(
        e.inspirations,
        BulletType::Inspiration,
    ) + (section_opt(e.insights, BulletType::Insight) + (section_opt(
        e.missteps,
        BulletType::Misstep,
    ) + Seq::<char>::empty())));
    let t4 = section_opt(e.inspirations, BulletType::Inspiration) + (section_opt(
        e.insights,
        BulletType::Insight,
    ) + (section_opt(e.missteps, BulletType::Misstep) + Seq::<char>::empty()));
    let t5 = section_opt(e.insights, BulletType::Insight) + (section_opt(
        e.missteps,
        BulletType::Misstep,
    ) + Seq::<char>::empty());
    let t6 = section_opt(e.missteps, BulletType::Misstep) + Seq::<char>::empty();
    let t7 = Seq::<char>::empty();
    let w = spec_serialize(e);
    assert(w =~= section_opt(e.tasks, BulletType::Task) + t1);
    assert(t1 =~= section_opt(e.events, BulletType::Event) + t2);
    assert(t2 =~= section_opt(e.notes, BulletType::Note) + t3);
    assert(t3 =~= section_opt(e.priorities, BulletType::Priority) + t4);
    assert(t4 =~= section_opt(e.inspirations, BulletType::Inspiration) + t5);
    assert(t5 =~= section_opt(e.insights, BulletType::Insight) + t6);
    assert(t6 =~= section_opt(e.missteps, BulletType::Misstep) + t7);

    let a0 = EntryModel::empty(date);
    let a1 = push_block(a0, BulletType::Task, e.tasks);
    let a2 = push_block(a1, BulletType::Event, e.events);
    let a3 = push_block(a2, BulletType::Note, e.notes);
    let a4 = push_block(a3, BulletType::Priority, e.priorities);
    let a5 = push_block(a4, BulletType::Inspiration, e.inspirations);
    let a6 = push_block(a5, BulletType::Insight, e.insights);
    let c0: Option<BulletType> = None;
    let c1 = if e.tasks.len() == 0 { c0 } else { Some(BulletType::Task) };
    let c2 = if e.events.len() == 0 { c1 } else { Some(BulletType::Event) };
    let c3 = if e.notes.len() == 0 { c2 } else { Some(BulletType::Note) };
    let c4 = if e.priorities.len() == 0 { c3 } else { Some(BulletType::Priority) };
    let c5 = if e.inspirations.len() == 0 { c4 } else { Some(BulletType::Inspiration) };
    let c6 = if e.insights.len() == 0 { c5 } else { Some(BulletType::Insight) };
    lemma_section_round_opt(BulletType::Task, e.tasks, t1, c0, a0);
    lemma_section_round_opt(BulletType::Event, e.events, t2, c1, a1);
    lemma_section_round_opt(BulletType::Note, e.notes, t3, c2, a2);
    lemma_section_round_opt(BulletType::Priority, e.priorities, t4, c3, a3);
    lemma_section_round_opt(BulletType::Inspiration, e.inspirations, t5, c4, a4);
    lemma_section_round_opt(BulletType::Insight, e.insights, t6, c5, a5);
    lemma_section_round_opt(BulletType::Misstep, e.missteps, t7, c6, a6);
    assert(lines_rec(t7, Seq::empty()) =~= Seq::<Seq<char>>::empty());
    let fin = push_block(a6, BulletType::Misstep, e.missteps);
    assert(spec_parse(date, w) == fin);
    lemma_normalize_chain(e, date);
    lemma_normalize_contents(e, date);
}

/// The chain of per-section appends starting from the empty entry is the
/// reparsed entry.
proof fn lemma_normalize_chain(e: EntryModel, date: Date)
    ensures
        push_block(
            push_block(
                push_block(
                    push_block(
                        push_block(
                            push_block(
                                push_block(EntryModel::empty(date), BulletType::Task, e.tasks),
                                BulletType::Event,
                                e.events,
                            ),
                            BulletType::Note,
                            e.notes,
                        ),
                        BulletType::Priority,
                        e.priorities,
                    ),
                    BulletType::Inspiration,
                    e.inspirations,
                ),
                BulletType::Insight,
                e.insights,
            ),
            BulletType::Misstep,
            e.missteps,
        ) == normalize(e, date),
{
    assert(Seq::<BulletModel>::empty() + normalize_bullets(BulletType::Task, e.tasks)
        =~= normalize_bullets(BulletType::Task, e.tasks));
    assert(Seq::<BulletModel>::empty() + normalize_bullets(BulletType::Event, e.events)
        =~= normalize_bullets(BulletType::Event, e.events));
    assert(Seq::<BulletModel>::empty() + normalize_bullets(BulletType::Note, e.notes)
        =~= normalize_bullets(BulletType::Note, e.notes));
    assert(Seq::<BulletModel>::empty() + normalize_bullets(BulletType::Priority, e.priorities)
        =~= normalize_bullets(BulletType::Priority, e.priorities));
    assert(Seq::<BulletModel>::empty() + normalize_bullets(
        BulletType::Inspiration,
        e.inspirations,
    ) =~= normalize_bullets(BulletType::Inspiration, e.inspirations));
    assert(Seq::<BulletModel>::empty() + normalize_bullets(BulletType::Insight, e.insights)
        =~= normalize_bullets(BulletType::Insight, e.insights));
    assert(Seq::<BulletModel>::empty() + normalize_bullets(BulletType::Misstep, e.missteps)
        =~= normalize_bullets(BulletType::Misstep, e.missteps));
    assert(push_block(
        push_block(
            push_block(
                push_block(
                    push_block(
                        push_block(
                            push_block(EntryModel::empty(date), BulletType::Task, e.tasks),
                            BulletType::Event,
                            e.events,
                        ),
                        BulletType::Note,
                        e.notes,
                    ),
                    BulletType::Priority,
                    e.priorities,
                ),
                BulletType::Inspiration,
                e.inspirations,
            ),
            BulletType::Insight,
            e.insights,
        ),
        BulletType::Misstep,
        e.missteps,
    ) =~= normalize(e, date));
}

/// Reparsing keeps each section's contents, in order.
proof fn lemma_normalize_contents(e: EntryModel, date: Date)
    ensures
        forall|t: BulletType| normalize(e, date).contents_of(t) == e.contents_of(t),
{
    assert forall|t: BulletType| normalize(e, date).contents_of(t) == e.contents_of(t) by {
        assert(normalize(e, date).contents_of(t) =~= e.contents_of(t));
    }
}

/// For an entry built through the constructors — every bullet under the
/// section of its own type, task states at their defaults — the editing
/// round trip is the exact identity.
pub proof fn lemma_round_trip_editing_exact(e: EntryModel)
    requires
        editable(e),
        canonical(e),
    ensures
        spec_parse(e.date, spec_serialize_for_editing(e)) == e,
{
    lemma_round_trip_editing(e, e.date);
    lemma_normalize_canonical(e);
}

/// For a canonical entry the minimal round trip is the exact identity too.
pub proof fn lemma_round_trip_minimal_exact(e: EntryModel)
    requires
        editable(e),
        canonical(e),
    ensures
        spec_parse(e.date, spec_serialize(e)) == e,
{
    lemma_round_trip_minimal(e, e.date);
    lemma_normalize_canonical(e);
}

/// Reparsing is the identity on canonical entries.
proof fn lemma_normalize_canonical(e: EntryModel)
    requires
        canonical(e),
    ensures
        normalize(e, e.date) == e,
{
    assert(normalize_bullets(BulletType::Task, e.tasks) =~= e.tasks);
    assert(normalize_bullets(BulletType::Event, e.events) =~= e.events);
    assert(normalize_bullets(BulletType::Note, e.notes) =~= e.notes);
    assert(normalize_bullets(BulletType::Priority, e.priorities) =~= e.priorities);
    assert(normalize_bullets(BulletType::Inspiration, e.inspirations) =~= e.inspirations);
    assert(normalize_bullets(BulletType::Insight, e.insights) =~= e.insights);
    assert(normalize_bullets(BulletType::Misstep, e.missteps) =~= e.missteps);
    assert(normalize(e, e.date) =~= e);
}

/// Canonical section order: what `serialize` emits is determined by the
/// per-type bullet lists alone, laid out in canonical type order, so the
/// order in which bullets of different types were added cannot change the
/// output.
pub proof fn lemma_serialize_canonical_order(e1: EntryModel, e2: EntryModel)
    requires
        forall|t: BulletType| e1.bullets_of(t) == e2.bullets_of(t),
    ensures
        spec_serialize(e1) == spec_serialize(e2),
        spec_serialize_for_editing(e1) == spec_serialize_for_editing(e2),
{
    assert(e1.bullets_of(BulletType::Task) == e2.bullets_of(BulletType::Task));
    assert(e1.bullets_of(BulletType::Event) == e2.bullets_of(BulletType::Event));
    assert(e1.bullets_of(BulletType::Note) == e2.bullets_of(BulletType::Note));
    assert(e1.bullets_of(BulletType::Priority) == e2.bullets_of(BulletType::Priority));
    assert(e1.bullets_of(BulletType::Inspiration) == e2.bullets_of(BulletType::Inspiration));
    assert(e1.bullets_of(BulletType::Insight) == e2.bullets_of(BulletType::Insight));
    assert(e1.bullets_of(BulletType::Misstep) == e2.bullets_of(BulletType::Misstep));
}

/// Adding bullets of different types commutes: only the order within one
/// type is meaningful.
pub proof fn lemma_push_bullet_commutes(e: EntryModel, a: BulletModel, b: BulletModel)
    requires
        a.bullet_type != b.bullet_type,
    ensures
        e.push_bullet(a).push_bullet(b) == e.push_bullet(b).push_bullet(a),
{
    assert(e.push_bullet(a).push_bullet(b) =~= e.push_bullet(b).push_bullet(a));
}

/// The template asymmetry: an empty entry serializes to the empty string;
/// parsing the template yields an empty entry; and so the template is not
/// the serialization of what it parses to.
pub proof fn lemma_template_asymmetry(date: Date)
    ensures
        spec_serialize(EntryModel::empty(date)) == Seq::<char>::empty(),
        spec_parse(date, spec_template()) == EntryModel::empty(date),
        spec_template() != spec_serialize(spec_parse(date, spec_template())),
{
    let e = EntryModel::empty(date);
    assert(spec_serialize(e) =~= Seq::<char>::empty());
    assert(spec_template() =~= spec_serialize_for_editing(e)) by {
        assert(contents_block(Seq::<BulletModel>::empty()) == Seq::<char>::empty());
        assert(blank_section(BulletType::Task) =~= section_text(e.tasks, BulletType::Task));
        assert(blank_section(BulletType::Event) =~= section_text(e.events, BulletType::Event));
        assert(blank_section(BulletType::Note) =~= section_text(e.notes, BulletType::Note));
        assert(blank_section(BulletType::Priority) =~= section_text(
            e.priorities,
            BulletType::Priority,
        ));
        assert(blank_section(BulletType::Inspiration) =~= section_text(
            e.inspirations,
            BulletType::Inspiration,
        ));
        assert(blank_section(BulletType::Insight) =~= section_text(
            e.insights,
            BulletType::Insight,
        ));
        assert(blank_section(BulletType::Misstep) =~= section_text(
            e.missteps,
            BulletType::Misstep,
        ));
    }
    lemma_round_trip_editing(e, date);
    assert(normalize(e, date) =~= e);
    assert(spec_template().len() > 0) by {
        assert(header_chars(BulletType::Task).len() == 7);
    }
}

} // verus!
