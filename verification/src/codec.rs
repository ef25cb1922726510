//! The text codec: the canonical plain-text form of an entry, and its
//! parser.
//!
//! An entry serializes to one section per bullet type, in canonical type
//! order: a `# <Name>` header line, one line per bullet (the raw content),
//! and a blank separator line. `serialize` omits sections with no bullets;
//! `serialize_for_editing` emits all seven headers so that the editing user
//! sees the full structure. The two are intentionally distinct: an empty
//! entry serializes to the empty string, not to the editing template.
//!
//! Parsing is forgiving: blank lines are skipped, lines are trimmed of
//! ASCII whitespace, a `#` line is matched ASCII-case-insensitively against
//! the seven canonical headers to choose the current section (an unknown
//! header drops the following lines), and text before any header is
//! dropped.

use vstd::prelude::*;

use crate::bullet::{default_task_state, Bullet, BulletModel, BulletType};
use crate::date::Date;
use crate::entry::{Entry, EntryModel};
use crate::error::JournalError;
use crate::text::{lines_rec, spec_lines, spec_lower, spec_trim, split_lines, trim_str, views_of};
use crate::text::lower_char;

verus! {

/// The header line of a section, as written by the serializer.
pub open spec fn header_chars(t: BulletType) -> Seq<char> {
    match t {
        BulletType::Task => seq!['#', ' ', 'T', 'a', 's', 'k', 's'],
        BulletType::Event => seq!['#', ' ', 'E', 'v', 'e', 'n', 't', 's'],
        BulletType::Note => seq!['#', ' ', 'N', 'o', 't', 'e', 's'],
        BulletType::Priority => seq!['#', ' ', 'P', 'r', 'i', 'o', 'r', 'i', 't', 'y'],
        BulletType::Inspiration => seq![
            '#',
            ' ',
            'I',
            'n',
            's',
            'p',
            'i',
            'r',
            'a',
            't',
            'i',
            'o',
            'n',
        ],
        BulletType::Insight => seq!['#', ' ', 'I', 'n', 's', 'i', 'g', 'h', 't', 's'],
        BulletType::Misstep => seq!['#', ' ', 'M', 'i', 's', 's', 't', 'e', 'p', 's'],
    }
}

/// The lowercase form a header is matched against.
pub open spec fn header_lower(t: BulletType) -> Seq<char> {
    match t {
        BulletType::Task => seq!['#', ' ', 't', 'a', 's', 'k', 's'],
        BulletType::Event => seq!['#', ' ', 'e', 'v', 'e', 'n', 't', 's'],
        BulletType::Note => seq!['#', ' ', 'n', 'o', 't', 'e', 's'],
        BulletType::Priority => seq!['#', ' ', 'p', 'r', 'i', 'o', 'r', 'i', 't', 'y'],
        BulletType::Inspiration => seq![
            '#',
            ' ',
            'i',
            'n',
            's',
            'p',
            'i',
            'r',
            'a',
            't',
            'i',
            'o',
            'n',
        ],
        BulletType::Insight => seq!['#', ' ', 'i', 'n', 's', 'i', 'g', 'h', 't', 's'],
        BulletType::Misstep => seq!['#', ' ', 'm', 'i', 's', 's', 't', 'e', 'p', 's'],
    }
}

/// Which section a trimmed header line selects: the bullet type whose
/// lowercase header the line folds to, or none for an unknown header.
pub open spec fn spec_header_match(l: Seq<char>) -> Option<BulletType> {
    if spec_lower(l) == header_lower(BulletType::Task) {
        Some(BulletType::Task)
    } else if spec_lower(l) == header_lower(BulletType::Event) {
        Some(BulletType::Event)
    } else if spec_lower(l) == header_lower(BulletType::Note) {
        Some(BulletType::Note)
    } else if spec_lower(l) == header_lower(BulletType::Priority) {
        Some(BulletType::Priority)
    } else if spec_lower(l) == header_lower(BulletType::Inspiration) {
        Some(BulletType::Inspiration)
    } else if spec_lower(l) == header_lower(BulletType::Insight) {
        Some(BulletType::Insight)
    } else if spec_lower(l) == header_lower(BulletType::Misstep) {
        Some(BulletType::Misstep)
    } else {
        None
    }
}

/// One parser step on a raw line: skip blank lines, switch section on `#`
/// lines, otherwise record a bullet under the current section (or drop the
/// line if no section is current).
pub open spec fn machine_step(
    cur: Option<BulletType>,
    acc: EntryModel,
    line: Seq<char>,
) -> (Option<BulletType>, EntryModel) {
    let t = spec_trim(line);
    if t.len() == 0 {
        (cur, acc)
    } else if t[0] == '#' {
        (spec_header_match(t), acc)
    } else {
        match cur {
            Some(bt) => (
                cur,
                acc.push_bullet(
                    BulletModel { content: t, bullet_type: bt, task_state: default_task_state(bt) },
                ),
            ),
            None => (cur, acc),
        }
    }
}

/// The parser as a machine over a list of lines.
pub open spec fn run_machine(
    lines: Seq<Seq<char>>,
    cur: Option<BulletType>,
    acc: EntryModel,
) -> (Option<BulletType>, EntryModel)
    decreases lines.len(),
{
    if lines.len() == 0 {
        (cur, acc)
    } else {
        let s = machine_step(cur, acc, lines[0]);
        run_machine(lines.drop_first(), s.0, s.1)
    }
}

/// What parsing a text for a date yields.
pub open spec fn spec_parse(date: Date, text: Seq<char>) -> EntryModel {
    run_machine(spec_lines(text), None, EntryModel::empty(date)).1
}

/// The body of a section: one line per bullet, each terminated.
pub open spec fn contents_block(bs: Seq<BulletModel>) -> Seq<char>
    decreases bs.len(),
{
    if bs.len() == 0 {
        Seq::empty()
    } else {
        bs[0].content + seq!['\n'] + contents_block(bs.drop_first())
    }
}

/// A full section: header line, bullet lines, blank separator line.
pub open spec fn section_text(bs: Seq<BulletModel>, t: BulletType) -> Seq<char> {
    header_chars(t) + seq!['\n'] + contents_block(bs) + seq!['\n']
}

/// A section as `serialize` emits it: omitted entirely when empty.
pub open spec fn section_opt(bs: Seq<BulletModel>, t: BulletType) -> Seq<char> {
    if bs.len() == 0 {
        Seq::empty()
    } else {
        section_text(bs, t)
    }
}

/// The minimal serialized form: nonempty sections only, canonical order.
pub open spec fn spec_serialize(e: EntryModel) -> Seq<char> {
    section_opt(e.tasks, BulletType::Task) + section_opt(e.events, BulletType::Event)
        + section_opt(e.notes, BulletType::Note) + section_opt(e.priorities, BulletType::Priority)
        + section_opt(e.inspirations, BulletType::Inspiration) + section_opt(
        e.insights,
        BulletType::Insight,
    ) + section_opt(e.missteps, BulletType::Misstep)
}

/// The editing form: all seven sections, canonical order.
pub open spec fn spec_serialize_for_editing(e: EntryModel) -> Seq<char> {
    section_text(e.tasks, BulletType::Task) + section_text(e.events, BulletType::Event)
        + section_text(e.notes, BulletType::Note) + section_text(
        e.priorities,
        BulletType::Priority,
    ) + section_text(e.inspirations, BulletType::Inspiration) + section_text(
        e.insights,
        BulletType::Insight,
    ) + section_text(e.missteps, BulletType::Misstep)
}

/// A header followed by a blank line, as the template writes each section.
pub open spec fn blank_section(t: BulletType) -> Seq<char> {
    header_chars(t) + seq!['\n', '\n']
}

/// The editing template for a brand-new entry: all seven headers, each
/// followed by one blank line.
pub open spec fn spec_template() -> Seq<char> {
    blank_section(BulletType::Task) + blank_section(BulletType::Event) + blank_section(
        BulletType::Note,
    ) + blank_section(BulletType::Priority) + blank_section(BulletType::Inspiration)
        + blank_section(BulletType::Insight) + blank_section(BulletType::Misstep)
}

/// Whether the lowercase folding of `line` equals `target`.
fn eq_lower(line: &str, target: &str) -> (r: bool)
    ensures
        r == (spec_lower(line@) == target@),
{
    let n = line.unicode_len();
    if n != target.unicode_len() {
        proof {
            assert(spec_lower(line@).len() == line@.len());
        }
        return false;
    }
    let mut i: usize = 0;
    while i < n
        invariant
            0 <= i <= n,
            n == line@.len(),
            n == target@.len(),
            forall|j: int| 0 <= j < i ==> spec_lower_match_at(line@, target@, j),
        decreases n - i,
    {
        if lower_char(line.get_char(i)) != target.get_char(i) {
            proof {
                assert(spec_lower(line@)[i as int] != target@[i as int]);
            }
            return false;
        }
        i = i + 1;
    }
    proof {
        assert forall|j: int| 0 <= j < n implies spec_lower(line@)[j] == target@[j] by {
            assert(spec_lower_match_at(line@, target@, j));
        }
        assert(spec_lower(line@) =~= target@);
    }
    true
}

/// Pointwise agreement of a lowercase folding with a target.
pub open spec fn spec_lower_match_at(line: Seq<char>, target: Seq<char>, j: int) -> bool {
    spec_lower(line)[j] == target[j]
}

/// The section a trimmed line selects, if any.
fn header_type(line: &str) -> (r: Option<BulletType>)
    ensures
        r == spec_header_match(line@),
{
    proof {
        reveal_strlit("# tasks");
        reveal_strlit("# events");
        reveal_strlit("# notes");
        reveal_strlit("# priority");
        reveal_strlit("# inspiration");
        reveal_strlit("# insights");
        reveal_strlit("# missteps");
        assert("# tasks"@ =~= header_lower(BulletType::Task));
        assert("# events"@ =~= header_lower(BulletType::Event));
        assert("# notes"@ =~= header_lower(BulletType::Note));
        assert("# priority"@ =~= header_lower(BulletType::Priority));
        assert("# inspiration"@ =~= header_lower(BulletType::Inspiration));
        assert("# insights"@ =~= header_lower(BulletType::Insight));
        assert("# missteps"@ =~= header_lower(BulletType::Misstep));
    }
    if eq_lower(line, "# tasks") {
        Some(BulletType::Task)
    } else if eq_lower(line, "# events") {
        Some(BulletType::Event)
    } else if eq_lower(line, "# notes") {
        Some(BulletType::Note)
    } else if eq_lower(line, "# priority") {
        Some(BulletType::Priority)
    } else if eq_lower(line, "# inspiration") {
        Some(BulletType::Inspiration)
    } else if eq_lower(line, "# insights") {
        Some(BulletType::Insight)
    } else if eq_lower(line, "# missteps") {
        Some(BulletType::Misstep)
    } else {
        None
    }
}

/// The text codec between entries and their canonical plain-text form.
pub struct MarkdownParser;

impl MarkdownParser {
    pub fn new() -> (r: MarkdownParser)
        ensures
            true,
    {
        MarkdownParser
    }

    /// Parses a text into an entry for `date`, exactly as the line machine
    /// describes: blank lines skipped, headers switch sections, other lines
    /// become bullets of the current section.
    pub fn parse(&self, date: Date, content: &str) -> (r: Result<Entry, JournalError>)
        ensures
            r matches Ok(e) && e@ == spec_parse(date, content@),
    {
        let lines = split_lines(content);
        let ghost lvs = views_of(lines@);
        let mut entry = Entry::new(date);
        let mut cur: Option<BulletType> = None;
        let mut k: usize = 0;
        proof {
            assert(lvs.skip(0) =~= lvs);
        }
        while k < lines.len()
            invariant
                0 <= k <= lines@.len(),
                lvs == views_of(lines@),
                lvs == spec_lines(content@),
                run_machine(lvs, None, EntryModel::empty(date)) == run_machine(
                    lvs.skip(k as int),
                    cur,
                    entry@,
                ),
            decreases lines@.len() - k,
        {
            let ghost pre = lvs.skip(k as int);
            proof {
                assert(pre[0] == lvs[k as int]);
                assert(pre.drop_first() =~= lvs.skip(k + 1));
                assert(lvs[k as int] == lines@[k as int]@);
            }
            let line: &str = lines[k];
            let t = trim_str(line);
            if t.unicode_len() == 0 {
                proof {
                    assert(machine_step(cur, entry@, pre[0]) == (cur, entry@));
                }
            } else if t.get_char(0) == '#' {
                cur = header_type(t);
            } else {
                match cur {
                    Some(bt) => {
                        let b = Bullet::new(t, bt);
                        entry.add_bullet(b);
                    },
                    None => {},
                }
            }
            k = k + 1;
        }
        proof {
            assert(lvs.skip(lvs.len() as int) =~= Seq::<Seq<char>>::empty());
        }
        Ok(entry)
    }

    /// Serializes an entry: nonempty sections only, in canonical order.
    pub fn serialize(&self, entry: &Entry) -> (r: Result<String, JournalError>)
        ensures
            r matches Ok(s) && s@ == spec_serialize(entry@),
    {
        let mut out = String::new();
        proof {
            lemma_header_literals();
        }
        append_section(&mut out, "# Tasks", &entry.tasks, false);
        append_section(&mut out, "# Events", &entry.events, false);
        append_section(&mut out, "# Notes", &entry.notes, false);
        append_section(&mut out, "# Priority", &entry.priorities, false);
        append_section(&mut out, "# Inspiration", &entry.inspirations, false);
        append_section(&mut out, "# Insights", &entry.insights, false);
        append_section(&mut out, "# Missteps", &entry.missteps, false);
        proof {
            assert(out@ =~= spec_serialize(entry@));
        }
        Ok(out)
    }

    /// Serializes an entry for editing: all seven sections, in canonical
    /// order, headers included even when a section is empty.
    pub fn serialize_for_editing(&self, entry: &Entry) -> (r: Result<String, JournalError>)
        ensures
            r matches Ok(s) && s@ == spec_serialize_for_editing(entry@),
    {
        let mut out = String::new();
        proof {
            lemma_header_literals();
        }
        append_section(&mut out, "# Tasks", &entry.tasks, true);
        append_section(&mut out, "# Events", &entry.events, true);
        append_section(&mut out, "# Notes", &entry.notes, true);
        append_section(&mut out, "# Priority", &entry.priorities, true);
        append_section(&mut out, "# Inspiration", &entry.inspirations, true);
        append_section(&mut out, "# Insights", &entry.insights, true);
        append_section(&mut out, "# Missteps", &entry.missteps, true);
        proof {
            assert(out@ =~= spec_serialize_for_editing(entry@));
        }
        Ok(out)
    }

    /// The editing template for a brand-new entry.
    pub fn empty_template() -> (r: String)
        ensures
            r@ == spec_template(),
    {
        let t = String::from_str(
            "# Tasks\n\n# Events\n\n# Notes\n\n# Priority\n\n# Inspiration\n\n# Insights\n\n# Missteps\n\n",
        );
        proof {
            reveal_strlit(
                "# Tasks\n\n# Events\n\n# Notes\n\n# Priority\n\n# Inspiration\n\n# Insights\n\n# Missteps\n\n",
            );
            assert(t@ =~= spec_template());
        }
        t
    }
}

/// The serializer's header literals match the header character sequences.
proof fn lemma_header_literals()
    ensures
        "# Tasks"@ == header_chars(BulletType::Task),
        "# Events"@ == header_chars(BulletType::Event),
        "# Notes"@ == header_chars(BulletType::Note),
        "# Priority"@ == header_chars(BulletType::Priority),
        "# Inspiration"@ == header_chars(BulletType::Inspiration),
        "# Insights"@ == header_chars(BulletType::Insight),
        "# Missteps"@ == header_chars(BulletType::Misstep),
{
    reveal_strlit("# Tasks");
    reveal_strlit("# Events");
    reveal_strlit("# Notes");
    reveal_strlit("# Priority");
    reveal_strlit("# Inspiration");
    reveal_strlit("# Insights");
    reveal_strlit("# Missteps");
    assert("# Tasks"@ =~= header_chars(BulletType::Task));
    assert("# Events"@ =~= header_chars(BulletType::Event));
    assert("# Notes"@ =~= header_chars(BulletType::Note));
    assert("# Priority"@ =~= header_chars(BulletType::Priority));
    assert("# Inspiration"@ =~= header_chars(BulletType::Inspiration));
    assert("# Insights"@ =~= header_chars(BulletType::Insight));
    assert("# Missteps"@ =~= header_chars(BulletType::Misstep));
}

/// Appending a bullet to a section body appends its line.
proof fn lemma_contents_snoc(bs: Seq<BulletModel>, b: BulletModel)
    ensures
        contents_block(bs.push(b)) == contents_block(bs) + b.content + seq!['\n'],
    decreases bs.len(),
{
    if bs.len() == 0 {
        assert(bs.push(b)[0] == b);
        assert(bs.push(b).drop_first() =~= Seq::<BulletModel>::empty());
        assert(contents_block(Seq::<BulletModel>::empty()) == Seq::<char>::empty());
        assert(contents_block(bs.push(b)) == b.content + seq!['\n'] + Seq::<char>::empty());
        assert(contents_block(bs.push(b)) =~= contents_block(bs) + b.content + seq!['\n']);
    } else {
        assert(bs.push(b)[0] == bs[0]);
        assert(bs.push(b).drop_first() =~= bs.drop_first().push(b));
        lemma_contents_snoc(bs.drop_first(), b);
        assert(contents_block(bs.push(b)) =~= contents_block(bs) + b.content + seq!['\n']);
    }
}

/// Appends one section to `out`: nothing if the section is empty and
/// `always` is unset, otherwise the header line, the bullet lines and a
/// blank separator line.
fn append_section(out: &mut String, header: &str, bullets: &Vec<Bullet>, always: bool)
    ensures
        final(out)@ == old(out)@ + (if !always && bullets@.len() == 0 {
            Seq::<char>::empty()
        } else {
            header@ + seq!['\n'] + contents_block(crate::entry::models_of(bullets@)) + seq!['\n']
        }),
{
    proof {
        reveal_strlit("\n");
    }
    if !always && bullets.len() == 0 {
        proof {
            assert(old(out)@ + Seq::<char>::empty() =~= old(out)@);
        }
        return ;
    }
    let ghost ms = crate::entry::models_of(bullets@);
    out.append(header);
    out.append("\n");
    proof {
        assert("\n"@ =~= seq!['\n']);
        assert(ms.take(0) =~= Seq::<BulletModel>::empty());
        assert(out@ =~= old(out)@ + header@ + seq!['\n'] + contents_block(ms.take(0)));
    }
    let mut i: usize = 0;
    while i < bullets.len()
        invariant
            0 <= i <= bullets@.len(),
            ms == crate::entry::models_of(bullets@),
            "\n"@ == seq!['\n'],
            out@ == old(out)@ + header@ + seq!['\n'] + contents_block(ms.take(i as int)),
        decreases bullets@.len() - i,
    {
        out.append(bullets[i].content.as_str());
        out.append("\n");
        proof {
            assert(ms.take(i as int).push(ms[i as int]) =~= ms.take(i + 1));
            lemma_contents_snoc(ms.take(i as int), ms[i as int]);
            assert(ms[i as int].content == bullets@[i as int].content@);
            assert(out@ =~= old(out)@ + header@ + seq!['\n'] + contents_block(ms.take(i + 1)));
        }
        i = i + 1;
    }
    out.append("\n");
    proof {
        assert(ms.take(bullets@.len() as int) =~= ms);
        assert(out@ =~= old(out)@ + (header@ + seq!['\n'] + contents_block(ms) + seq!['\n']));
    }
}

} // verus!
