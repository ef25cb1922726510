//! Schema migration units and their discovery.
//!
//! Migration units come from an ordered external source (a directory of
//! versioned scripts); each is identified by a leading integer version in its
//! name, before the first underscore. Discovery parses that version, skips
//! malformed names rather than failing, and yields the units sorted by
//! ascending version. Which versions have been applied is tracked durably by
//! each backend; the runner applies outstanding versions in order and records
//! each exactly once.

use vstd::prelude::*;

use vstd::multiset::Multiset;

verus! {

/// A discovered migration unit: its version, its clean name (without the
/// script suffix), and its body.
#[derive(Debug, Clone)]
pub struct MigrationUnit {
    pub version: u32,
    pub name: String,
    pub body: String,
}

/// Mathematical model of a migration unit.
#[verifier::ext_equal]
pub ghost struct MigrationModel {
    pub version: u32,
    pub name: Seq<char>,
    pub body: Seq<char>,
}

impl View for MigrationUnit {
    type V = MigrationModel;

    open spec fn view(&self) -> MigrationModel {
        MigrationModel { version: self.version, name: self.name@, body: self.body@ }
    }
}

/// A candidate from the external source, before its name is parsed.
#[derive(Debug, Clone)]
pub struct MigrationSource {
    pub name: String,
    pub body: String,
}

/// Model of a candidate.
#[verifier::ext_equal]
pub ghost struct MigrationSourceModel {
    pub name: Seq<char>,
    pub body: Seq<char>,
}

impl View for MigrationSource {
    type V = MigrationSourceModel;

    open spec fn view(&self) -> MigrationSourceModel {
        MigrationSourceModel { name: self.name@, body: self.body@ }
    }
}

/// The models of a sequence of units.
pub open spec fn unit_models(s: Seq<MigrationUnit>) -> Seq<MigrationModel> {
    s.map(|i: int, u: MigrationUnit| u@)
}

/// The models of a sequence of candidates.
pub open spec fn source_models(s: Seq<MigrationSource>) -> Seq<MigrationSourceModel> {
    s.map(|i: int, u: MigrationSource| u@)
}

/// An ASCII decimal digit.
pub open spec fn is_digit(c: char) -> bool {
    '0' <= c && c <= '9'
}

/// The value of one digit character.
pub open spec fn digit_val(c: char) -> int {
    c as int - '0' as int
}

/// Whether every character is a digit.
pub open spec fn all_digits(s: Seq<char>) -> bool {
    forall|i: int| 0 <= i < s.len() ==> is_digit(#[trigger] s[i])
}

/// The decimal value of a digit string.
pub open spec fn digits_val(s: Seq<char>) -> int
    decreases s.len(),
{
    if s.len() == 0 {
        0
    } else {
        digits_val(s.drop_last()) * 10 + digit_val(s.last())
    }
}

/// Length of the name's leading segment: up to the first underscore.
pub open spec fn seg_len(s: Seq<char>) -> int
    decreases s.len(),
{
    if s.len() == 0 {
        0
    } else if s[0] == '_' {
        0
    } else {
        1 + seg_len(s.drop_first())
    }
}

/// The version a unit name carries: the decimal value of its leading
/// segment, if that segment is nonempty, all digits, and within `u32`.
pub open spec fn spec_parse_version(name: Seq<char>) -> Option<u32> {
    let seg = name.subrange(0, seg_len(name));
    if seg.len() > 0 && all_digits(seg) && digits_val(seg) <= u32::MAX {
        Some(digits_val(seg) as u32)
    } else {
        None
    }
}

/// Whether a candidate name ends in the script suffix `.sql`.
pub open spec fn has_sql_suffix(s: Seq<char>) -> bool {
    s.len() >= 4 && s.subrange(s.len() - 4, s.len() as int) == seq!['.', 's', 'q', 'l']
}

/// A candidate name with any trailing script suffix removed: the unit's
/// clean name.
pub open spec fn strip_sql(s: Seq<char>) -> Seq<char> {
    if has_sql_suffix(s) {
        s.take(s.len() - 4)
    } else {
        s
    }
}

/// The units that discovery accepts, in source order: the version is read
/// from the candidate name as given; the stored unit name has the script
/// suffix removed.
pub open spec fn parsed_units(fs: Seq<MigrationSourceModel>) -> Seq<MigrationModel>
    decreases fs.len(),
{
    if fs.len() == 0 {
        Seq::empty()
    } else {
        let rest = parsed_units(fs.drop_first());
        match spec_parse_version(fs[0].name) {
            Some(v) => seq![
                MigrationModel { version: v, name: strip_sql(fs[0].name), body: fs[0].body },
            ] + rest,
            None => rest,
        }
    }
}

/// The clean form of a candidate name.
fn strip_sql_suffix<'a>(s: &'a str) -> (r: &'a str)
    ensures
        r@ == strip_sql(s@),
{
    let n = s.unicode_len();
    if n >= 4 && s.get_char(n - 4) == '.' && s.get_char(n - 3) == 's' && s.get_char(n - 2) == 'q'
        && s.get_char(n - 1) == 'l' {
        proof {
            assert(s@.subrange(n - 4, n as int) =~= seq!['.', 's', 'q', 'l']);
            assert(s@.take(n - 4) =~= s@.subrange(0, n - 4));
        }
        s.substring_char(0, n - 4)
    } else {
        proof {
            if has_sql_suffix(s@) {
                let t = s@.subrange(s@.len() - 4, s@.len() as int);
                assert(t[0] == s@[s@.len() - 4]);
                assert(t[1] == s@[s@.len() - 3]);
                assert(t[2] == s@[s@.len() - 2]);
                assert(t[3] == s@[s@.len() - 1]);
                assert(false);
            }
        }
        s
    }
}

/// Ascending version order.
pub open spec fn sorted_by_version(s: Seq<MigrationModel>) -> bool {
    forall|i: int, j: int| 0 <= i < j < s.len() ==> s[i].version <= s[j].version
}

/// The set of versions a list of units carries.
pub open spec fn versions_of(s: Seq<MigrationModel>) -> Set<u32> {
    s.map(|i: int, u: MigrationModel| u.version).to_set()
}

proof fn lemma_seg_len_index(s: Seq<char>, i: int)
    requires
        0 <= i <= s.len(),
        forall|j: int| 0 <= j < i ==> #[trigger] s[j] != '_',
        i < s.len() ==> s[i] == '_',
    ensures
        seg_len(s) == i,
    decreases i,
{
    if i == 0 {
    } else {
        let s2 = s.drop_first();
        lemma_seg_len_index(s2, i - 1);
    }
}

proof fn lemma_digits_val_nonneg(s: Seq<char>)
    requires
        all_digits(s),
    ensures
        digits_val(s) >= 0,
    decreases s.len(),
{
    if s.len() > 0 {
        assert(all_digits(s.drop_last()));
        lemma_digits_val_nonneg(s.drop_last());
    }
}

/// Every prefix of a digit string has a value at most the whole string's.
proof fn lemma_digits_val_prefix(s: Seq<char>, k: int)
    requires
        all_digits(s),
        0 <= k <= s.len(),
    ensures
        digits_val(s.take(k)) <= digits_val(s),
    decreases s.len() - k,
{
    if k == s.len() {
        assert(s.take(k) =~= s);
    } else {
        assert(s.take(k + 1).drop_last() =~= s.take(k));
        assert(s.take(k + 1).last() == s[k]);
        assert(all_digits(s.take(k)));
        lemma_digits_val_nonneg(s.take(k));
        assert(digits_val(s.take(k + 1)) == digits_val(s.take(k)) * 10 + digit_val(s[k]));
        lemma_digits_val_prefix(s, k + 1);
    }
}

fn is_digit_char(c: char) -> (r: bool)
    ensures
        r == is_digit(c),
{
    '0' <= c && c <= '9'
}

fn digit_value(c: char) -> (r: u32)
    requires
        is_digit(c),
    ensures
        r == digit_val(c),
        r < 10,
{
    (c as u32) - ('0' as u32)
}

/// Parses the leading integer version of a unit name; `None` for a
/// malformed name.
pub fn parse_version(name: &str) -> (r: Option<u32>)
    ensures
        r == spec_parse_version(name@),
{
    let n = name.unicode_len();
    let mut end: usize = 0;
    while end < n && name.get_char(end) != '_'
        invariant
            0 <= end <= n,
            n == name@.len(),
            forall|j: int| 0 <= j < end ==> #[trigger] name@[j] != '_',
        decreases n - end,
    {
        end = end + 1;
    }
    proof {
        lemma_seg_len_index(name@, end as int);
    }
    let ghost seg = name@.subrange(0, end as int);
    if end == 0 {
        return None;
    }
    let mut acc: u32 = 0;
    let mut i: usize = 0;
    while i < end
        invariant
            0 <= i <= end <= n,
            1 <= end,
            n == name@.len(),
            seg == name@.subrange(0, end as int),
            seg.len() == end,
            seg_len(name@) == end,
            all_digits(seg.take(i as int)),
            acc == digits_val(seg.take(i as int)),
        decreases end - i,
    {
        let c = name.get_char(i);
        proof {
            assert(seg[i as int] == name@[i as int]);
        }
        if !is_digit_char(c) {
            proof {
                assert(!all_digits(seg));
            }
            return None;
        }
        let d = digit_value(c);
        proof {
            assert(seg.take(i + 1).drop_last() =~= seg.take(i as int));
            assert(seg.take(i + 1).last() == seg[i as int]);
            assert(all_digits(seg.take(i + 1)));
        }
        if acc > (u32::MAX - d) / 10 {
            proof {
                assert(digits_val(seg.take(i + 1)) == acc * 10 + d);
                assert(digits_val(seg.take(i + 1)) > u32::MAX) by {
                    assert(acc >= (u32::MAX - d) / 10 + 1);
                    assert(((u32::MAX - d) / 10 + 1) * 10 + d > u32::MAX);
                }
                if all_digits(seg) {
                    lemma_digits_val_prefix(seg, i + 1);
                }
            }
            return None;
        }
        proof {
            assert(digits_val(seg.take(i + 1)) == acc * 10 + d);
            assert(acc <= (u32::MAX - d) / 10);
            assert(acc * 10 + d <= u32::MAX) by {
                assert(acc * 10 <= ((u32::MAX - d) / 10) * 10);
                assert(((u32::MAX - d) / 10) * 10 <= u32::MAX - d);
            }
        }
        acc = acc * 10 + d;
        i = i + 1;
    }
    proof {
        assert(seg.take(end as int) =~= seg);
    }
    Some(acc)
}

/// Discovers migration units among candidates (the script files of the
/// migration source, as the caller read them): parses each leading version,
/// skips malformed names, strips a trailing `.sql` from each kept name, and
/// yields the units sorted by ascending version.
pub fn discover_migrations(files: &Vec<MigrationSource>) -> (r: Vec<MigrationUnit>)
    ensures
        sorted_by_version(unit_models(r@)),
        unit_models(r@).to_multiset() == parsed_units(source_models(files@)).to_multiset(),
{
    let ghost fsm = source_models(files@);
    let mut found: Vec<MigrationUnit> = Vec::new();
    let mut i: usize = 0;
    proof {
        assert(fsm.skip(0) =~= fsm);
        assert(unit_models(found@) =~= Seq::<MigrationModel>::empty());
    }
    while i < files.len()
        invariant
            0 <= i <= files@.len(),
            fsm == source_models(files@),
            parsed_units(fsm) == unit_models(found@) + parsed_units(fsm.skip(i as int)),
        decreases files@.len() - i,
    {
        let ghost pre = fsm.skip(i as int);
        proof {
            assert(pre[0] == fsm[i as int]);
            assert(pre.drop_first() =~= fsm.skip(i + 1));
            assert(fsm[i as int] == files@[i as int]@);
        }
        let f = &files[i];
        match parse_version(f.name.as_str()) {
            Some(v) => {
                let ghost f0 = found@;
                let name = strip_sql_suffix(f.name.as_str()).to_owned();
                found.push(MigrationUnit { version: v, name, body: f.body.clone() });
                proof {
                    assert(unit_models(found@) =~= unit_models(f0) + seq![
                        MigrationModel { version: v, name: strip_sql(f.name@), body: f.body@ },
                    ]);
                    assert(unit_models(f0) + (seq![
                        MigrationModel { version: v, name: strip_sql(f.name@), body: f.body@ },
                    ] + parsed_units(fsm.skip(i + 1))) =~= unit_models(found@) + parsed_units(
                        fsm.skip(i + 1),
                    ));
                }
            },
            None => {},
        }
        i = i + 1;
    }
    proof {
        assert(fsm.skip(fsm.len() as int) =~= Seq::<MigrationModel>::empty().map(
            |i: int, u: MigrationModel| MigrationSourceModel { name: u.name, body: u.body },
        ));
        assert(fsm.skip(fsm.len() as int).len() == 0);
        assert(parsed_units(fsm.skip(fsm.len() as int)) =~= Seq::<MigrationModel>::empty());
        assert(unit_models(found@) + Seq::<MigrationModel>::empty() =~= unit_models(found@));
    }
    sort_by_version_asc(found)
}

/// Migration idempotence: one run of the runner turns the applied set into
/// `applied ∪ versions(available)`; a second run over the same backend
/// leaves that set exactly as it is, so each migration is applied only by
/// the run that first saw it missing.
pub proof fn lemma_initialize_idempotent(applied: Set<u32>, available: Seq<MigrationModel>)
    ensures
        applied.union(versions_of(available)).union(versions_of(available)) == applied.union(
            versions_of(available),
        ),
{
    assert(applied.union(versions_of(available)).union(versions_of(available)) =~= applied.union(
        versions_of(available),
    ));
}

/// Sorts units by ascending version (selection of the minimum), keeping the
/// same units.
fn sort_by_version_asc(units: Vec<MigrationUnit>) -> (r: Vec<MigrationUnit>)
    ensures
        sorted_by_version(unit_models(r@)),
        unit_models(r@).to_multiset() == unit_models(units@).to_multiset(),
{
    broadcast use vstd::seq_lib::group_to_multiset_ensures;

    let mut src = units;
    let mut out: Vec<MigrationUnit> = Vec::new();
    proof {
        assert(unit_models(out@) =~= Seq::<MigrationModel>::empty());
        assert(unit_models(out@).to_multiset().add(unit_models(src@).to_multiset())
            =~= unit_models(src@).to_multiset());
    }
    while src.len() > 0
        invariant
            sorted_by_version(unit_models(out@)),
            unit_models(out@).to_multiset().add(unit_models(src@).to_multiset()) == unit_models(
                units@,
            ).to_multiset(),
            forall|a: int, b: int|
                0 <= a < out@.len() && 0 <= b < src@.len() ==> unit_models(out@)[a].version
                    <= unit_models(src@)[b].version,
        decreases src@.len(),
    {
        let mut mi: usize = 0;
        let mut j: usize = 1;
        while j < src.len()
            invariant
                0 <= mi < src@.len(),
                mi < j <= src@.len() || (j <= src@.len() && mi == 0),
                forall|k: int| 0 <= k < j ==> src@[mi as int]@.version <= src@[k]@.version,
            decreases src@.len() - j,
        {
            if src[j].version < src[mi].version {
                mi = j;
            }
            j = j + 1;
        }
        let ghost s0 = src@;
        let ghost o0 = out@;
        let u = src.remove(mi);
        out.push(u);
        proof {
            unit_models(s0).to_multiset_ensures();
            unit_models(o0).to_multiset_ensures();
            assert(unit_models(s0.remove(mi as int)) =~= unit_models(s0).remove(mi as int));
            assert(unit_models(s0).remove(mi as int).to_multiset() =~= unit_models(
                s0,
            ).to_multiset().remove(unit_models(s0)[mi as int]));
            assert(unit_models(out@) =~= unit_models(o0).push(u@));
            assert(unit_models(o0).push(u@).to_multiset() =~= unit_models(o0).to_multiset().insert(
                u@,
            ));
            assert(u@ == unit_models(s0)[mi as int]);
            assert(unit_models(out@).to_multiset().add(unit_models(src@).to_multiset())
                =~= unit_models(units@).to_multiset());
            // Every remaining unit has a version at least the chosen one.
            assert(forall|b: int|
                0 <= b < src@.len() ==> u@.version <= unit_models(src@)[b].version) by {
                assert(forall|b: int|
                    0 <= b < src@.len() ==> unit_models(src@)[b] == if b < mi as int {
                        unit_models(s0)[b]
                    } else {
                        unit_models(s0)[b + 1]
                    });
            }
        }
    }
    proof {
        assert(unit_models(src@).to_multiset() =~= Seq::<MigrationModel>::empty().to_multiset());
        assert(unit_models(out@).to_multiset().add(Multiset::<MigrationModel>::empty())
            =~= unit_models(out@).to_multiset());
    }
    out
}

} // verus!
