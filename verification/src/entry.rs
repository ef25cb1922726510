//! Entries: all bullets recorded for one calendar date, grouped by type.
//!
//! Bullets of each type are kept in insertion order, which is meaningful and
//! preserved by the codec and the storage layer. An entry with no bullets at
//! all is "empty"; backends treat an empty entry as absent.

use vstd::prelude::*;

use crate::bullet::{Bullet, BulletModel, BulletType};
use crate::date::Date;

verus! {

/// Mathematical model of an `Entry`: the date and one bullet sequence per
/// type.
#[verifier::ext_equal]
pub ghost struct EntryModel {
    pub date: Date,
    pub tasks: Seq<BulletModel>,
    pub events: Seq<BulletModel>,
    pub notes: Seq<BulletModel>,
    pub priorities: Seq<BulletModel>,
    pub inspirations: Seq<BulletModel>,
    pub insights: Seq<BulletModel>,
    pub missteps: Seq<BulletModel>,
}

/// The models of a sequence of bullets.
pub open spec fn models_of(s: Seq<Bullet>) -> Seq<BulletModel> {
    s.map(|i: int, b: Bullet| b@)
}

impl EntryModel {
    /// The entry with no bullets at all.
    pub open spec fn empty(date: Date) -> EntryModel {
        EntryModel {
            date,
            tasks: Seq::empty(),
            events: Seq::empty(),
            notes: Seq::empty(),
            priorities: Seq::empty(),
            inspirations: Seq::empty(),
            insights: Seq::empty(),
            missteps: Seq::empty(),
        }
    }

    /// The bullets recorded under one type, in insertion order.
    pub open spec fn bullets_of(self, t: BulletType) -> Seq<BulletModel> {
        match t {
            BulletType::Task => self.tasks,
            BulletType::Event => self.events,
            BulletType::Note => self.notes,
            BulletType::Priority => self.priorities,
            BulletType::Inspiration => self.inspirations,
            BulletType::Insight => self.insights,
            BulletType::Misstep => self.missteps,
        }
    }

    /// The contents recorded under one type, in insertion order.
    pub open spec fn contents_of(self, t: BulletType) -> Seq<Seq<char>> {
        self.bullets_of(t).map(|i: int, b: BulletModel| b.content)
    }

    /// `self` with one sequence replaced, chosen by type.
    pub open spec fn with_bullets(self, t: BulletType, bs: Seq<BulletModel>) -> EntryModel {
        match t {
            BulletType::Task => EntryModel { tasks: bs, ..self },
            BulletType::Event => EntryModel { events: bs, ..self },
            BulletType::Note => EntryModel { notes: bs, ..self },
            BulletType::Priority => EntryModel { priorities: bs, ..self },
            BulletType::Inspiration => EntryModel { inspirations: bs, ..self },
            BulletType::Insight => EntryModel { insights: bs, ..self },
            BulletType::Misstep => EntryModel { missteps: bs, ..self },
        }
    }

    /// `self` with one bullet appended to the sequence its type names.
    pub open spec fn push_bullet(self, b: BulletModel) -> EntryModel {
        self.with_bullets(b.bullet_type, self.bullets_of(b.bullet_type).push(b))
    }

    /// Number of bullets recorded under one type.
    pub open spec fn count_of(self, t: BulletType) -> nat {
        self.bullets_of(t).len()
    }

    /// Total number of bullets across all types.
    pub open spec fn total(self) -> int {
        self.tasks.len() + self.events.len() + self.notes.len() + self.priorities.len()
            + self.inspirations.len() + self.insights.len() + self.missteps.len() as int
    }

    /// An entry with no bullets is "empty".
    pub open spec fn is_empty(self) -> bool {
        self.total() == 0
    }
}

/// The complete set of bullets recorded for one calendar date.
#[derive(Debug)]
pub struct Entry {
    pub date: Date,
    pub tasks: Vec<Bullet>,
    pub events: Vec<Bullet>,
    pub notes: Vec<Bullet>,
    pub priorities: Vec<Bullet>,
    pub inspirations: Vec<Bullet>,
    pub insights: Vec<Bullet>,
    pub missteps: Vec<Bullet>,
}

impl View for Entry {
    type V = EntryModel;

    open spec fn view(&self) -> EntryModel {
        EntryModel {
            date: self.date,
            tasks: models_of(self.tasks@),
            events: models_of(self.events@),
            notes: models_of(self.notes@),
            priorities: models_of(self.priorities@),
            inspirations: models_of(self.inspirations@),
            insights: models_of(self.insights@),
            missteps: models_of(self.missteps@),
        }
    }
}

impl Entry {
    /// A new entry for `date` with no bullets.
    pub fn new(date: Date) -> (r: Entry)
        ensures
            r@ == EntryModel::empty(date),
    {
        let e = Entry {
            date,
            tasks: Vec::new(),
            events: Vec::new(),
            notes: Vec::new(),
            priorities: Vec::new(),
            inspirations: Vec::new(),
            insights: Vec::new(),
            missteps: Vec::new(),
        };
        proof {
            assert(e@ =~= EntryModel::empty(date));
        }
        e
    }

    /// Appends a bullet to the sequence its type names.
    pub fn add_bullet(&mut self, bullet: Bullet)
        ensures
            final(self)@ == old(self)@.push_bullet(bullet@),
    {
        let ghost p = self@.push_bullet(bullet@);
        match bullet.bullet_type {
            BulletType::Task => self.tasks.push(bullet),
            BulletType::Event => self.events.push(bullet),
            BulletType::Note => self.notes.push(bullet),
            BulletType::Priority => self.priorities.push(bullet),
            BulletType::Inspiration => self.inspirations.push(bullet),
            BulletType::Insight => self.insights.push(bullet),
            BulletType::Misstep => self.missteps.push(bullet),
        }
        proof {
            assert(self@ =~= p);
        }
    }

    /// The bullets recorded under one type, in insertion order.
    pub fn get_bullets(&self, bullet_type: &BulletType) -> (r: &Vec<Bullet>)
        ensures
            models_of(r@) == self@.bullets_of(*bullet_type),
    {
        match bullet_type {
            BulletType::Task => &self.tasks,
            BulletType::Event => &self.events,
            BulletType::Note => &self.notes,
            BulletType::Priority => &self.priorities,
            BulletType::Inspiration => &self.inspirations,
            BulletType::Insight => &self.insights,
            BulletType::Misstep => &self.missteps,
        }
    }

    /// Mutable access to the bullets recorded under one type; the entry
    /// afterwards holds whatever the caller leaves in the borrowed section.
    pub fn get_bullets_mut(&mut self, bullet_type: &BulletType) -> (r: &mut Vec<Bullet>)
        ensures
            models_of((*r)@) == old(self)@.bullets_of(*bullet_type),
            final(self)@ == old(self)@.with_bullets(*bullet_type, models_of((*final(r))@)),
    {
        match bullet_type {
            BulletType::Task => &mut self.tasks,
            BulletType::Event => &mut self.events,
            BulletType::Note => &mut self.notes,
            BulletType::Priority => &mut self.priorities,
            BulletType::Inspiration => &mut self.inspirations,
            BulletType::Insight => &mut self.insights,
            BulletType::Misstep => &mut self.missteps,
        }
    }

    /// All bullets of the entry, flattened in canonical type order.
    pub fn all_bullets(&self) -> (r: Vec<Bullet>)
        requires
            self@.total() <= usize::MAX,
        ensures
            models_of(r@) == self@.tasks + self@.events + self@.notes + self@.priorities
                + self@.inspirations + self@.insights + self@.missteps,
    {
        let mut r: Vec<Bullet> = Vec::new();
        append_clones(&mut r, &self.tasks);
        append_clones(&mut r, &self.events);
        append_clones(&mut r, &self.notes);
        append_clones(&mut r, &self.priorities);
        append_clones(&mut r, &self.inspirations);
        append_clones(&mut r, &self.insights);
        append_clones(&mut r, &self.missteps);
        proof {
            assert(models_of(r@) =~= self@.tasks + self@.events + self@.notes + self@.priorities
                + self@.inspirations + self@.insights + self@.missteps);
        }
        r
    }

    /// Whether the entry has no bullets at all.
    pub fn is_empty(&self) -> (r: bool)
        ensures
            r == self@.is_empty(),
    {
        self.tasks.len() == 0 && self.events.len() == 0 && self.notes.len() == 0
            && self.priorities.len() == 0 && self.inspirations.len() == 0 && self.insights.len()
            == 0 && self.missteps.len() == 0
    }

    /// Number of bullets recorded under one type.
    pub fn bullet_count(&self, bullet_type: &BulletType) -> (r: usize)
        ensures
            r == self@.count_of(*bullet_type),
    {
        self.get_bullets(bullet_type).len()
    }

    /// Total number of bullets across all types.
    pub fn total_bullets(&self) -> (r: usize)
        requires
            self@.total() <= usize::MAX,
        ensures
            r == self@.total(),
    {
        self.tasks.len() + self.events.len() + self.notes.len() + self.priorities.len()
            + self.inspirations.len() + self.insights.len() + self.missteps.len()
    }
}

impl Clone for Entry {
    /// Cloning preserves the entry's model exactly.
    fn clone(&self) -> (r: Entry)
        ensures
            r@ == self@,
    {
        let r = Entry {
            date: self.date,
            tasks: clone_bullets(&self.tasks),
            events: clone_bullets(&self.events),
            notes: clone_bullets(&self.notes),
            priorities: clone_bullets(&self.priorities),
            inspirations: clone_bullets(&self.inspirations),
            insights: clone_bullets(&self.insights),
            missteps: clone_bullets(&self.missteps),
        };
        proof {
            assert(r@ =~= self@);
        }
        r
    }
}

/// A copy of a bullet vector whose models match the original's.
pub fn clone_bullets(v: &Vec<Bullet>) -> (r: Vec<Bullet>)
    ensures
        models_of(r@) == models_of(v@),
{
    let mut r: Vec<Bullet> = Vec::new();
    let mut i: usize = 0;
    while i < v.len()
        invariant
            i <= v@.len(),
            r@.len() == i,
            forall|j: int| 0 <= j < i ==> (#[trigger] r@[j])@ == v@[j]@,
        decreases v@.len() - i,
    {
        r.push(v[i].clone());
        i = i + 1;
    }
    proof {
        assert(models_of(r@) =~= models_of(v@));
    }
    r
}

/// Appends clones of all of `src` to `dst`.
fn append_clones(dst: &mut Vec<Bullet>, src: &Vec<Bullet>)
    requires
        old(dst)@.len() + src@.len() <= usize::MAX,
    ensures
        final(dst)@.len() == old(dst)@.len() + src@.len(),
        models_of(final(dst)@) == models_of(old(dst)@) + models_of(src@),
{
    let mut i: usize = 0;
    while i < src.len()
        invariant
            i <= src@.len(),
            dst@.len() == old(dst)@.len() + i,
            forall|j: int| 0 <= j < old(dst)@.len() ==> (#[trigger] dst@[j])@ == old(dst)@[j]@,
            forall|j: int|
                0 <= j < i ==> (#[trigger] dst@[old(dst)@.len() + j])@ == src@[j]@,
        decreases src@.len() - i,
    {
        dst.push(src[i].clone());
        i = i + 1;
    }
    proof {
        let all = models_of(old(dst)@) + models_of(src@);
        assert forall|k: int| 0 <= k < dst@.len() implies #[trigger] models_of(dst@)[k]
            == all[k] by {
            if k < old(dst)@.len() {
                assert(dst@[k]@ == old(dst)@[k]@);
            } else {
                let j = k - old(dst)@.len();
                assert(dst@[old(dst)@.len() + j]@ == src@[j]@);
            }
        }
        assert(models_of(dst@) =~= all);
    }
}

} // verus!
