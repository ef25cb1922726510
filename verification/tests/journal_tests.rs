//! Tests of the editor workflow, the journal cache, the write-hook pipeline
//! and the calendar model.

use std::cell::RefCell;
use std::rc::Rc;

use journalist::{
    Bullet, BulletType, Date, DateRange, Entry, HookRegistry, Journal, JournalError,
    JournalStorage, MarkdownParser, MemoryStorage, SyncHook, WriteContext, WriteHook,
};

fn sample_date() -> Date {
    Date::from_ymd(2024, 3, 15).unwrap()
}

fn create_sample_entry(storage: &mut MemoryStorage, date: Date) -> Entry {
    let mut entry = Entry::new(date);
    entry.add_bullet(Bullet::new("Sample task", BulletType::Task));
    entry.add_bullet(Bullet::new("Sample event", BulletType::Event));
    entry.add_bullet(Bullet::new("Sample note", BulletType::Note));
    storage.save_entry(&entry).unwrap();
    entry
}

fn create_complex_entry(storage: &mut MemoryStorage, date: Date) -> Entry {
    let mut entry = Entry::new(date);
    entry.add_bullet(Bullet::new("Task 1", BulletType::Task));
    entry.add_bullet(Bullet::new("Task 2", BulletType::Task));
    entry.add_bullet(Bullet::new("Important meeting", BulletType::Event));
    entry.add_bullet(Bullet::new("Remember this", BulletType::Note));
    entry.add_bullet(Bullet::new("High priority item", BulletType::Priority));
    entry.add_bullet(Bullet::new("Great idea", BulletType::Inspiration));
    entry.add_bullet(Bullet::new("Learned something", BulletType::Insight));
    entry.add_bullet(Bullet::new("Made a mistake", BulletType::Misstep));
    storage.save_entry(&entry).unwrap();
    entry
}

#[test]
fn test_editor_workflow_new_entry() {
    let mut storage = MemoryStorage::new();
    let parser = MarkdownParser::new();
    let date = sample_date();

    let existing_entry = storage.load_entry(date).unwrap();
    assert!(existing_entry.is_none());

    let template_content = MarkdownParser::empty_template();

    assert!(template_content.contains("# Tasks"));
    assert!(template_content.contains("# Events"));
    assert!(template_content.contains("# Notes"));
    assert!(template_content.contains("# Priority"));
    assert!(template_content.contains("# Inspiration"));
    assert!(template_content.contains("# Insights"));
    assert!(template_content.contains("# Missteps"));

    let edited_content = "# Tasks\nComplete unit tests\nAdd documentation\n\n# Events\nTeam standup at 9am\n\n# Notes\nLearned about temp files\n";

    let updated_entry = parser.parse(date, edited_content).unwrap();

    storage.save_entry(&updated_entry).unwrap();

    let saved_entry = storage.load_entry(date).unwrap().unwrap();
    assert_eq!(saved_entry.date, date);
    assert_eq!(saved_entry.total_bullets(), 4);

    let tasks = saved_entry.get_bullets(&BulletType::Task);
    assert_eq!(tasks.len(), 2);
    assert_eq!(tasks[0].content, "Complete unit tests");
    assert_eq!(tasks[1].content, "Add documentation");

    let events = saved_entry.get_bullets(&BulletType::Event);
    assert_eq!(events.len(), 1);
    assert_eq!(events[0].content, "Team standup at 9am");
}

#[test]
fn test_editor_workflow_existing_entry() {
    let mut storage = MemoryStorage::new();
    let parser = MarkdownParser::new();
    let date = sample_date();

    let _initial_entry = create_sample_entry(&mut storage, date);

    let existing_entry = storage.load_entry(date).unwrap().unwrap();
    assert_eq!(existing_entry.total_bullets(), 3);

    let temp_file_content = parser.serialize_for_editing(&existing_entry).unwrap();

    assert!(temp_file_content.contains("# Tasks"));
    assert!(temp_file_content.contains("# Events"));
    assert!(temp_file_content.contains("# Notes"));
    assert!(temp_file_content.contains("# Priority"));
    assert!(temp_file_content.contains("# Inspiration"));
    assert!(temp_file_content.contains("# Insights"));
    assert!(temp_file_content.contains("# Missteps"));

    assert!(temp_file_content.contains("Sample task"));
    assert!(temp_file_content.contains("Sample event"));
    assert!(temp_file_content.contains("Sample note"));

    let edited_content = "# Tasks\nSample task\nNew task added\n\n# Events\nSample event\n\n# Notes\nSample note\nAdded some notes\n";

    let updated_entry = parser.parse(date, edited_content).unwrap();

    storage.save_entry(&updated_entry).unwrap();

    let final_entry = storage.load_entry(date).unwrap().unwrap();
    assert_eq!(final_entry.total_bullets(), 5);

    let tasks = final_entry.get_bullets(&BulletType::Task);
    assert_eq!(tasks.len(), 2);
    assert_eq!(tasks[0].content, "Sample task");
    assert_eq!(tasks[1].content, "New task added");

    let notes = final_entry.get_bullets(&BulletType::Note);
    assert_eq!(notes.len(), 2);
    assert_eq!(notes[0].content, "Sample note");
    assert_eq!(notes[1].content, "Added some notes");
}

#[test]
fn test_editor_workflow_round_trip_preservation() {
    let mut storage = MemoryStorage::new();
    let parser = MarkdownParser::new();
    let date = sample_date();

    let complex_entry = create_complex_entry(&mut storage, date);

    let loaded_entry = storage.load_entry(date).unwrap().unwrap();

    let temp_content = parser.serialize(&loaded_entry).unwrap();

    let reparsed_entry = parser.parse(date, &temp_content).unwrap();

    storage.save_entry(&reparsed_entry).unwrap();

    let final_entry = storage.load_entry(date).unwrap().unwrap();

    assert_eq!(final_entry.total_bullets(), complex_entry.total_bullets());

    for bullet_type in [
        BulletType::Task,
        BulletType::Event,
        BulletType::Note,
        BulletType::Priority,
        BulletType::Inspiration,
        BulletType::Insight,
        BulletType::Misstep,
    ] {
        let original_bullets = complex_entry.get_bullets(&bullet_type);
        let final_bullets = final_entry.get_bullets(&bullet_type);

        assert_eq!(
            original_bullets.len(),
            final_bullets.len(),
            "Bullet count mismatch for {:?}",
            bullet_type
        );

        for (orig, final_bullet) in original_bullets.iter().zip(final_bullets.iter()) {
            assert_eq!(
                orig.content, final_bullet.content,
                "Content mismatch for {:?}",
                bullet_type
            );
        }
    }
}

#[test]
fn test_empty_template_structure() {
    let template = MarkdownParser::empty_template();

    let parser = MarkdownParser::new();
    let date = sample_date();

    let entry = parser.parse(date, &template).unwrap();
    assert_eq!(entry.total_bullets(), 0);

    let serialized = parser.serialize(&entry).unwrap();
    assert_eq!(serialized, "");

    assert_ne!(template, serialized);
}

#[test]
fn test_cache_lazy_materialization() {
    let storage = MemoryStorage::new();
    let mut journal = Journal::new(storage);
    let date = sample_date();

    // No prior backend data: a usable, zero-bullet entry appears.
    let fresh = journal.get_entry_mut(date).unwrap();
    assert_eq!(fresh.total_bullets(), 0);
    assert_eq!(fresh.date, date);

    // A subsequent read is served from the cache, still zero bullets,
    // although nothing was persisted.
    let cached = journal.get_entry(date).unwrap().unwrap();
    assert_eq!(cached.total_bullets(), 0);
    assert_eq!(cached.date, date);
}

#[test]
fn test_journal_read_through_and_save() {
    let mut storage = MemoryStorage::new();
    let date = sample_date();
    create_sample_entry(&mut storage, date);

    let mut journal = Journal::new(storage);

    // Read-through finds the durable entry.
    let loaded = journal.get_entry(date).unwrap().unwrap();
    assert_eq!(loaded.total_bullets(), 3);

    // An absent date stays absent and is not cached.
    let other = Date::from_ymd(2024, 3, 16).unwrap();
    assert!(journal.get_entry(other).unwrap().is_none());

    // Replace the cached entry and save it through.
    let mut edited = journal.get_entry_mut(date).unwrap();
    edited.add_bullet(Bullet::new("Added afterwards", BulletType::Task));
    journal.insert_entry(edited);
    journal.save_entry(date).unwrap();

    let range = DateRange::day(date);
    let dates = journal.list_dates_in_range(range).unwrap();
    assert_eq!(dates, vec![date]);

    let entries = journal.get_entries_in_range(DateRange::month(2024, 3)).unwrap();
    assert_eq!(entries.len(), 1);
    assert_eq!(entries[0].get_bullets(&BulletType::Task).len(), 2);
}

#[test]
fn test_journal_save_unloaded_date_is_noop() {
    let storage = MemoryStorage::new();
    let mut journal = Journal::new(storage);
    let date = sample_date();

    journal.save_entry(date).unwrap();
    assert!(journal.get_entry(date).unwrap().is_none());
}

struct FailingHook;

impl WriteHook for FailingHook {
    fn on_entry_written(&mut self, _context: &WriteContext, _entry: &Entry) -> Result<(), JournalError> {
        Err(JournalError::Storage { message: "hook always fails".to_string() })
    }

    fn name(&self) -> String {
        "always failing".to_string()
    }

    fn enabled_by_default(&self) -> bool {
        true
    }
}

struct CountingHook {
    hits: Rc<RefCell<u32>>,
}

impl WriteHook for CountingHook {
    fn on_entry_written(&mut self, _context: &WriteContext, _entry: &Entry) -> Result<(), JournalError> {
        *self.hits.borrow_mut() += 1;
        Ok(())
    }

    fn name(&self) -> String {
        "counting".to_string()
    }

    fn enabled_by_default(&self) -> bool {
        true
    }
}

enum TestHook {
    Failing(FailingHook),
    Counting(CountingHook),
}

impl WriteHook for TestHook {
    fn on_entry_written(&mut self, context: &WriteContext, entry: &Entry) -> Result<(), JournalError> {
        match self {
            TestHook::Failing(h) => h.on_entry_written(context, entry),
            TestHook::Counting(h) => h.on_entry_written(context, entry),
        }
    }

    fn name(&self) -> String {
        match self {
            TestHook::Failing(h) => h.name(),
            TestHook::Counting(h) => h.name(),
        }
    }

    fn enabled_by_default(&self) -> bool {
        true
    }
}

#[test]
fn test_hook_isolation() {
    let date = sample_date();
    let mut entry = Entry::new(date);
    entry.add_bullet(Bullet::new("Write more tests", BulletType::Task));

    let hits = Rc::new(RefCell::new(0u32));

    let mut registry: HookRegistry<TestHook> = HookRegistry::new();
    registry.register(TestHook::Failing(FailingHook));
    registry.register(TestHook::Counting(CountingHook { hits: Rc::clone(&hits) }));

    let context = WriteContext {
        date,
        entry_path: "2024/03/15/entry.md".to_string(),
        journal_dir: "journal".to_string(),
        content: "# Tasks\nWrite more tests\n\n".to_string(),
    };

    // The pipeline itself cannot fail: the write stays successful.
    let reports = registry.execute_write_hooks(&context, &entry);

    assert_eq!(reports.len(), 2);
    assert_eq!(reports[0].name, "always failing");
    assert!(reports[0].error.is_some());
    assert_eq!(reports[1].name, "counting");
    assert!(reports[1].error.is_none());

    // The succeeding hook's side effect happened despite the failure before it.
    assert_eq!(*hits.borrow(), 1);

    assert_eq!(registry.list_hooks(), vec!["always failing".to_string(), "counting".to_string()]);
}

#[test]
fn test_sync_hook_mirrors_entry() {
    let date = sample_date();
    let mut entry = Entry::new(date);
    entry.add_bullet(Bullet::new("Mirrored task", BulletType::Task));

    let mut hook = SyncHook { storage: MemoryStorage::new() };
    let context = WriteContext {
        date,
        entry_path: "2024/03/15/entry.md".to_string(),
        journal_dir: "journal".to_string(),
        content: "# Tasks\nMirrored task\n\n".to_string(),
    };
    hook.on_entry_written(&context, &entry).unwrap();

    let mirrored = hook.storage.load_entry(date).unwrap().unwrap();
    assert_eq!(mirrored.total_bullets(), 1);
    assert_eq!(mirrored.get_bullets(&BulletType::Task)[0].content, "Mirrored task");

    // An entry whose date is no real calendar day is refused.
    let bad = Entry::new(Date { year: 2024, month: 13, day: 1 });
    assert!(hook.on_entry_written(&context, &bad).is_err());
}

#[test]
fn test_end_to_end_scenario() {
    let mut storage = MemoryStorage::new();
    let date = sample_date();

    let mut entry = Entry::new(date);
    entry.add_bullet(Bullet::new("Complete unit tests", BulletType::Task));
    entry.add_bullet(Bullet::new("Add documentation", BulletType::Task));
    entry.add_bullet(Bullet::new("Team standup at 9am", BulletType::Event));
    storage.save_entry(&entry).unwrap();

    let loaded = storage.load_entry(date).unwrap().unwrap();
    assert_eq!(loaded.total_bullets(), 3);

    let tasks = loaded.get_bullets(&BulletType::Task);
    assert_eq!(tasks.len(), 2);
    assert_eq!(tasks[0].content, "Complete unit tests");
    assert_eq!(tasks[1].content, "Add documentation");

    assert_eq!(loaded.get_bullets(&BulletType::Event)[0].content, "Team standup at 9am");
}

#[test]
fn test_date_validity_and_arithmetic() {
    assert!(Date::from_ymd(2024, 2, 29).is_some());
    assert!(Date::from_ymd(2023, 2, 29).is_none());
    assert!(Date::from_ymd(1900, 2, 29).is_none());
    assert!(Date::from_ymd(2000, 2, 29).is_some());
    assert!(Date::from_ymd(2024, 13, 1).is_none());
    assert!(Date::from_ymd(2024, 4, 31).is_none());
    assert!(Date::from_ymd(0, 1, 1).is_none());
    assert!(Date::from_ymd(10000, 1, 1).is_none());

    let end_of_feb = Date::from_ymd(2024, 2, 29).unwrap();
    assert_eq!(end_of_feb.next_day(), Date::from_ymd(2024, 3, 1).unwrap());
    let end_of_year = Date::from_ymd(2023, 12, 31).unwrap();
    assert_eq!(end_of_year.next_day(), Date::from_ymd(2024, 1, 1).unwrap());

    assert_eq!(sample_date().to_iso_string(), "2024-03-15");
    assert_eq!(Date::from_ymd(33, 1, 2).unwrap().to_iso_string(), "0033-01-02");
}

#[test]
fn test_date_ranges() {
    let date = sample_date();
    let day = DateRange::day(date);
    assert_eq!(day.start(), date);
    assert_eq!(day.end(), date);
    assert!(day.contains(date));

    let week = DateRange::week(Date::from_ymd(2024, 2, 26).unwrap());
    assert_eq!(week.end(), Date::from_ymd(2024, 3, 3).unwrap());
    assert_eq!(week.days().len(), 7);

    let month = DateRange::month(2024, 2);
    assert_eq!(month.start(), Date::from_ymd(2024, 2, 1).unwrap());
    assert_eq!(month.end(), Date::from_ymd(2024, 2, 29).unwrap());
    assert_eq!(month.days().len(), 29);
    assert!(month.contains(Date::from_ymd(2024, 2, 15).unwrap()));
    assert!(!month.contains(date));
}
