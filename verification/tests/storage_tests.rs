//! Tests of the storage backend: the test harness flow, upsert semantics,
//! range queries, search, counting and migrations.

use journalist::{
    Bullet, BulletType, Date, DateRange, Entry, JournalStorage, MemoryStorage, MigrationSource,
};
use journalist::migration::{discover_migrations, parse_version};
use journalist::rows::{entry_from_rows, rows_of_entry, BulletRow};
use journalist::storage::entry_rel_path;
use journalist::JournalError;

fn sample_date() -> Date {
    Date::from_ymd(2024, 3, 15).unwrap()
}

fn create_sample_entry(storage: &mut MemoryStorage, date: Date) -> Entry {
    let mut entry = Entry::new(date);
    entry.add_bullet(Bullet::new("Sample task", BulletType::Task));
    entry.add_bullet(Bullet::new("Sample event", BulletType::Event));
    entry.add_bullet(Bullet::new("Sample note", BulletType::Note));
    storage.save_entry(&entry).unwrap();
    entry
}

fn create_complex_entry(storage: &mut MemoryStorage, date: Date) -> Entry {
    let mut entry = Entry::new(date);
    entry.add_bullet(Bullet::new("Task 1", BulletType::Task));
    entry.add_bullet(Bullet::new("Task 2", BulletType::Task));
    entry.add_bullet(Bullet::new("Important meeting", BulletType::Event));
    entry.add_bullet(Bullet::new("Remember this", BulletType::Note));
    entry.add_bullet(Bullet::new("High priority item", BulletType::Priority));
    entry.add_bullet(Bullet::new("Great idea", BulletType::Inspiration));
    entry.add_bullet(Bullet::new("Learned something", BulletType::Insight));
    entry.add_bullet(Bullet::new("Made a mistake", BulletType::Misstep));
    storage.save_entry(&entry).unwrap();
    entry
}

#[test]
fn test_harness_basic_functionality() {
    let mut storage = MemoryStorage::new();
    let date = sample_date();

    assert!(storage.load_entry(date).unwrap().is_none());

    let entry = create_sample_entry(&mut storage, date);
    assert_eq!(entry.total_bullets(), 3);

    let loaded = storage.load_entry(date).unwrap().unwrap();
    assert_eq!(loaded.total_bullets(), 3);
}

#[test]
fn test_harness_with_function() {
    let mut storage = MemoryStorage::new();
    let date = sample_date();
    let complex_entry = create_complex_entry(&mut storage, date);
    assert_eq!(complex_entry.total_bullets(), 8);
}

#[test]
fn test_harness_isolation() {
    let mut storage1 = MemoryStorage::new();
    let storage2 = MemoryStorage::new();

    let date = sample_date();

    create_sample_entry(&mut storage1, date);

    assert!(storage2.load_entry(date).unwrap().is_none());
}

#[test]
fn test_upsert_supersedes() {
    let mut storage = MemoryStorage::new();
    let date = sample_date();

    let mut entry_a = Entry::new(date);
    entry_a.add_bullet(Bullet::new("Old task", BulletType::Task));
    entry_a.add_bullet(Bullet::new("Old note", BulletType::Note));
    storage.save_entry(&entry_a).unwrap();

    let mut entry_b = Entry::new(date);
    entry_b.add_bullet(Bullet::new("New event", BulletType::Event));
    storage.save_entry(&entry_b).unwrap();

    let loaded = storage.load_entry(date).unwrap().unwrap();
    assert_eq!(loaded.total_bullets(), 1);
    assert!(loaded.get_bullets(&BulletType::Task).is_empty());
    assert!(loaded.get_bullets(&BulletType::Note).is_empty());
    assert_eq!(loaded.get_bullets(&BulletType::Event)[0].content, "New event");
}

#[test]
fn test_saving_empty_entry_means_absent() {
    let mut storage = MemoryStorage::new();
    let date = sample_date();

    create_sample_entry(&mut storage, date);
    assert!(storage.load_entry(date).unwrap().is_some());

    let empty = Entry::new(date);
    storage.save_entry(&empty).unwrap();
    assert!(storage.load_entry(date).unwrap().is_none());
    assert_eq!(storage.count_entries().unwrap(), 0);
}

#[test]
fn test_delete_entry() {
    let mut storage = MemoryStorage::new();
    let date = sample_date();
    create_sample_entry(&mut storage, date);

    storage.delete_entry(date).unwrap();
    assert!(storage.load_entry(date).unwrap().is_none());

    // Deleting an absent date is not an error.
    storage.delete_entry(date).unwrap();
}

#[test]
fn test_count_entries() {
    let mut storage = MemoryStorage::new();
    assert_eq!(storage.count_entries().unwrap(), 0);

    create_sample_entry(&mut storage, Date::from_ymd(2024, 3, 15).unwrap());
    create_sample_entry(&mut storage, Date::from_ymd(2024, 3, 16).unwrap());
    // Saving the same date again must not create a second entry.
    create_sample_entry(&mut storage, Date::from_ymd(2024, 3, 15).unwrap());

    assert_eq!(storage.count_entries().unwrap(), 2);
}

#[test]
fn test_load_entries_and_list_dates_in_range() {
    let mut storage = MemoryStorage::new();
    let d1 = Date::from_ymd(2024, 3, 14).unwrap();
    let d2 = Date::from_ymd(2024, 3, 15).unwrap();
    let d3 = Date::from_ymd(2024, 4, 2).unwrap();
    // Save out of order; results must come back ascending.
    create_sample_entry(&mut storage, d3);
    create_sample_entry(&mut storage, d1);
    create_sample_entry(&mut storage, d2);

    let range = DateRange::month(2024, 3);
    let dates = JournalStorage::list_dates(&storage, range).unwrap();
    assert_eq!(dates, vec![d1, d2]);

    let entries = storage.load_entries(range).unwrap();
    assert_eq!(entries.len(), 2);
    assert_eq!(entries[0].date, d1);
    assert_eq!(entries[1].date, d2);
}

#[test]
fn test_search_entries_most_recent_first() {
    let mut storage = MemoryStorage::new();
    let d1 = Date::from_ymd(2024, 3, 10).unwrap();
    let d2 = Date::from_ymd(2024, 3, 20).unwrap();
    let d3 = Date::from_ymd(2024, 3, 30).unwrap();

    let mut e1 = Entry::new(d1);
    e1.add_bullet(Bullet::new("quarterly report draft", BulletType::Task));
    storage.save_entry(&e1).unwrap();

    let mut e2 = Entry::new(d2);
    e2.add_bullet(Bullet::new("lunch with a friend", BulletType::Event));
    storage.save_entry(&e2).unwrap();

    let mut e3 = Entry::new(d3);
    e3.add_bullet(Bullet::new("report submitted", BulletType::Note));
    storage.save_entry(&e3).unwrap();

    let hits = storage.search_entries("report").unwrap();
    assert_eq!(hits.len(), 2);
    assert_eq!(hits[0].date, d3);
    assert_eq!(hits[1].date, d1);

    let none = storage.search_entries("vacation").unwrap();
    assert!(none.is_empty());
}

#[test]
fn test_find_entries_with_types() {
    let mut storage = MemoryStorage::new();
    let d1 = Date::from_ymd(2024, 3, 1).unwrap();
    let d2 = Date::from_ymd(2024, 3, 2).unwrap();

    let mut e1 = Entry::new(d1);
    e1.add_bullet(Bullet::new("only a task", BulletType::Task));
    storage.save_entry(&e1).unwrap();

    let mut e2 = Entry::new(d2);
    e2.add_bullet(Bullet::new("only an event", BulletType::Event));
    e2.add_bullet(Bullet::new("and a priority", BulletType::Priority));
    storage.save_entry(&e2).unwrap();

    let range = DateRange::month(2024, 3);
    let with_tasks = storage.find_entries_with_tasks(range).unwrap();
    assert_eq!(with_tasks.len(), 1);
    assert_eq!(with_tasks[0].date, d1);

    let with_events = storage.find_entries_with_events(range).unwrap();
    assert_eq!(with_events.len(), 1);
    assert_eq!(with_events[0].date, d2);

    let with_priorities = storage.find_entries_with_priorities(range).unwrap();
    assert_eq!(with_priorities.len(), 1);
    assert_eq!(with_priorities[0].date, d2);
}

#[test]
fn test_migration_idempotence() {
    let files = vec![
        MigrationSource { name: "0002_add_index".to_string(), body: "second".to_string() },
        MigrationSource { name: "0001_initial".to_string(), body: "first".to_string() },
        MigrationSource { name: "notes".to_string(), body: "malformed".to_string() },
    ];
    let units = discover_migrations(&files);
    assert_eq!(units.len(), 2);
    assert_eq!(units[0].version, 1);
    assert_eq!(units[1].version, 2);

    let mut storage = MemoryStorage::with_migrations(units);
    storage.initialize().unwrap();
    let mut first = storage.applied_versions();
    first.sort();
    assert_eq!(first, vec![1, 2]);

    storage.initialize().unwrap();
    let mut second = storage.applied_versions();
    second.sort();
    // The applied set is identical after both runs: each migration was
    // applied exactly once.
    assert_eq!(second, vec![1, 2]);
}

#[test]
fn test_parse_version() {
    assert_eq!(parse_version("0001_initial"), Some(1));
    assert_eq!(parse_version("0002_add_index"), Some(2));
    assert_eq!(parse_version("12"), Some(12));
    assert_eq!(parse_version("0000000001_padded"), Some(1));
    assert_eq!(parse_version("notes"), None);
    assert_eq!(parse_version("_leading"), None);
    assert_eq!(parse_version(""), None);
    assert_eq!(parse_version("12a_mixed"), None);
    assert_eq!(parse_version("4294967295_max"), Some(4294967295));
    assert_eq!(parse_version("4294967296_overflow"), None);
    assert_eq!(parse_version("99999999999999_overflow"), None);
}

#[test]
fn test_discover_migrations_sorted() {
    let files = vec![
        MigrationSource { name: "0010_later".to_string(), body: "c".to_string() },
        MigrationSource { name: "0002_second".to_string(), body: "b".to_string() },
        MigrationSource { name: "broken".to_string(), body: "x".to_string() },
        MigrationSource { name: "0001_first".to_string(), body: "a".to_string() },
    ];
    let units = discover_migrations(&files);
    assert_eq!(units.len(), 3);
    assert_eq!(units[0].version, 1);
    assert_eq!(units[0].name, "0001_first");
    assert_eq!(units[1].version, 2);
    assert_eq!(units[2].version, 10);
    assert_eq!(units[2].body, "c");
}

#[test]
fn test_backend_info_and_maintenance() {
    let storage = MemoryStorage::new();
    assert!(!storage.backend_info().is_empty());
    storage.maintenance().unwrap();
}

#[test]
fn test_entry_rel_path() {
    let date = sample_date();
    assert_eq!(entry_rel_path(date), "2024/03/15/entry.md");
    let early = Date::from_ymd(7, 1, 9).unwrap();
    assert_eq!(entry_rel_path(early), "0007/01/09/entry.md");
}

#[test]
fn test_journal_error_message() {
    let e = JournalError::Storage { message: "disk unplugged".to_string() };
    assert_eq!(e.message(), "disk unplugged");
    let m = JournalError::Migration { version: 3, message: "bad statement".to_string() };
    assert_eq!(m.message(), "bad statement");
}

#[test]
fn test_rows_round_trip() {
    let date = sample_date();
    let mut entry = Entry::new(date);
    entry.add_bullet(Bullet::new("Task 1", BulletType::Task));
    entry.add_bullet(Bullet::new("Task 2", BulletType::Task).complete());
    entry.add_bullet(Bullet::new("An event", BulletType::Event));
    entry.add_bullet(Bullet::new("A priority", BulletType::Priority));

    let rows = rows_of_entry(&entry);
    assert_eq!(rows.len(), 4);
    assert_eq!(rows[0].kind, "task");
    assert_eq!(rows[0].task_state.as_deref(), Some("pending"));
    assert_eq!(rows[1].task_state.as_deref(), Some("completed"));
    assert_eq!(rows[2].kind, "event");
    assert_eq!(rows[2].task_state, None);
    assert_eq!(rows[3].kind, "priority");

    let rebuilt = entry_from_rows(date, &rows).unwrap();
    assert_eq!(rebuilt.total_bullets(), 4);
    let tasks = rebuilt.get_bullets(&BulletType::Task);
    assert_eq!(tasks[0].content, "Task 1");
    assert_eq!(tasks[1].content, "Task 2");
    assert_eq!(tasks[1].task_state, Some(journalist::TaskState::Completed));
    assert_eq!(rebuilt.get_bullets(&BulletType::Event)[0].content, "An event");
    assert_eq!(rebuilt.get_bullets(&BulletType::Priority)[0].content, "A priority");
}

#[test]
fn test_rows_with_unknown_kind_skipped() {
    let date = sample_date();
    let rows = vec![
        BulletRow {
            date,
            content: "kept".to_string(),
            kind: "note".to_string(),
            task_state: None,
        },
        BulletRow {
            date,
            content: "dropped".to_string(),
            kind: "reminder".to_string(),
            task_state: None,
        },
    ];
    // Presence even though one row is unreadable.
    let rebuilt = entry_from_rows(date, &rows).unwrap();
    assert_eq!(rebuilt.total_bullets(), 1);
    assert_eq!(rebuilt.get_bullets(&BulletType::Note)[0].content, "kept");

    // No rows at all means absence.
    assert!(entry_from_rows(date, &Vec::new()).is_none());
}

#[test]
fn test_discover_migrations_strips_script_suffix() {
    let files = vec![
        MigrationSource { name: "0001_initial.sql".to_string(), body: "a".to_string() },
        MigrationSource { name: "0002_add_index.sql".to_string(), body: "b".to_string() },
        MigrationSource { name: "0003.sql".to_string(), body: "no underscore".to_string() },
    ];
    let units = discover_migrations(&files);
    // "0003.sql" has no underscore, so its leading segment is not numeric.
    assert_eq!(units.len(), 2);
    assert_eq!(units[0].version, 1);
    assert_eq!(units[0].name, "0001_initial");
    assert_eq!(units[1].version, 2);
    assert_eq!(units[1].name, "0002_add_index");
}
