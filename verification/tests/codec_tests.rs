//! Tests of the text codec: the template, both serialized forms, parsing,
//! and the round-trip behaviour.

use journalist::{Bullet, BulletType, Date, Entry, Event, MarkdownParser, Note, Task, TaskState};

fn sample_date() -> Date {
    Date::from_ymd(2024, 3, 15).unwrap()
}

#[test]
fn test_empty_template_generation() {
    let template = MarkdownParser::empty_template();

    let expected = "# Tasks\n\n# Events\n\n# Notes\n\n# Priority\n\n# Inspiration\n\n# Insights\n\n# Missteps\n\n";
    assert_eq!(template, expected);

    assert!(template.contains("# Tasks"));
    assert!(template.contains("# Events"));
    assert!(template.contains("# Notes"));
    assert!(template.contains("# Priority"));
    assert!(template.contains("# Inspiration"));
    assert!(template.contains("# Insights"));
    assert!(template.contains("# Missteps"));
}

#[test]
fn test_serialize_empty_entry() {
    let parser = MarkdownParser::new();
    let date = sample_date();
    let entry = Entry::new(date);

    let result = parser.serialize(&entry).unwrap();

    assert_eq!(result, "");
}

#[test]
fn test_serialize_entry_with_bullets() {
    let parser = MarkdownParser::new();
    let date = sample_date();
    let mut entry = Entry::new(date);

    entry.add_bullet(Bullet::new("Complete project proposal", BulletType::Task));
    entry.add_bullet(Bullet::new("Team meeting at 2pm", BulletType::Event));
    entry.add_bullet(Bullet::new("New framework announced", BulletType::Note));
    entry.add_bullet(Bullet::new("Submit quarterly report", BulletType::Priority));

    let result = parser.serialize(&entry).unwrap();

    let expected = "# Tasks\nComplete project proposal\n\n# Events\nTeam meeting at 2pm\n\n# Notes\nNew framework announced\n\n# Priority\nSubmit quarterly report\n\n";
    assert_eq!(result, expected);
}

#[test]
fn test_parse_template_creates_empty_entry() {
    let parser = MarkdownParser::new();
    let date = sample_date();
    let template = MarkdownParser::empty_template();

    let entry = parser.parse(date, &template).unwrap();

    assert_eq!(entry.date, date);
    assert_eq!(entry.total_bullets(), 0);

    assert!(entry.get_bullets(&BulletType::Task).is_empty());
    assert!(entry.get_bullets(&BulletType::Event).is_empty());
    assert!(entry.get_bullets(&BulletType::Note).is_empty());
    assert!(entry.get_bullets(&BulletType::Priority).is_empty());
    assert!(entry.get_bullets(&BulletType::Inspiration).is_empty());
    assert!(entry.get_bullets(&BulletType::Insight).is_empty());
    assert!(entry.get_bullets(&BulletType::Misstep).is_empty());
}

#[test]
fn test_parse_entry_with_content() {
    let parser = MarkdownParser::new();
    let date = sample_date();

    let content = "# Tasks\nComplete project proposal\nReview code changes\n\n# Events\nTeam meeting at 2pm\n\n# Notes\nNew framework announced\n";

    let entry = parser.parse(date, content).unwrap();

    assert_eq!(entry.date, date);
    assert_eq!(entry.total_bullets(), 4);

    let tasks = entry.get_bullets(&BulletType::Task);
    assert_eq!(tasks.len(), 2);
    assert_eq!(tasks[0].content, "Complete project proposal");
    assert_eq!(tasks[1].content, "Review code changes");

    let events = entry.get_bullets(&BulletType::Event);
    assert_eq!(events.len(), 1);
    assert_eq!(events[0].content, "Team meeting at 2pm");

    let notes = entry.get_bullets(&BulletType::Note);
    assert_eq!(notes.len(), 1);
    assert_eq!(notes[0].content, "New framework announced");
}

#[test]
fn test_round_trip_consistency() {
    let parser = MarkdownParser::new();
    let date = sample_date();
    let mut original_entry = Entry::new(date);

    original_entry.add_bullet(Bullet::new("Task 1", BulletType::Task));
    original_entry.add_bullet(Bullet::new("Task 2", BulletType::Task));
    original_entry.add_bullet(Bullet::new("Event 1", BulletType::Event));
    original_entry.add_bullet(Bullet::new("Note 1", BulletType::Note));
    original_entry.add_bullet(Bullet::new("Priority item", BulletType::Priority));
    original_entry.add_bullet(Bullet::new("Great idea", BulletType::Inspiration));
    original_entry.add_bullet(Bullet::new("Learned something", BulletType::Insight));
    original_entry.add_bullet(Bullet::new("Made a mistake", BulletType::Misstep));

    let markdown = parser.serialize(&original_entry).unwrap();

    let parsed_entry = parser.parse(date, &markdown).unwrap();

    assert_eq!(original_entry.date, parsed_entry.date);
    assert_eq!(original_entry.total_bullets(), parsed_entry.total_bullets());

    for bullet_type in [
        BulletType::Task,
        BulletType::Event,
        BulletType::Note,
        BulletType::Priority,
        BulletType::Inspiration,
        BulletType::Insight,
        BulletType::Misstep,
    ] {
        let original_bullets = original_entry.get_bullets(&bullet_type);
        let parsed_bullets = parsed_entry.get_bullets(&bullet_type);

        assert_eq!(
            original_bullets.len(),
            parsed_bullets.len(),
            "Bullet count mismatch for {:?}",
            bullet_type
        );

        for (orig, parsed) in original_bullets.iter().zip(parsed_bullets.iter()) {
            assert_eq!(
                orig.content, parsed.content,
                "Content mismatch for {:?}",
                bullet_type
            );
            assert_eq!(
                orig.bullet_type, parsed.bullet_type,
                "Type mismatch for {:?}",
                bullet_type
            );
        }
    }
}

#[test]
fn test_section_order_preservation() {
    let parser = MarkdownParser::new();
    let date = sample_date();
    let mut entry = Entry::new(date);

    entry.add_bullet(Bullet::new("Insight first", BulletType::Insight));
    entry.add_bullet(Bullet::new("Task second", BulletType::Task));
    entry.add_bullet(Bullet::new("Event third", BulletType::Event));

    let markdown = parser.serialize(&entry).unwrap();

    let lines: Vec<&str> = markdown.lines().collect();
    let task_line = lines.iter().position(|&line| line == "# Tasks").unwrap();
    let event_line = lines.iter().position(|&line| line == "# Events").unwrap();
    let insight_line = lines.iter().position(|&line| line == "# Insights").unwrap();

    assert!(task_line < event_line);
    assert!(event_line < insight_line);
}

#[test]
fn test_serialize_for_editing_shows_all_headers() {
    let parser = MarkdownParser::new();
    let date = sample_date();
    let mut entry = Entry::new(date);

    entry.add_bullet(Bullet::new("Only task", BulletType::Task));
    entry.add_bullet(Bullet::new("Only note", BulletType::Note));

    let result = parser.serialize_for_editing(&entry).unwrap();

    assert!(result.contains("# Tasks"));
    assert!(result.contains("# Events"));
    assert!(result.contains("# Notes"));
    assert!(result.contains("# Priority"));
    assert!(result.contains("# Inspiration"));
    assert!(result.contains("# Insights"));
    assert!(result.contains("# Missteps"));

    assert!(result.contains("Only task"));
    assert!(result.contains("Only note"));
}

#[test]
fn test_whitespace_handling() {
    let parser = MarkdownParser::new();
    let date = sample_date();

    let content_with_whitespace =
        "  # Tasks  \n  Complete task  \n\n  # Events  \n  Meeting today  \n\n\n";

    let entry = parser.parse(date, content_with_whitespace).unwrap();

    let tasks = entry.get_bullets(&BulletType::Task);
    assert_eq!(tasks.len(), 1);
    assert_eq!(tasks[0].content, "Complete task");

    let events = entry.get_bullets(&BulletType::Event);
    assert_eq!(events.len(), 1);
    assert_eq!(events[0].content, "Meeting today");
}

#[test]
fn test_case_insensitive_headers() {
    let parser = MarkdownParser::new();
    let date = sample_date();

    let content = "# TASKS\nUppercase header\n# events\nLowercase header\n# Notes\nMixed case\n";

    let entry = parser.parse(date, content).unwrap();

    assert_eq!(entry.get_bullets(&BulletType::Task).len(), 1);
    assert_eq!(entry.get_bullets(&BulletType::Event).len(), 1);
    assert_eq!(entry.get_bullets(&BulletType::Note).len(), 1);
}

#[test]
fn test_template_asymmetry() {
    let parser = MarkdownParser::new();
    let date = sample_date();
    let template = MarkdownParser::empty_template();

    let entry = parser.parse(date, &template).unwrap();
    assert_eq!(entry.total_bullets(), 0);

    let serialized = parser.serialize(&entry).unwrap();
    assert_eq!(serialized, "");
    assert_ne!(template, serialized);
}

#[test]
fn test_unknown_header_drops_following_lines() {
    let parser = MarkdownParser::new();
    let date = sample_date();

    let content = "# Tasks\nKept task\n# Bogus\nDropped line\n# Events\nKept event\n";
    let entry = parser.parse(date, content).unwrap();

    assert_eq!(entry.total_bullets(), 2);
    assert_eq!(entry.get_bullets(&BulletType::Task)[0].content, "Kept task");
    assert_eq!(entry.get_bullets(&BulletType::Event)[0].content, "Kept event");
}

#[test]
fn test_lines_before_any_header_dropped() {
    let parser = MarkdownParser::new();
    let date = sample_date();

    let content = "stray line\nanother stray\n# Tasks\nReal task\n";
    let entry = parser.parse(date, content).unwrap();

    assert_eq!(entry.total_bullets(), 1);
    assert_eq!(entry.get_bullets(&BulletType::Task)[0].content, "Real task");
}

#[test]
fn test_parse_empty_text() {
    let parser = MarkdownParser::new();
    let date = sample_date();

    let entry = parser.parse(date, "").unwrap();
    assert_eq!(entry.total_bullets(), 0);
    assert!(entry.is_empty());
}

#[test]
fn test_new_task_and_priority_start_pending() {
    let t = Bullet::new("a task", BulletType::Task);
    assert_eq!(t.task_state, Some(TaskState::Pending));
    let p = Bullet::new("a priority", BulletType::Priority);
    assert_eq!(p.task_state, Some(TaskState::Pending));
    let n = Bullet::new("a note", BulletType::Note);
    assert_eq!(n.task_state, None);

    let done = t.complete();
    assert_eq!(done.task_state, Some(TaskState::Completed));
    let moved = done.migrate();
    assert_eq!(moved.task_state, Some(TaskState::Migrated));
    let later = moved.schedule();
    assert_eq!(later.task_state, Some(TaskState::Scheduled));

    let still_note = n.complete();
    assert_eq!(still_note.task_state, None);
}

#[test]
fn test_typed_bullets() {
    let t = Task::new("write tests");
    assert_eq!(t.content.as_str(), "write tests");
    assert_eq!(t.state, TaskState::Pending);
    let t = t.complete();
    assert_eq!(t.state, TaskState::Completed);
    let t = Task::with_state("deferred", TaskState::Scheduled);
    assert_eq!(t.state, TaskState::Scheduled);
    let t = t.migrate();
    assert_eq!(t.state, TaskState::Migrated);
    let t = t.schedule();
    assert_eq!(t.state, TaskState::Scheduled);

    let e = Event::new("standup");
    assert_eq!(e.content.as_str(), "standup");
    let n = Note::new("remember");
    assert_eq!(n.content.as_str(), "remember");
}

#[test]
fn test_get_bullets_mut() {
    let date = sample_date();
    let mut entry = Entry::new(date);
    entry.add_bullet(Bullet::new("First", BulletType::Task));

    let tasks = entry.get_bullets_mut(&BulletType::Task);
    assert_eq!(tasks.len(), 1);
    tasks.push(Bullet::new("Second", BulletType::Task));

    assert_eq!(entry.total_bullets(), 2);
    assert_eq!(entry.get_bullets(&BulletType::Task)[1].content, "Second");
    // Requesting an empty section still yields a usable list.
    assert!(entry.get_bullets_mut(&BulletType::Misstep).is_empty());
}

#[test]
fn test_all_bullets_canonical_order() {
    let date = sample_date();
    let mut entry = Entry::new(date);
    entry.add_bullet(Bullet::new("a misstep", BulletType::Misstep));
    entry.add_bullet(Bullet::new("a task", BulletType::Task));
    entry.add_bullet(Bullet::new("an event", BulletType::Event));

    let all = entry.all_bullets();
    assert_eq!(all.len(), 3);
    assert_eq!(all[0].content, "a task");
    assert_eq!(all[1].content, "an event");
    assert_eq!(all[2].content, "a misstep");
    assert_eq!(entry.bullet_count(&BulletType::Task), 1);
    assert_eq!(entry.bullet_count(&BulletType::Note), 0);
}
