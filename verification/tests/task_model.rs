use taskboard::task::parser::parse_file;
use taskboard::task::{Date, Priority, Task, TaskStatus};
use taskboard::view::View;

fn date(y: i32, m: u32, d: u32) -> Date {
    Date::from_ymd_opt(y, m, d).unwrap()
}

fn make_task(description: &str, status: TaskStatus) -> Task {
    Task {
        description: description.to_string(),
        status,
        priority: Priority::Unset,
        due_date: None,
        scheduled_date: None,
        recurrence: None,
        done_date: None,
        start_date: None,
        tags: vec![],
        source_file: "test.md".to_string(),
        line_number: 1,
    }
}

#[test]
fn test_task_status_cycle() {
    let mut status = TaskStatus::Todo;
    status.cycle();
    assert_eq!(status, TaskStatus::Done);
    status.cycle();
    assert_eq!(status, TaskStatus::Todo);
}

#[test]
fn test_priority_cycle() {
    let mut priority = Priority::Unset;
    priority.cycle();
    assert_eq!(priority, Priority::Highest);
    priority.cycle();
    assert_eq!(priority, Priority::High);
    priority.cycle();
    assert_eq!(priority, Priority::Medium);
    priority.cycle();
    assert_eq!(priority, Priority::Low);
    priority.cycle();
    assert_eq!(priority, Priority::Lowest);
    priority.cycle();
    assert_eq!(priority, Priority::Unset);
}

#[test]
fn test_priority_emoji_roundtrip() {
    assert_eq!(Priority::from_emoji("🔺"), Some(Priority::Highest));
    assert_eq!(Priority::from_emoji("⏫"), Some(Priority::High));
    assert_eq!(Priority::from_emoji("🔼"), Some(Priority::Medium));
    assert_eq!(Priority::from_emoji("🔽"), Some(Priority::Low));
    assert_eq!(Priority::from_emoji("⏬"), Some(Priority::Lowest));
    assert_eq!(Priority::from_emoji("x"), None);

    assert_eq!(Priority::Highest.to_emoji(), "🔺");
    assert_eq!(Priority::High.to_emoji(), "⏫");
    assert_eq!(Priority::Unset.to_emoji(), "");
}

#[test]
fn test_every_priority_emoji_reads_back() {
    for p in [
        Priority::Highest,
        Priority::High,
        Priority::Medium,
        Priority::Low,
        Priority::Lowest,
    ] {
        assert_eq!(Priority::from_emoji(p.to_emoji()), Some(p));
    }
    assert_eq!(Priority::from_emoji(Priority::Unset.to_emoji()), None);
    assert_eq!(Priority::from_emoji("🔺🔺"), None);
}

#[test]
fn test_to_markdown_basic_todo() {
    let task = make_task("Buy groceries", TaskStatus::Todo);
    assert_eq!(task.to_markdown(), "- [ ] Buy groceries");
}

#[test]
fn test_to_markdown_basic_done() {
    let task = make_task("Review PR", TaskStatus::Done);
    assert_eq!(task.to_markdown(), "- [x] Review PR");
}

#[test]
fn test_to_markdown_with_priority() {
    let mut task = make_task("Urgent task", TaskStatus::Todo);
    task.priority = Priority::High;
    assert_eq!(task.to_markdown(), "- [ ] Urgent task ⏫");
}

#[test]
fn test_to_markdown_with_due_date() {
    let mut task = make_task("Deadline", TaskStatus::Todo);
    task.due_date = Some(date(2026, 6, 15));
    assert_eq!(task.to_markdown(), "- [ ] Deadline 📅 2026-06-15");
}

#[test]
fn test_to_markdown_with_all_metadata() {
    let task = Task {
        description: "Full task".to_string(),
        status: TaskStatus::Done,
        priority: Priority::High,
        due_date: Some(date(2026, 6, 15)),
        scheduled_date: Some(date(2026, 6, 12)),
        start_date: Some(date(2026, 6, 10)),
        recurrence: Some("every week".to_string()),
        done_date: Some(date(2026, 6, 14)),
        tags: vec!["work".to_string(), "urgent".to_string()],
        source_file: "test.md".to_string(),
        line_number: 1,
    };
    assert_eq!(
        task.to_markdown(),
        "- [x] Full task ⏫ 📅 2026-06-15 ⏳ 2026-06-12 🛫 2026-06-10 🔁 every week ✅ 2026-06-14 #work #urgent"
    );
}

#[test]
fn test_to_markdown_with_tags() {
    let mut task = make_task("Tagged", TaskStatus::Todo);
    task.tags = vec!["personal".to_string()];
    assert_eq!(task.to_markdown(), "- [ ] Tagged #personal");
}

#[test]
fn test_write_to_file() {
    let task = Task {
        description: "Updated task".to_string(),
        status: TaskStatus::Done,
        priority: Priority::Unset,
        due_date: None,
        scheduled_date: None,
        recurrence: None,
        done_date: Some(date(2026, 6, 11)),
        start_date: None,
        tags: vec![],
        source_file: "test.md".to_string(),
        line_number: 2,
    };
    let content = task
        .rewrite_line("# Header\n- [ ] Old task\n- [x] Done task\n")
        .unwrap();
    assert_eq!(content, "# Header\n- [x] Updated task ✅ 2026-06-11\n- [x] Done task");
}

#[test]
fn test_write_to_file_preserves_indent() {
    let mut task = make_task("Still indented", TaskStatus::Todo);
    task.line_number = 1;
    let content = task.rewrite_line("  - [ ] Indented task\n").unwrap();
    assert_eq!(content, "  - [ ] Still indented");
}

#[test]
fn test_rewrite_line_rejects_missing_line() {
    let mut task = make_task("Nowhere", TaskStatus::Todo);
    task.line_number = 5;
    assert_eq!(
        task.rewrite_line("- [ ] a\n- [ ] b\n"),
        Err("Invalid line number 5".to_string())
    );
    task.line_number = 0;
    assert_eq!(
        task.rewrite_line("- [ ] a\n"),
        Err("Invalid line number 0".to_string())
    );
}

#[test]
fn test_line_numbers() {
    let content = "- [ ] First\n- [ ] Second\n- [x] Third";
    let tasks = parse_file(content, "test.md");

    assert_eq!(tasks[0].line_number, 1);
    assert_eq!(tasks[1].line_number, 2);
    assert_eq!(tasks[2].line_number, 3);
}

#[test]
fn test_parse_metadata_line() {
    let content = "# Tasks\n  - [X] Ship it 🔼 📅 2026-06-15 ⏳ 2026/06/12 🔁 every week ✅ 2026-06-14 #work #team/a\nplain line\n- [ ]   \n";
    let tasks = parse_file(content, "notes/a.md");
    assert_eq!(tasks.len(), 1);
    let t = &tasks[0];
    assert_eq!(t.description, "Ship it");
    assert_eq!(t.status, TaskStatus::Done);
    assert_eq!(t.priority, Priority::Medium);
    assert_eq!(t.due_date, Some(date(2026, 6, 15)));
    assert_eq!(t.scheduled_date, Some(date(2026, 6, 12)));
    assert_eq!(t.recurrence, Some("every week".to_string()));
    assert_eq!(t.done_date, Some(date(2026, 6, 14)));
    assert_eq!(t.tags, vec!["work".to_string(), "team/a".to_string()]);
    assert_eq!(t.source_file, "notes/a.md");
    assert_eq!(t.line_number, 2);
}

#[test]
fn test_parse_skips_non_tasks() {
    let content = "- not a task\n* [ ] star\n- [?] odd\n\n- [ ] Real";
    let tasks = parse_file(content, "x.md");
    assert_eq!(tasks.len(), 1);
    assert_eq!(tasks[0].description, "Real");
    assert_eq!(tasks[0].line_number, 5);
}

#[test]
fn test_parse_bad_date_is_none() {
    let tasks = parse_file("- [ ] Broken 📅 2026-13-45", "x.md");
    assert_eq!(tasks[0].due_date, None);
    assert_eq!(tasks[0].description, "Broken");
}

#[test]
fn test_markdown_reads_back() {
    let task = Task {
        description: "Full task".to_string(),
        status: TaskStatus::Done,
        priority: Priority::Highest,
        due_date: Some(date(2026, 6, 15)),
        scheduled_date: Some(date(2026, 6, 12)),
        start_date: Some(date(2026, 6, 10)),
        recurrence: Some("every week".to_string()),
        done_date: Some(date(2026, 6, 14)),
        tags: vec!["work".to_string(), "urgent".to_string()],
        source_file: "f.md".to_string(),
        line_number: 1,
    };
    let back = parse_file(&task.to_markdown(), "f.md");
    assert_eq!(back.len(), 1);
    let b = &back[0];
    assert_eq!(b.description, task.description);
    assert_eq!(b.status, task.status);
    assert_eq!(b.priority, task.priority);
    assert_eq!(b.due_date, task.due_date);
    assert_eq!(b.scheduled_date, task.scheduled_date);
    assert_eq!(b.start_date, task.start_date);
    assert_eq!(b.recurrence, task.recurrence);
    assert_eq!(b.done_date, task.done_date);
    assert_eq!(b.tags, task.tags);
}

#[test]
fn test_rewritten_line_reads_back() {
    let mut task = make_task("Water plants", TaskStatus::Done);
    task.done_date = Some(date(2026, 1, 2));
    task.line_number = 2;
    let content = task.rewrite_line("# Garden\n\t- [ ] Water plants\n").unwrap();
    let back = parse_file(&content, "test.md");
    assert_eq!(back.len(), 1);
    assert_eq!(back[0].line_number, 2);
    assert_eq!(back[0].status, TaskStatus::Done);
    assert_eq!(back[0].done_date, Some(date(2026, 1, 2)));
}

#[test]
fn test_date_from_ymd() {
    assert!(Date::from_ymd_opt(2024, 2, 29).is_some());
    assert!(Date::from_ymd_opt(2023, 2, 29).is_none());
    assert!(Date::from_ymd_opt(2026, 4, 31).is_none());
    assert!(Date::from_ymd_opt(2026, 0, 1).is_none());
    let d = date(2026, 6, 15);
    assert_eq!((d.year(), d.month(), d.day()), (2026, 6, 15));
    assert!(date(2026, 6, 14).is_before(&d));
    assert!(!d.is_before(&d));
}

#[test]
fn test_view_creation() {
    let view = View::new("My View", "not done tag work", "priority", "due");
    assert_eq!(view.name, "My View");
    assert_eq!(view.query, "not done tag work");
    assert_eq!(view.sort_by, "priority");
    assert_eq!(view.group_by, "due");
}

#[test]
fn test_default_view() {
    let view = View::default();
    assert_eq!(view.name, "All Tasks");
    assert_eq!(view.query, "");
    assert_eq!(view.sort_by, "due_date");
    assert_eq!(view.group_by, "");
}

#[test]
fn test_early_year_reads_back() {
    let mut task = make_task("Old", TaskStatus::Todo);
    task.due_date = Some(date(999, 1, 2));
    assert_eq!(task.to_markdown(), "- [ ] Old \u{1F4C5} 0999-01-02");
    let back = parse_file(&task.to_markdown(), "test.md");
    assert_eq!(back.len(), 1);
    assert_eq!(back[0].due_date, Some(date(999, 1, 2)));
}

#[test]
fn test_empty_recurrence_reads_back() {
    let mut task = make_task("Repeat", TaskStatus::Todo);
    task.recurrence = Some(String::new());
    assert_eq!(task.to_markdown(), "- [ ] Repeat \u{1F501} ");
    let back = parse_file(&task.to_markdown(), "test.md");
    assert_eq!(back.len(), 1);
    assert_eq!(back[0].recurrence, Some(String::new()));
    assert_eq!(back[0].description, "Repeat");
    task.status = TaskStatus::Done;
    task.done_date = Some(date(2026, 6, 1));
    task.tags = vec!["x".to_string()];
    let back = parse_file(&task.to_markdown(), "test.md");
    assert_eq!(back.len(), 1);
    assert_eq!(back[0].recurrence, Some(String::new()));
    assert_eq!(back[0].done_date, Some(date(2026, 6, 1)));
    assert_eq!(back[0].tags, vec!["x".to_string()]);
}
