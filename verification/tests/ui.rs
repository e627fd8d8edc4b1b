use chrono::Datelike;
use crossterm::event::{KeyCode, KeyEvent, KeyModifiers};
use taskboard::config::{Config, DefaultsConfig, ThemeConfig, WorkspaceConfig};
use taskboard::task::{Date, Priority, Task, TaskStatus};
use taskboard::task::parser::parse_file;
use taskboard::ui::filter::matches_filter;
use taskboard::ui::modal::EditField;
use taskboard::ui::{App, Effect, Key, KeyPress, ViewEditField};
use taskboard::view::View;

fn date(y: i32, m: u32, d: u32) -> Date {
    Date::from_ymd_opt(y, m, d).unwrap()
}

fn day_after(d: Date) -> Date {
    let n = chrono::NaiveDate::from_ymd_opt(d.year(), d.month(), d.day()).unwrap()
        + chrono::Duration::days(1);
    date(n.year(), n.month(), n.day())
}

fn today() -> Date {
    let n = chrono::Local::now().date_naive();
    date(n.year(), n.month(), n.day())
}

fn key_event(code: KeyCode, modifiers: KeyModifiers) -> KeyPress {
    let k = match code {
        KeyCode::Char(c) => Key::Char(c),
        KeyCode::Enter => Key::Enter,
        KeyCode::Esc => Key::Esc,
        KeyCode::Tab => Key::Tab,
        KeyCode::BackTab => Key::BackTab,
        KeyCode::Up => Key::Up,
        KeyCode::Down => Key::Down,
        KeyCode::Backspace => Key::Backspace,
        KeyCode::Delete => Key::Delete,
        KeyCode::Left => Key::Left,
        KeyCode::Right => Key::Right,
        KeyCode::Home => Key::Home,
        KeyCode::End => Key::End,
        _ => Key::Other,
    };
    KeyPress {
        code: k,
        ctrl: modifiers.contains(KeyModifiers::CONTROL),
        alt: modifiers.contains(KeyModifiers::ALT),
        shift: modifiers.contains(KeyModifiers::SHIFT),
        event: KeyEvent::new(code, modifiers),
    }
}

fn sample_tasks() -> Vec<Task> {
    vec![
        Task {
            description: "Fix bug".to_string(),
            status: TaskStatus::Todo,
            priority: Priority::Medium,
            due_date: None,
            scheduled_date: Some(date(2026, 6, 12)),
            recurrence: Some("every week".to_string()),
            done_date: None,
            start_date: None,
            tags: vec!["work".to_string(), "urgent".to_string()],
            source_file: "bugs.md".to_string(),
            line_number: 10,
        },
        Task {
            description: "Buy groceries".to_string(),
            status: TaskStatus::Todo,
            priority: Priority::Unset,
            due_date: Some(date(2026, 6, 15)),
            scheduled_date: None,
            recurrence: None,
            done_date: None,
            start_date: None,
            tags: vec!["personal".to_string()],
            source_file: "tasks.md".to_string(),
            line_number: 1,
        },
        Task {
            description: "Review PR".to_string(),
            status: TaskStatus::Done,
            priority: Priority::High,
            due_date: Some(date(2026, 6, 10)),
            scheduled_date: Some(date(2026, 6, 9)),
            recurrence: None,
            done_date: Some(date(2026, 6, 10)),
            start_date: None,
            tags: vec!["work".to_string()],
            source_file: "work.md".to_string(),
            line_number: 5,
        },
    ]
}

fn sample_config() -> Config {
    Config {
        workspace: WorkspaceConfig {
            path: ".".to_string(),
        },
        defaults: DefaultsConfig::default(),
        theme: ThemeConfig::default(),
        views: vec![],
    }
}

fn sample_views() -> Vec<View> {
    vec![View::default()]
}

fn test_app(tasks: Vec<Task>, views: Vec<View>) -> App {
    App::new(sample_config(), tasks, views, "config.toml".to_string())
}

fn plain_task(desc: &str, file: &str, line: usize) -> Task {
    Task {
        description: desc.to_string(),
        status: TaskStatus::Todo,
        priority: Priority::Unset,
        due_date: None,
        scheduled_date: None,
        recurrence: None,
        done_date: None,
        start_date: None,
        tags: vec![],
        source_file: file.to_string(),
        line_number: line,
    }
}

#[test]
fn test_matches_description_case_insensitive() {
    let tasks = sample_tasks();
    assert!(matches_filter(&tasks[0], "BUG"));
    assert!(!matches_filter(&tasks[1], "bug"));
}

#[test]
fn test_matches_tag() {
    let tasks = sample_tasks();
    assert!(matches_filter(&tasks[1], "personal"));
    assert!(matches_filter(&tasks[0], "urgent"));
    assert!(!matches_filter(&tasks[1], "urgent"));
}

#[test]
fn test_matches_tag_with_hash_prefix() {
    let tasks = sample_tasks();
    assert!(matches_filter(&tasks[0], "#work"));
    assert!(matches_filter(&tasks[2], "#WORK"));
}

#[test]
fn test_empty_and_whitespace_matches_all() {
    let tasks = sample_tasks();
    for task in &tasks {
        assert!(matches_filter(task, ""));
        assert!(matches_filter(task, "   "));
    }
}

#[test]
fn test_app_new() {
    let app = test_app(sample_tasks(), sample_views());
    assert_eq!(app.selected_index, 0);
    assert!(!app.should_quit);
    assert!(!app.show_help);
    assert_eq!(app.current_view.name, "All Tasks");
}

#[test]
fn test_move_down() {
    let mut app = test_app(sample_tasks(), sample_views());
    app.update_filtered_tasks();
    assert_eq!(app.selected_index, 0);
    app.move_down();
    assert_eq!(app.selected_index, 1);
    app.move_down();
    assert_eq!(app.selected_index, 2);
    app.move_down();
    assert_eq!(app.selected_index, 0);
}

#[test]
fn test_move_up() {
    let mut app = test_app(sample_tasks(), sample_views());
    app.update_filtered_tasks();
    assert_eq!(app.selected_index, 0);
    app.move_up();
    assert_eq!(app.selected_index, 2);
    app.move_up();
    assert_eq!(app.selected_index, 1);
}

#[test]
fn test_move_down_empty() {
    let mut app = test_app(vec![], sample_views());
    app.update_filtered_tasks();
    app.move_down();
    assert_eq!(app.selected_index, 0);
}

#[test]
fn test_move_up_empty() {
    let mut app = test_app(vec![], sample_views());
    app.update_filtered_tasks();
    app.move_up();
    assert_eq!(app.selected_index, 0);
}

#[test]
fn test_toggle_done() {
    let mut app = test_app(sample_tasks(), sample_views());
    app.update_filtered_tasks();
    assert_eq!(app.tasks[0].status, TaskStatus::Todo);
    app.toggle_done();
    assert_eq!(app.tasks[0].status, TaskStatus::Done);
    app.toggle_done();
    assert_eq!(app.tasks[0].status, TaskStatus::Todo);
}

#[test]
fn test_cycle_priority() {
    let mut app = test_app(sample_tasks(), sample_views());
    app.update_filtered_tasks();
    assert_eq!(app.tasks[0].priority, Priority::Medium);
    app.cycle_priority();
    assert_eq!(app.tasks[0].priority, Priority::Low);
}

#[test]
fn test_set_due_date_today() {
    let mut app = test_app(sample_tasks(), sample_views());
    app.update_filtered_tasks();
    app.selected_index = 2;
    let idx = app.selected_task_index().unwrap();
    app.set_due_date_today();
    assert_eq!(app.tasks[idx].due_date, Some(today()));
}

#[test]
fn test_set_due_date_tomorrow() {
    let mut app = test_app(sample_tasks(), sample_views());
    app.update_filtered_tasks();
    let idx = app.selected_task_index().unwrap();
    app.set_due_date_tomorrow();
    assert_eq!(app.tasks[idx].due_date, Some(day_after(today())));
}

#[test]
fn test_set_scheduled_today() {
    let mut app = test_app(sample_tasks(), sample_views());
    app.update_filtered_tasks();
    let idx = app.selected_task_index().unwrap();
    app.set_scheduled_today();
    assert_eq!(app.tasks[idx].scheduled_date, Some(today()));
}

#[test]
fn test_set_scheduled_tomorrow() {
    let mut app = test_app(sample_tasks(), sample_views());
    app.update_filtered_tasks();
    let idx = app.selected_task_index().unwrap();
    app.set_scheduled_tomorrow();
    assert_eq!(app.tasks[idx].scheduled_date, Some(day_after(today())));
}

#[test]
fn test_bump_scheduled() {
    let mut app = test_app(sample_tasks(), sample_views());
    app.update_filtered_tasks();
    app.selected_index = 2;
    let idx = app.selected_task_index().unwrap();
    let original = app.tasks[idx].scheduled_date.unwrap();
    app.bump_scheduled();
    assert_eq!(app.tasks[idx].scheduled_date, Some(day_after(original)));
}

#[test]
fn test_bump_scheduled_no_existing() {
    let mut app = test_app(sample_tasks(), sample_views());
    app.update_filtered_tasks();
    app.selected_index = 1;
    let idx = app.selected_task_index().unwrap();
    assert!(app.tasks[idx].scheduled_date.is_none());
    app.bump_scheduled();
    assert_eq!(app.tasks[idx].scheduled_date, Some(day_after(today())));
}

#[test]
fn test_update_filtered_tasks() {
    let mut views = sample_views();
    views[0].query = "not done".to_string();
    let mut app = test_app(sample_tasks(), views);
    app.update_filtered_tasks();
    assert_eq!(app.filtered_indices.len(), 2);
}

#[test]
fn test_update_filtered_tasks_empty_query() {
    let mut app = test_app(sample_tasks(), sample_views());
    app.update_filtered_tasks();
    assert_eq!(app.filtered_indices.len(), 3);
}

#[test]
fn test_filter_narrows_tasks() {
    let mut app = test_app(sample_tasks(), sample_views());
    app.filter_text = "bug".to_string();
    app.update_filtered_tasks();
    assert_eq!(app.filtered_indices.len(), 1);
    assert_eq!(app.tasks[app.filtered_indices[0]].description, "Fix bug");
}

#[test]
fn test_filter_by_tag() {
    let mut app = test_app(sample_tasks(), sample_views());
    app.filter_text = "#work".to_string();
    app.update_filtered_tasks();
    assert_eq!(app.filtered_indices.len(), 2);
}

#[test]
fn test_filter_empty_shows_all() {
    let mut app = test_app(sample_tasks(), sample_views());
    app.filter_text = "   ".to_string();
    app.update_filtered_tasks();
    assert_eq!(app.filtered_indices.len(), 3);
}

#[test]
fn test_default_view_used_when_empty() {
    let app = test_app(sample_tasks(), vec![]);
    assert_eq!(app.current_view.name, "All Tasks");
}

#[test]
fn test_mutations_persist() {
    let mut app = test_app(sample_tasks(), sample_views());
    app.update_filtered_tasks();

    let idx = app.selected_task_index().unwrap();
    assert_eq!(app.tasks[idx].status, TaskStatus::Todo);
    app.toggle_done();
    assert_eq!(app.tasks[idx].status, TaskStatus::Done);

    app.update_filtered_tasks();
    let idx = app.selected_task_index().unwrap();
    assert_eq!(app.tasks[idx].status, TaskStatus::Done);

    assert_eq!(app.tasks[idx].priority, Priority::Medium);
    app.cycle_priority();
    assert_eq!(app.tasks[idx].priority, Priority::Low);

    app.update_filtered_tasks();
    let idx = app.selected_task_index().unwrap();
    assert_eq!(app.tasks[idx].priority, Priority::Low);
}

#[test]
fn test_view_manager_navigation() {
    let views = vec![
        View::new("View1", "not done", "", ""),
        View::new("View2", "done", "", ""),
        View::new("View3", "", "", ""),
    ];
    let mut app = test_app(sample_tasks(), views);
    app.show_view_manager = true;

    assert_eq!(app.view_manager_selected, Some(0));
    app.handle_view_manager_key(&key_event(KeyCode::Down, KeyModifiers::NONE));
    assert_eq!(app.view_manager_selected, Some(1));
    app.handle_view_manager_key(&key_event(KeyCode::Down, KeyModifiers::NONE));
    assert_eq!(app.view_manager_selected, Some(2));
    app.handle_view_manager_key(&key_event(KeyCode::Down, KeyModifiers::NONE));
    assert_eq!(app.view_manager_selected, Some(0));
    app.handle_view_manager_key(&key_event(KeyCode::Up, KeyModifiers::NONE));
    assert_eq!(app.view_manager_selected, Some(2));
}

#[test]
fn test_view_manager_select() {
    let views = vec![
        View::new("View1", "not done", "", ""),
        View::new("View2", "done", "", ""),
    ];
    let mut app = test_app(sample_tasks(), views);
    app.show_view_manager = true;

    app.handle_view_manager_key(&key_event(KeyCode::Down, KeyModifiers::NONE));
    app.handle_view_manager_key(&key_event(KeyCode::Enter, KeyModifiers::NONE));
    assert_eq!(app.current_view.name, "View2");
    assert!(!app.show_view_manager);
}

#[test]
fn test_view_manager_delete() {
    let views = vec![
        View::new("View1", "not done", "", ""),
        View::new("View2", "done", "", ""),
        View::new("View3", "", "", ""),
    ];
    let mut app = test_app(sample_tasks(), views);
    app.show_view_manager = true;

    app.handle_view_manager_key(&key_event(KeyCode::Down, KeyModifiers::NONE));
    let effect = app.handle_view_manager_key(&key_event(KeyCode::Char('d'), KeyModifiers::NONE));
    assert_eq!(effect, Effect::SaveConfig);
    assert_eq!(app.views.len(), 2);
    assert_eq!(app.views[0].name, "View1");
    assert_eq!(app.views[1].name, "View3");
    assert_eq!(app.config.views.len(), 2);
    assert_eq!(app.config.views[1].name, "View3");
}

#[test]
fn test_view_manager_esc() {
    let mut app = test_app(sample_tasks(), sample_views());
    app.show_view_manager = true;
    app.handle_view_manager_key(&key_event(KeyCode::Esc, KeyModifiers::NONE));
    assert!(!app.show_view_manager);
}

#[test]
fn test_task_edit_modal_fields() {
    let mut app = test_app(sample_tasks(), sample_views());
    app.update_filtered_tasks();
    app.show_modal = true;

    assert_eq!(app.task_edit_field, EditField::Description);
    app.handle_key(&key_event(KeyCode::Tab, KeyModifiers::NONE));
    assert_eq!(app.task_edit_field, EditField::Status);
    app.handle_key(&key_event(KeyCode::Tab, KeyModifiers::NONE));
    assert_eq!(app.task_edit_field, EditField::Priority);
    app.handle_key(&key_event(KeyCode::Tab, KeyModifiers::NONE));
    assert_eq!(app.task_edit_field, EditField::DueDate);
    app.handle_key(&key_event(KeyCode::Tab, KeyModifiers::NONE));
    assert_eq!(app.task_edit_field, EditField::ScheduledDate);
    app.handle_key(&key_event(KeyCode::Tab, KeyModifiers::NONE));
    assert_eq!(app.task_edit_field, EditField::Recurrence);
    app.handle_key(&key_event(KeyCode::Tab, KeyModifiers::NONE));
    assert_eq!(app.task_edit_field, EditField::Description);
}

#[test]
fn test_task_edit_backward_navigation() {
    let mut app = test_app(sample_tasks(), sample_views());
    app.update_filtered_tasks();
    app.show_modal = true;

    assert_eq!(app.task_edit_field, EditField::Description);
    app.handle_key(&key_event(KeyCode::BackTab, KeyModifiers::SHIFT));
    assert_eq!(app.task_edit_field, EditField::Recurrence);
}

#[test]
fn test_task_edit_field_edit() {
    let mut app = test_app(sample_tasks(), sample_views());
    app.update_filtered_tasks();
    app.show_modal = true;

    let idx = app.selected_task_index().unwrap();
    let original_desc = app.tasks[idx].description.clone();

    app.handle_key(&key_event(KeyCode::Char('e'), KeyModifiers::NONE));
    assert!(app.task_edit.is_some());
    assert_eq!(app.task_edit.as_ref().unwrap().lines()[0], original_desc);

    for _ in 0..original_desc.len() {
        app.handle_key(&key_event(KeyCode::Backspace, KeyModifiers::NONE));
    }
    assert_eq!(app.task_edit.as_ref().unwrap().lines()[0], "");

    for c in "Cook".chars() {
        app.handle_key(&key_event(KeyCode::Char(c), KeyModifiers::NONE));
    }

    let effect = app.handle_key(&key_event(KeyCode::Enter, KeyModifiers::NONE));
    assert_eq!(effect, Effect::Persist(idx));
    assert!(app.task_edit.is_none());
    assert_eq!(app.tasks[idx].description, "Cook");
}

#[test]
fn test_task_edit_cancel() {
    let mut app = test_app(sample_tasks(), sample_views());
    app.update_filtered_tasks();
    app.show_modal = true;

    let idx = app.selected_task_index().unwrap();
    let original_desc = app.tasks[idx].description.clone();

    app.handle_key(&key_event(KeyCode::Char('e'), KeyModifiers::NONE));
    assert!(app.task_edit.is_some());
    app.handle_key(&key_event(KeyCode::Esc, KeyModifiers::NONE));
    assert!(app.task_edit.is_none());
    assert_eq!(app.tasks[idx].description, original_desc);
}

#[test]
fn test_task_edit_status_field() {
    let mut app = test_app(sample_tasks(), sample_views());
    app.update_filtered_tasks();
    app.show_modal = true;

    let idx = app.selected_task_index().unwrap();
    let original_status = app.tasks[idx].status;
    let status_text = match original_status {
        TaskStatus::Todo => "todo",
        TaskStatus::Done => "done",
    };

    app.handle_key(&key_event(KeyCode::Tab, KeyModifiers::NONE));
    assert_eq!(app.task_edit_field, EditField::Status);
    app.handle_key(&key_event(KeyCode::Char('e'), KeyModifiers::NONE));
    assert_eq!(app.task_edit.as_ref().unwrap().lines()[0], status_text);

    let opposite = match original_status {
        TaskStatus::Todo => "done",
        TaskStatus::Done => "todo",
    };
    for _ in 0..status_text.len() {
        app.handle_key(&key_event(KeyCode::Backspace, KeyModifiers::NONE));
    }
    for c in opposite.chars() {
        app.handle_key(&key_event(KeyCode::Char(c), KeyModifiers::NONE));
    }

    app.handle_key(&key_event(KeyCode::Enter, KeyModifiers::NONE));
    let expected = match original_status {
        TaskStatus::Todo => TaskStatus::Done,
        TaskStatus::Done => TaskStatus::Todo,
    };
    assert_eq!(app.tasks[idx].status, expected);
}

#[test]
fn test_task_edit_priority_field() {
    let mut app = test_app(sample_tasks(), sample_views());
    app.update_filtered_tasks();
    app.show_modal = true;

    let idx = app.selected_task_index().unwrap();
    let original_priority = app.tasks[idx].priority;

    app.handle_key(&key_event(KeyCode::Tab, KeyModifiers::NONE));
    app.handle_key(&key_event(KeyCode::Tab, KeyModifiers::NONE));
    assert_eq!(app.task_edit_field, EditField::Priority);

    app.handle_key(&key_event(KeyCode::Char('e'), KeyModifiers::NONE));
    assert_ne!(app.tasks[idx].priority, original_priority);
    assert!(app.task_edit.is_none());
}

#[test]
fn test_task_edit_date_field() {
    let mut app = test_app(sample_tasks(), sample_views());
    app.update_filtered_tasks();
    app.show_modal = true;

    let idx = app.selected_task_index().unwrap();
    let original_due = app.tasks[idx].due_date;

    app.handle_key(&key_event(KeyCode::Tab, KeyModifiers::NONE));
    app.handle_key(&key_event(KeyCode::Tab, KeyModifiers::NONE));
    app.handle_key(&key_event(KeyCode::Tab, KeyModifiers::NONE));
    assert_eq!(app.task_edit_field, EditField::DueDate);

    app.handle_key(&key_event(KeyCode::Char('e'), KeyModifiers::NONE));
    let edit_text = app.task_edit.as_ref().unwrap().lines()[0].clone();
    let expected_edit = original_due
        .map(|d| format!("{:04}-{:02}-{:02}", d.year(), d.month(), d.day()))
        .unwrap_or_default();
    assert_eq!(edit_text, expected_edit);

    for _ in 0..edit_text.len() {
        app.handle_key(&key_event(KeyCode::Backspace, KeyModifiers::NONE));
    }
    for c in "tomorrow".chars() {
        app.handle_key(&key_event(KeyCode::Char(c), KeyModifiers::NONE));
    }

    app.handle_key(&key_event(KeyCode::Enter, KeyModifiers::NONE));
    assert_eq!(app.tasks[idx].due_date, Some(day_after(today())));
}

#[test]
fn test_task_edit_clear_date() {
    let mut app = test_app(sample_tasks(), sample_views());
    app.update_filtered_tasks();
    app.show_modal = true;

    let idx = app.selected_task_index().unwrap();

    app.handle_key(&key_event(KeyCode::Tab, KeyModifiers::NONE));
    app.handle_key(&key_event(KeyCode::Tab, KeyModifiers::NONE));
    app.handle_key(&key_event(KeyCode::Tab, KeyModifiers::NONE));
    assert_eq!(app.task_edit_field, EditField::DueDate);

    app.handle_key(&key_event(KeyCode::Char('e'), KeyModifiers::NONE));
    for c in "none".chars() {
        app.handle_key(&key_event(KeyCode::Char(c), KeyModifiers::NONE));
    }
    app.handle_key(&key_event(KeyCode::Enter, KeyModifiers::NONE));
    assert_eq!(app.tasks[idx].due_date, None);
}

#[test]
fn test_task_edit_recurrence_field() {
    let mut app = test_app(sample_tasks(), sample_views());
    app.update_filtered_tasks();
    app.show_modal = true;

    let idx = app.selected_task_index().unwrap();
    let original_recurrence = app.tasks[idx].recurrence.clone();

    for _ in 0..5 {
        app.handle_key(&key_event(KeyCode::Tab, KeyModifiers::NONE));
    }
    assert_eq!(app.task_edit_field, EditField::Recurrence);

    app.handle_key(&key_event(KeyCode::Char('e'), KeyModifiers::NONE));
    assert_eq!(
        app.task_edit.as_ref().unwrap().lines()[0],
        original_recurrence.as_deref().unwrap_or("")
    );

    let clear_len = original_recurrence.as_ref().map(|s| s.len()).unwrap_or(0);
    for _ in 0..clear_len {
        app.handle_key(&key_event(KeyCode::Backspace, KeyModifiers::NONE));
    }
    for c in "every month".chars() {
        app.handle_key(&key_event(KeyCode::Char(c), KeyModifiers::NONE));
    }

    app.handle_key(&key_event(KeyCode::Enter, KeyModifiers::NONE));
    assert_eq!(app.tasks[idx].recurrence, Some("every month".to_string()));
}

#[test]
fn test_task_edit_cursor_insert() {
    let mut app = test_app(sample_tasks(), sample_views());
    app.update_filtered_tasks();
    app.show_modal = true;

    let idx = app.selected_task_index().unwrap();
    let original_desc = app.tasks[idx].description.clone();

    app.handle_key(&key_event(KeyCode::Char('e'), KeyModifiers::NONE));
    assert!(app.task_edit.is_some());

    app.handle_key(&key_event(KeyCode::Left, KeyModifiers::NONE));
    app.handle_key(&key_event(KeyCode::Left, KeyModifiers::NONE));
    app.handle_key(&key_event(KeyCode::Char('x'), KeyModifiers::NONE));

    let text = app.task_edit.as_ref().unwrap().lines()[0].clone();
    let expected = format!(
        "{}x{}",
        &original_desc[..original_desc.len() - 2],
        &original_desc[original_desc.len() - 2..]
    );
    assert_eq!(text, expected);

    app.handle_key(&key_event(KeyCode::Enter, KeyModifiers::NONE));
    assert_eq!(app.tasks[idx].description, expected);
}

#[test]
fn test_task_edit_home_end() {
    let mut app = test_app(sample_tasks(), sample_views());
    app.update_filtered_tasks();
    app.show_modal = true;

    let idx = app.selected_task_index().unwrap();
    let original_desc = app.tasks[idx].description.clone();

    app.handle_key(&key_event(KeyCode::Char('e'), KeyModifiers::NONE));
    app.handle_key(&key_event(KeyCode::Home, KeyModifiers::NONE));
    app.handle_key(&key_event(KeyCode::Char('!'), KeyModifiers::NONE));

    let text = app.task_edit.as_ref().unwrap().lines()[0].clone();
    assert_eq!(text, format!("!{}", original_desc));
}

#[test]
fn test_task_edit_delete_right_end() {
    let mut app = test_app(sample_tasks(), sample_views());
    app.update_filtered_tasks();
    app.show_modal = true;

    let idx = app.selected_task_index().unwrap();
    let original_desc = app.tasks[idx].description.clone();

    app.handle_key(&key_event(KeyCode::Char('e'), KeyModifiers::NONE));
    app.handle_key(&key_event(KeyCode::Home, KeyModifiers::NONE));
    app.handle_key(&key_event(KeyCode::Delete, KeyModifiers::NONE));
    assert_eq!(app.task_edit.as_ref().unwrap().lines()[0], original_desc[1..]);
    assert_eq!(app.task_edit.as_ref().unwrap().cursor(), (0, 0));

    app.handle_key(&key_event(KeyCode::Right, KeyModifiers::NONE));
    assert_eq!(app.task_edit.as_ref().unwrap().cursor(), (0, 1));
    app.handle_key(&key_event(KeyCode::Delete, KeyModifiers::NONE));
    let expected = format!("{}{}", &original_desc[1..2], &original_desc[3..]);
    assert_eq!(app.task_edit.as_ref().unwrap().lines()[0], expected);

    app.handle_key(&key_event(KeyCode::End, KeyModifiers::NONE));
    assert_eq!(app.task_edit.as_ref().unwrap().cursor(), (0, expected.chars().count()));
    app.handle_key(&key_event(KeyCode::Delete, KeyModifiers::NONE));
    app.handle_key(&key_event(KeyCode::Right, KeyModifiers::NONE));
    assert_eq!(app.task_edit.as_ref().unwrap().lines()[0], expected);
    assert_eq!(app.task_edit.as_ref().unwrap().cursor(), (0, expected.chars().count()));

    app.handle_key(&key_event(KeyCode::Home, KeyModifiers::NONE));
    app.handle_key(&key_event(KeyCode::Left, KeyModifiers::NONE));
    assert_eq!(app.task_edit.as_ref().unwrap().cursor(), (0, 0));
    app.handle_key(&key_event(KeyCode::Backspace, KeyModifiers::NONE));
    assert_eq!(app.task_edit.as_ref().unwrap().lines()[0], expected);
}

#[test]
fn test_filter_shift_left_selects() {
    let mut app = test_app(sample_tasks(), sample_views());
    app.update_filtered_tasks();
    app.handle_key(&key_event(KeyCode::Char('/'), KeyModifiers::NONE));
    for c in "abc".chars() {
        app.handle_key(&key_event(KeyCode::Char(c), KeyModifiers::NONE));
    }
    app.handle_key(&key_event(KeyCode::Left, KeyModifiers::SHIFT));
    app.handle_key(&key_event(KeyCode::Char('x'), KeyModifiers::NONE));
    assert_eq!(app.filter_text, "abx");
}

#[test]
fn test_sorted_by_path_then_line() {
    let tasks = vec![
        plain_task("Zebra task", "b.md", 1),
        plain_task("Alpha task", "a.md", 1),
        plain_task("Another task", "a.md", 2),
    ];
    let mut app = test_app(tasks, sample_views());
    app.update_filtered_tasks();

    assert_eq!(app.tasks[app.filtered_indices[0]].source_file, "a.md");
    assert_eq!(app.tasks[app.filtered_indices[0]].line_number, 1);
    assert_eq!(app.tasks[app.filtered_indices[1]].source_file, "a.md");
    assert_eq!(app.tasks[app.filtered_indices[1]].line_number, 2);
    assert_eq!(app.tasks[app.filtered_indices[2]].source_file, "b.md");
}

#[test]
fn test_default_view_from_config() {
    let views = vec![
        View::new("All Tasks", "", "", ""),
        View::new("Overdue", "due < today", "", ""),
    ];
    let mut config = sample_config();
    config.defaults.view = "Overdue".to_string();
    let app = App::new(config, sample_tasks(), views, "config.toml".to_string());
    assert_eq!(app.current_view.name, "Overdue");
}

#[test]
fn test_default_view_fallback_no_match() {
    let views = vec![
        View::new("View1", "not done", "", ""),
        View::new("View2", "done", "", ""),
    ];
    let mut config = sample_config();
    config.defaults.view = "Nonexistent".to_string();
    let app = App::new(config, sample_tasks(), views, "config.toml".to_string());
    assert_eq!(app.current_view.name, "View1");
}

#[test]
fn test_view_manager_set_default() {
    let views = vec![
        View::new("View1", "not done", "", ""),
        View::new("View2", "done", "", ""),
    ];
    let mut app = test_app(sample_tasks(), views);
    app.show_view_manager = true;

    app.handle_view_manager_key(&key_event(KeyCode::Down, KeyModifiers::NONE));
    app.handle_view_manager_key(&key_event(KeyCode::Char('s'), KeyModifiers::NONE));
    assert_eq!(app.config.defaults.view, "View2");
}

#[test]
fn test_slash_opens_filter() {
    let mut app = test_app(sample_tasks(), sample_views());
    app.handle_key(&key_event(KeyCode::Char('/'), KeyModifiers::NONE));
    assert!(app.filter_textarea.is_some());
}

#[test]
fn test_filter_typing_updates_live() {
    let mut app = test_app(sample_tasks(), sample_views());
    app.handle_key(&key_event(KeyCode::Char('/'), KeyModifiers::NONE));
    for c in "bug".chars() {
        app.handle_key(&key_event(KeyCode::Char(c), KeyModifiers::NONE));
    }
    assert_eq!(app.filter_text, "bug");
    assert!(app.filter_textarea.is_some());
}

#[test]
fn test_filter_enter_keeps() {
    let mut app = test_app(sample_tasks(), sample_views());
    app.handle_key(&key_event(KeyCode::Char('/'), KeyModifiers::NONE));
    for c in "bug".chars() {
        app.handle_key(&key_event(KeyCode::Char(c), KeyModifiers::NONE));
    }
    app.handle_key(&key_event(KeyCode::Enter, KeyModifiers::NONE));

    assert!(app.filter_textarea.is_none());
    assert_eq!(app.filter_text, "bug");

    app.update_filtered_tasks();
    assert_eq!(app.filtered_indices.len(), 1);
}

#[test]
fn test_filter_esc_clears() {
    let mut app = test_app(sample_tasks(), sample_views());
    app.handle_key(&key_event(KeyCode::Char('/'), KeyModifiers::NONE));
    for c in "bug".chars() {
        app.handle_key(&key_event(KeyCode::Char(c), KeyModifiers::NONE));
    }
    app.handle_key(&key_event(KeyCode::Esc, KeyModifiers::NONE));

    assert!(app.filter_textarea.is_none());
    assert_eq!(app.filter_text, "");
}

#[test]
fn test_esc_in_main_list_clears_active_filter() {
    let mut app = test_app(sample_tasks(), sample_views());
    app.filter_text = "bug".to_string();
    app.handle_key(&key_event(KeyCode::Esc, KeyModifiers::NONE));
    assert_eq!(app.filter_text, "");
}

#[test]
fn test_esc_in_main_list_no_filter_noop() {
    let mut app = test_app(sample_tasks(), sample_views());
    app.handle_key(&key_event(KeyCode::Esc, KeyModifiers::NONE));
    assert_eq!(app.filter_text, "");
    assert!(!app.should_quit);
}

#[test]
fn test_filter_reopens_prefilled() {
    let mut app = test_app(sample_tasks(), sample_views());
    app.filter_text = "bug".to_string();
    app.handle_key(&key_event(KeyCode::Char('/'), KeyModifiers::NONE));
    assert_eq!(app.filter_textarea.as_ref().unwrap().lines()[0], "bug");
}

#[test]
fn test_view_switch_clears_filter() {
    let views = vec![
        View::new("View1", "not done", "", ""),
        View::new("View2", "done", "", ""),
    ];
    let mut app = test_app(sample_tasks(), views);
    app.show_view_manager = true;
    app.filter_text = "bug".to_string();

    app.handle_view_manager_key(&key_event(KeyCode::Down, KeyModifiers::NONE));
    app.handle_view_manager_key(&key_event(KeyCode::Enter, KeyModifiers::NONE));

    assert_eq!(app.current_view.name, "View2");
    assert_eq!(app.filter_text, "");
}

#[test]
fn test_toggle_done_asks_for_write() {
    let tasks = vec![plain_task("Buy groceries", "persist_test.md", 2)];
    let mut app = test_app(tasks, sample_views());
    app.update_filtered_tasks();
    let effect = app.toggle_done_on(date(2026, 6, 11));
    assert_eq!(effect, Effect::Persist(0));
    assert_eq!(app.tasks[0].done_date, Some(date(2026, 6, 11)));
    let content = app.tasks[0]
        .rewrite_line("# Tasks\n- [ ] Buy groceries\n- [x] Review PR\n")
        .unwrap();
    assert!(content.contains("- [x] Buy groceries ✅ 2026-06-11"));
    app.persist_task(0, Err("disk full".to_string()));
    assert_eq!(app.status_message, Some("Failed to save: disk full".to_string()));
    app.persist_task(5, Ok(()));
    assert_eq!(app.status_message, Some("Failed to save: disk full".to_string()));
    app.persist_task(0, Ok(()));
    assert_eq!(app.status_message, None);
}

#[test]
fn test_keys_of_the_list() {
    let mut app = test_app(sample_tasks(), sample_views());
    app.update_filtered_tasks();
    let d = date(2026, 6, 11);
    assert_eq!(app.handle_key_on(&key_event(KeyCode::Char('G'), KeyModifiers::NONE), d), Effect::Nothing);
    assert_eq!(app.selected_index, 2);
    app.handle_key_on(&key_event(KeyCode::Char('g'), KeyModifiers::NONE), d);
    assert_eq!(app.selected_index, 0);
    assert_eq!(app.handle_key_on(&key_event(KeyCode::Char('d'), KeyModifiers::NONE), d), Effect::Persist(0));
    assert_eq!(app.tasks[0].due_date, Some(d));
    assert_eq!(app.handle_key_on(&key_event(KeyCode::Char('b'), KeyModifiers::NONE), d), Effect::Persist(0));
    assert_eq!(app.tasks[0].scheduled_date, Some(date(2026, 6, 13)));
    assert_eq!(app.handle_key_on(&key_event(KeyCode::Char('r'), KeyModifiers::NONE), d), Effect::Rescan);
    app.handle_key_on(&key_event(KeyCode::Char('?'), KeyModifiers::NONE), d);
    assert!(app.show_help);
    app.handle_key_on(&key_event(KeyCode::Char('q'), KeyModifiers::NONE), d);
    assert!(!app.should_quit);
    app.handle_key_on(&key_event(KeyCode::Esc, KeyModifiers::NONE), d);
    assert!(!app.show_help);
    app.handle_key_on(&key_event(KeyCode::Enter, KeyModifiers::NONE), d);
    assert!(app.show_modal);
    app.handle_key_on(&key_event(KeyCode::Char('r'), KeyModifiers::NONE), d);
    assert_eq!(app.tasks[0].recurrence, None);
    app.handle_key_on(&key_event(KeyCode::Esc, KeyModifiers::NONE), d);
    assert!(!app.show_modal);
    app.handle_key_on(&key_event(KeyCode::Char('v'), KeyModifiers::NONE), d);
    assert!(app.show_view_manager);
    app.handle_key_on(&key_event(KeyCode::Esc, KeyModifiers::NONE), d);
    app.handle_key_on(&key_event(KeyCode::Char('q'), KeyModifiers::NONE), d);
    assert!(app.should_quit);
}

fn press(app: &mut App, code: KeyCode) -> Effect {
    app.handle_view_manager_key(&key_event(code, KeyModifiers::NONE))
}

fn type_text(app: &mut App, text: &str) {
    for c in text.chars() {
        press(app, KeyCode::Char(c));
    }
}

fn form_line(app: &App, field: usize) -> String {
    let f = app.view_form.as_ref().unwrap();
    let e = match field {
        0 => &f.name,
        1 => &f.query,
        2 => &f.sort_by,
        _ => &f.group_by,
    };
    e.lines()[0].clone()
}

#[test]
fn test_view_manager_rename() {
    let views = vec![View::new("View1", "not done", "", "")];
    let mut app = test_app(sample_tasks(), views);
    app.show_view_manager = true;
    press(&mut app, KeyCode::Char('e'));
    assert!(app.view_form.is_some());
    assert_eq!(form_line(&app, 0), "View1");
    assert_eq!(form_line(&app, 1), "not done");
    assert_eq!(app.view_form.as_ref().unwrap().editing_index, Some(0));
    press(&mut app, KeyCode::Char('!'));
    let e = press(&mut app, KeyCode::Enter);
    assert_eq!(e, Effect::SaveConfig);
    assert_eq!(app.views[0].name, "View1!");
    assert_eq!(app.config.views[0].name, "View1!");
    assert!(app.view_form.is_none());
    let e = press(&mut app, KeyCode::Char('d'));
    assert_eq!(e, Effect::Nothing);
    assert_eq!(app.views.len(), 1);
}

#[test]
fn test_view_form_add() {
    let views = vec![View::new("View1", "not done", "", "")];
    let mut app = test_app(sample_tasks(), views);
    app.show_view_manager = true;
    press(&mut app, KeyCode::Char('a'));
    let f = app.view_form.as_ref().unwrap();
    assert_eq!(f.editing_index, None);
    assert_eq!(f.focus, ViewEditField::Name);
    for k in 0..4 {
        assert_eq!(form_line(&app, k), "");
    }
    type_text(&mut app, "Work");
    press(&mut app, KeyCode::Tab);
    type_text(&mut app, "tag work");
    press(&mut app, KeyCode::Tab);
    type_text(&mut app, "due");
    let e = press(&mut app, KeyCode::Enter);
    assert_eq!(e, Effect::SaveConfig);
    assert!(app.view_form.is_none());
    assert_eq!(app.views.len(), 2);
    assert_eq!(app.views[1].name, "Work");
    assert_eq!(app.views[1].query, "tag work");
    assert_eq!(app.views[1].sort_by, "due");
    assert_eq!(app.views[1].group_by, "");
    assert_eq!(app.config.views.len(), 2);
    assert_eq!(app.config.views[1].query, "tag work");
}

#[test]
fn test_view_form_focus_wraps() {
    let mut app = test_app(sample_tasks(), sample_views());
    app.show_view_manager = true;
    press(&mut app, KeyCode::Char('a'));
    press(&mut app, KeyCode::BackTab);
    assert_eq!(app.view_form.as_ref().unwrap().focus, ViewEditField::GroupBy);
    press(&mut app, KeyCode::Tab);
    assert_eq!(app.view_form.as_ref().unwrap().focus, ViewEditField::Name);
    for _ in 0..3 {
        press(&mut app, KeyCode::Tab);
    }
    assert_eq!(app.view_form.as_ref().unwrap().focus, ViewEditField::GroupBy);
}

#[test]
fn test_view_form_rejects_empty_and_duplicate_names() {
    let views = vec![
        View::new("View1", "not done", "", ""),
        View::new("View2", "done", "", ""),
    ];
    let mut app = test_app(sample_tasks(), views);
    app.show_view_manager = true;
    press(&mut app, KeyCode::Char('a'));
    type_text(&mut app, "   ");
    assert_eq!(press(&mut app, KeyCode::Enter), Effect::Nothing);
    assert_eq!(app.status_message, Some("View name required".to_string()));
    assert!(app.view_form.is_some());
    press(&mut app, KeyCode::Esc);
    assert!(app.view_form.is_none());
    press(&mut app, KeyCode::Char('a'));
    type_text(&mut app, "View2");
    assert_eq!(press(&mut app, KeyCode::Enter), Effect::Nothing);
    assert_eq!(app.status_message, Some("View 'View2' already exists".to_string()));
    assert!(app.view_form.is_some());
    assert_eq!(app.views.len(), 2);
    press(&mut app, KeyCode::Esc);
    // Keeping a view's own name is allowed.
    press(&mut app, KeyCode::Char('e'));
    assert_eq!(press(&mut app, KeyCode::Enter), Effect::SaveConfig);
    assert_eq!(app.views[0].name, "View1");
}

#[test]
fn test_view_form_edit_of_current_view_syncs() {
    let views = vec![
        View::new("View1", "not done", "", ""),
        View::new("View2", "done", "", ""),
    ];
    let mut app = test_app(sample_tasks(), views);
    assert_eq!(app.current_view.name, "View1");
    app.dirty = false;
    app.show_view_manager = true;
    press(&mut app, KeyCode::Char('e'));
    press(&mut app, KeyCode::Tab);
    press(&mut app, KeyCode::Backspace);
    press(&mut app, KeyCode::Backspace);
    press(&mut app, KeyCode::Backspace);
    press(&mut app, KeyCode::Backspace);
    assert_eq!(form_line(&app, 1), "not ");
    type_text(&mut app, "x");
    press(&mut app, KeyCode::Enter);
    assert_eq!(app.views[0].query, "not x");
    assert_eq!(app.current_view.query, "not x");
    assert!(app.dirty);
    // Editing another view leaves the current one alone.
    app.dirty = false;
    press(&mut app, KeyCode::Down);
    press(&mut app, KeyCode::Char('e'));
    type_text(&mut app, "2");
    press(&mut app, KeyCode::Enter);
    assert_eq!(app.views[1].name, "View22");
    assert_eq!(app.current_view.name, "View1");
    assert!(!app.dirty);
}

#[test]
fn test_view_form_cancel_discards() {
    let views = vec![View::new("View1", "not done", "", "")];
    let mut app = test_app(sample_tasks(), views);
    app.show_view_manager = true;
    press(&mut app, KeyCode::Char('e'));
    type_text(&mut app, "zzz");
    assert_eq!(press(&mut app, KeyCode::Esc), Effect::Nothing);
    assert!(app.view_form.is_none());
    assert_eq!(app.views[0].name, "View1");
}

#[test]
fn test_view_form_alt_enter_in_query() {
    let mut app = test_app(sample_tasks(), sample_views());
    app.show_view_manager = true;
    press(&mut app, KeyCode::Char('a'));
    type_text(&mut app, "Multi");
    press(&mut app, KeyCode::Tab);
    type_text(&mut app, "not done");
    app.handle_view_manager_key(&key_event(KeyCode::Enter, KeyModifiers::ALT));
    type_text(&mut app, "tag x");
    assert!(app.view_form.is_some());
    press(&mut app, KeyCode::Enter);
    assert_eq!(app.views[1].query, "not done\ntag x");
}

#[test]
fn test_filter_typing_inserts_at_cursor() {
    let mut app = test_app(sample_tasks(), sample_views());
    app.update_filtered_tasks();
    app.filter_text = "bg".to_string();
    let d = date(2026, 6, 11);
    app.handle_key_on(&key_event(KeyCode::Char('/'), KeyModifiers::NONE), d);
    assert_eq!(app.filter_textarea.as_ref().unwrap().cursor(), (0, 2));
    app.handle_key_on(&key_event(KeyCode::Left, KeyModifiers::NONE), d);
    app.handle_key_on(&key_event(KeyCode::Char('u'), KeyModifiers::NONE), d);
    assert_eq!(app.filter_text, "bug");
    assert_eq!(app.filter_textarea.as_ref().unwrap().cursor(), (0, 2));
    app.handle_key_on(&key_event(KeyCode::Backspace, KeyModifiers::NONE), d);
    assert_eq!(app.filter_text, "bg");
}

#[test]
fn test_file_tasks_replaced() {
    let mut app = test_app(sample_tasks(), sample_views());
    app.replace_file_tasks("bugs.md", vec![plain_task("New", "bugs.md", 3)]);
    assert_eq!(app.tasks.len(), 3);
    assert_eq!(app.tasks[2].description, "New");
    assert!(app.dirty);
    app.load_tasks(vec![]);
    assert!(app.tasks.is_empty());
}

#[test]
fn test_reread_file_twice_same_tasks() {
    let content = "- [ ] First #a\ntext\n- [x] Second";
    let mut app = test_app(sample_tasks(), sample_views());
    app.replace_file_tasks("notes.md", parse_file(content, "notes.md"));
    let once: Vec<(String, String, usize)> = app
        .tasks
        .iter()
        .map(|t| (t.description.clone(), t.source_file.clone(), t.line_number))
        .collect();
    app.replace_file_tasks("notes.md", parse_file(content, "notes.md"));
    let twice: Vec<(String, String, usize)> = app
        .tasks
        .iter()
        .map(|t| (t.description.clone(), t.source_file.clone(), t.line_number))
        .collect();
    assert_eq!(once, twice);
    assert_eq!(once.len(), sample_tasks().len() + 2);
}

#[test]
fn test_shown_tasks_pass_filter_in_file_order() {
    let tasks = vec![
        plain_task("fix b", "b.md", 2),
        plain_task("other", "a.md", 1),
        plain_task("fix a", "a.md", 7),
        plain_task("fix a early", "a.md", 3),
    ];
    let mut app = test_app(tasks, sample_views());
    app.filter_text = "FIX".to_string();
    app.update_filtered_tasks();
    assert_eq!(app.filtered_indices, vec![3, 2, 0]);
}

// The write itself is the program's: it reads the file, hands the content to
// `rewrite_line` and writes the result back.
#[test]
fn test_toggle_done_persists_to_file() {
    let mut done = plain_task("Review PR", "persist_test.md", 3);
    done.status = TaskStatus::Done;
    done.done_date = Some(date(2026, 6, 10));
    let tasks = vec![plain_task("Buy groceries", "persist_test.md", 2), done];
    let mut app = test_app(tasks, sample_views());
    app.update_filtered_tasks();
    let effect = app.toggle_done();
    assert_eq!(app.tasks[0].status, TaskStatus::Done);
    assert_eq!(effect, Effect::Persist(0));
    let content = app.tasks[0]
        .rewrite_line("# Tasks\n- [ ] Buy groceries\n- [x] Review PR\n")
        .unwrap();
    assert!(content.contains("- [x] Buy groceries"));
    assert!(content.contains("\u{2705}"));
}

#[test]
fn test_toggle_done_then_rescan() {
    let tasks = vec![plain_task("Buy groceries", "rescan_test.md", 2)];
    let mut app = test_app(tasks, sample_views());
    app.update_filtered_tasks();
    let effect = app.toggle_done();
    assert_eq!(app.tasks[0].status, TaskStatus::Done);
    assert_eq!(effect, Effect::Persist(0));
    let content = app.tasks[0].rewrite_line("# Tasks\n- [ ] Buy groceries\n").unwrap();
    let reparsed = parse_file(&content, "rescan_test.md");
    assert_eq!(reparsed.len(), 1);
    assert_eq!(reparsed[0].status, TaskStatus::Done);
}

#[test]
fn test_filter_is_not_saved_with_views() {
    let views = vec![
        View::new("View1", "not done", "", ""),
        View::new("View2", "done", "", ""),
    ];
    let mut app = test_app(sample_tasks(), views);
    app.update_filtered_tasks();
    app.filter_text = "bug".to_string();
    let d = date(2026, 6, 11);
    app.handle_key_on(&key_event(KeyCode::Char('v'), KeyModifiers::NONE), d);
    let effect = app.handle_key_on(&key_event(KeyCode::Char('s'), KeyModifiers::NONE), d);
    assert_eq!(effect, Effect::SaveConfig);
    assert_eq!(app.config.defaults.view, "View1");
    assert_eq!(app.config.views.len(), 2);
    assert_eq!(app.config.views[0].query, "not done");
    assert_eq!(app.config.views[1].query, "done");
    assert_eq!(app.filter_text, "bug");
}

#[test]
fn test_bad_query_keeps_previous_results() {
    let views = vec![
        View::new("Open", "not done", "", ""),
        View::new("Bad", "frobnicate", "", ""),
    ];
    let mut app = test_app(sample_tasks(), views);
    let d = date(2026, 6, 11);
    app.update_filtered_tasks_on(d);
    let before = app.filtered_indices.clone();
    assert_eq!(before.len(), 2);
    app.current_view = View::new("Bad", "frobnicate", "", "");
    app.update_filtered_tasks_on(d);
    assert_eq!(app.filtered_indices, before);
    assert_eq!(
        app.status_message,
        Some("Unknown query token: frobnicate".to_string())
    );
}
