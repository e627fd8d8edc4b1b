use taskboard::text::split_at_cursor;
use taskboard::config::{
    default_colors, default_sort_by, default_view, expand_workspace_path, Config,
    DefaultsConfig, ThemeConfig, WorkspaceConfig,
};
use taskboard::task::date::decimal_chars;
use taskboard::task::{Date, Priority, Task, TaskStatus};
use taskboard::ui::modal::{next_field, parse_date_input, prev_field, EditField};
use taskboard::ui::task_list::{
    format_due_date, format_scheduled_date, relative_path, row_text, status_bar_text, wrap_text,
};
use taskboard::ui::App;
use taskboard::vault::{entry_action, is_markdown_name, is_markdown_path, skip_dir, EntryAction};
use taskboard::view::View;

fn date(y: i32, m: u32, d: u32) -> Date {
    Date::from_ymd_opt(y, m, d).unwrap()
}

fn task(desc: &str, status: TaskStatus, priority: Priority) -> Task {
    Task {
        description: desc.to_string(),
        status,
        priority,
        due_date: None,
        scheduled_date: None,
        recurrence: None,
        done_date: None,
        start_date: None,
        tags: vec![],
        source_file: "notes/todo.md".to_string(),
        line_number: 1,
    }
}

#[test]
fn test_markdown_names() {
    assert!(is_markdown_name("notes.md"));
    assert!(!is_markdown_name("long.markdown"));
    assert!(!is_markdown_name(".hidden.md"));
    assert!(!is_markdown_name("image.png"));
    assert!(!is_markdown_name("pkg.js"));
    assert!(!is_markdown_name("md"));
}

#[test]
fn test_skipped_folders() {
    assert!(skip_dir(".git"));
    assert!(skip_dir(".obsidian"));
    assert!(skip_dir("node_modules"));
    assert!(skip_dir("target"));
    assert!(!skip_dir("projects"));
}

#[test]
fn test_entry_actions() {
    assert_eq!(entry_action(".git", true, false), EntryAction::Skip);
    assert_eq!(entry_action("node_modules", true, false), EntryAction::Skip);
    assert_eq!(entry_action("work", true, false), EntryAction::Descend);
    assert_eq!(entry_action("tasks.md", false, true), EntryAction::Collect);
    assert_eq!(entry_action("image.png", false, true), EntryAction::Skip);
    assert_eq!(entry_action("link.md", false, false), EntryAction::Skip);
    assert_eq!(entry_action(".hidden.md", false, true), EntryAction::Skip);
    assert_eq!(entry_action("notes.markdown", false, true), EntryAction::Skip);
}

#[test]
fn test_markdown_paths() {
    assert!(is_markdown_path("/vault/work/tasks.md"));
    assert!(is_markdown_path("notes.md"));
    assert!(!is_markdown_path("notes.markdown"));
    assert!(!is_markdown_path("/vault/work/image.png"));
    assert!(!is_markdown_path("/vault/work/md"));
    assert!(!is_markdown_path("/vault/.md"));
    assert!(!is_markdown_path("/vault/.hidden.md"));
    assert!(!is_markdown_path("/vault/work/"));
}

#[test]
fn test_expand_workspace_path() {
    let home = Some("/home/me".to_string());
    assert_eq!(expand_workspace_path("  ~/notes  ", home.clone()), "/home/me/notes");
    assert_eq!(expand_workspace_path("\"~/My Notes\"", home.clone()), "/home/me/My Notes");
    assert_eq!(expand_workspace_path("'/data/vault'", home.clone()), "/data/vault");
    assert_eq!(expand_workspace_path("~", home.clone()), "/home/me/");
    assert_eq!(expand_workspace_path("~/a", Some("/".to_string())), "/a");
    assert_eq!(expand_workspace_path("~/notes", None), "~/notes");
    assert_eq!(expand_workspace_path("relative/dir", home), "relative/dir");
}

#[test]
fn test_config_defaults() {
    assert_eq!(default_sort_by(), "due_date");
    assert_eq!(default_view(), "All Tasks");
    assert_eq!(default_colors(), "dark");
    let d = DefaultsConfig::default();
    assert_eq!(d.view, "All Tasks");
    assert_eq!(ThemeConfig::default().colors, "dark");
}

#[test]
fn test_date_labels() {
    let d = date(2026, 6, 5);
    assert_eq!(format_due_date(d, 60), " \u{1F4C5}06-05");
    assert_eq!(format_due_date(d, 100), " \u{1F4C5} 2026-06-05");
    assert_eq!(format_scheduled_date(d, 79), " \u{1F6EB}06-05");
    assert_eq!(format_scheduled_date(d, 80), " \u{1F6EB} 2026-06-05");
}

#[test]
fn test_decimal_chars() {
    let s: String = decimal_chars(0).into_iter().collect();
    assert_eq!(s, "0");
    let s: String = decimal_chars(40213).into_iter().collect();
    assert_eq!(s, "40213");
}

#[test]
fn test_wrap_short_text_is_one_line() {
    assert_eq!(wrap_text("short", 20), vec!["short".to_string()]);
    assert_eq!(wrap_text("anything at all", 0), vec!["anything at all".to_string()]);
}

#[test]
fn test_wrap_at_word_boundaries() {
    assert_eq!(
        wrap_text("the quick brown fox jumps", 10),
        vec!["the quick".to_string(), "brown fox".to_string(), "jumps".to_string()]
    );
}

#[test]
fn test_wrap_splits_long_words() {
    assert_eq!(
        wrap_text("abcdefghij klm", 4),
        vec!["abcd".to_string(), "efgh".to_string(), "ij".to_string(), "klm".to_string()]
    );
    assert_eq!(
        wrap_text("ab abcdefgh", 4),
        vec!["ab".to_string(), "abcd".to_string(), "efgh".to_string()]
    );
}

#[test]
fn test_wrap_long_word_keeps_chars() {
    let text = "a verylongwordhere  b";
    let lines = wrap_text(text, 5);
    assert_eq!(
        lines,
        vec!["a", "veryl", "ongwo", "rdher", "e", "b"]
            .into_iter()
            .map(String::from)
            .collect::<Vec<_>>()
    );
    for l in &lines {
        assert!(!l.is_empty() && l.len() <= 5 && l.trim() == l);
    }
    let kept: String = lines.concat().chars().filter(|c| !c.is_whitespace()).collect();
    let bare: String = text.chars().filter(|c| !c.is_whitespace()).collect();
    assert_eq!(kept, bare);
}

#[test]
fn test_wrap_counts_bytes() {
    // Each of these chars is two bytes long in UTF-8.
    assert_eq!(wrap_text("\u{e9}\u{e9} \u{e9}\u{e9}", 5), vec!["\u{e9}\u{e9}".to_string(), "\u{e9}\u{e9}".to_string()]);
}

#[test]
fn test_wrap_collapses_whitespace() {
    assert_eq!(
        wrap_text("  one   two\tthree  ", 9),
        vec!["one two".to_string(), "three".to_string()]
    );
}

#[test]
fn test_relative_path() {
    let ws = Some("/vault".to_string());
    assert_eq!(relative_path("/vault/work/tasks.md", &ws), "work/tasks.md");
    assert_eq!(relative_path("/other/tasks.md", &ws), "/other/tasks.md");
    assert_eq!(relative_path("/vault/tasks.md", &None), "/vault/tasks.md");
}

#[test]
fn test_row_text_narrow() {
    let mut t = task("Write report", TaskStatus::Todo, Priority::High);
    t.due_date = Some(date(2026, 6, 15));
    let r = row_text(&t, 60, "notes/todo.md");
    assert_eq!(r.status, "[ ]");
    assert_eq!(r.priority, "\u{23EB} ");
    assert_eq!(r.due, " \u{1F4C5}06-15");
    assert_eq!(r.scheduled, "");
    assert_eq!(r.source, "");
    assert!(r.show_path_below);
    assert_eq!(r.path_below, "notes/todo.md");
    // "[ ]" (3) + 1 + the emoji (3 bytes) and a blank
    assert_eq!(r.prefix_len, 8);
    assert_eq!(r.desc_lines, vec!["Write report".to_string()]);
}

#[test]
fn test_row_text_wide() {
    let mut t = task("Done thing", TaskStatus::Done, Priority::Unset);
    t.scheduled_date = Some(date(2026, 1, 2));
    let r = row_text(&t, 130, "notes/todo.md");
    assert_eq!(r.status, "[x]");
    assert_eq!(r.priority, "");
    assert_eq!(r.scheduled, " \u{1F6EB} 2026-01-02");
    assert_eq!(r.source, " notes/todo.md");
    assert!(!r.show_path_below);
    assert_eq!(r.path_below, "");
    assert_eq!(r.prefix_len, 4);
}

#[test]
fn test_row_text_wraps_to_at_least_twenty() {
    let t = task(
        "alpha beta gamma delta epsilon zeta eta theta",
        TaskStatus::Todo,
        Priority::Unset,
    );
    let r = row_text(&t, 10, "x.md");
    assert_eq!(
        r.desc_lines,
        vec![
            "alpha beta gamma".to_string(),
            "delta epsilon zeta".to_string(),
            "eta theta".to_string()
        ]
    );
}

fn sample_app() -> App {
    let config = Config {
        workspace: WorkspaceConfig {
            path: "/vault".to_string(),
        },
        defaults: DefaultsConfig::default(),
        theme: ThemeConfig::default(),
        views: vec![],
    };
    let mut tasks = vec![
        task("one", TaskStatus::Todo, Priority::Unset),
        task("two", TaskStatus::Done, Priority::Unset),
        task("three", TaskStatus::Todo, Priority::Low),
    ];
    for (i, t) in tasks.iter_mut().enumerate() {
        t.line_number = i + 1;
    }
    App::new(config, tasks, vec![View::default()], "config.toml".to_string())
}

#[test]
fn test_status_bar_counts() {
    let mut app = sample_app();
    app.update_filtered_tasks_on(date(2026, 6, 12));
    assert_eq!(app.filtered_indices, vec![0, 1, 2]);
    assert_eq!(
        status_bar_text(&app),
        "3 tasks (1 done, 2 open) | All Tasks | q:quit / /:filter / ?:help"
    );
}

#[test]
fn test_tasks_on_one_line_show_the_first() {
    // Shown tasks are found again by file and line, so two tasks that claim
    // the same place show the first of them twice.
    let config = Config {
        workspace: WorkspaceConfig {
            path: "/vault".to_string(),
        },
        defaults: DefaultsConfig::default(),
        theme: ThemeConfig::default(),
        views: vec![],
    };
    let tasks = vec![
        task("one", TaskStatus::Todo, Priority::Unset),
        task("two", TaskStatus::Done, Priority::Unset),
    ];
    let mut app = App::new(config, tasks, vec![View::default()], "config.toml".to_string());
    app.update_filtered_tasks_on(date(2026, 6, 12));
    assert_eq!(app.filtered_indices, vec![0, 0]);
}

#[test]
fn test_status_bar_shows_active_filter() {
    let mut app = sample_app();
    app.update_filtered_tasks_on(date(2026, 6, 12));
    app.filter_text = "on".to_string();
    assert_eq!(
        status_bar_text(&app),
        "3 tasks (1 done, 2 open) | All Tasks | filter: \"on\" | q:quit / /:filter / ?:help"
    );
    app.filter_text = "   ".to_string();
    assert_eq!(
        status_bar_text(&app),
        "3 tasks (1 done, 2 open) | All Tasks | q:quit / /:filter / ?:help"
    );
}

#[test]
fn test_status_bar_message() {
    let mut app = sample_app();
    app.update_filtered_tasks_on(date(2026, 6, 12));
    app.status_message = Some("Save failed".to_string());
    assert_eq!(status_bar_text(&app), "Save failed | q:quit / /:filter / ?:help");
}

#[test]
fn test_field_navigation_round_trip() {
    let fields = [
        EditField::Description,
        EditField::Status,
        EditField::Priority,
        EditField::DueDate,
        EditField::ScheduledDate,
        EditField::Recurrence,
    ];
    for f in fields {
        assert_eq!(prev_field(next_field(f)), f);
        assert_eq!(next_field(prev_field(f)), f);
    }
    assert_eq!(next_field(EditField::Recurrence), EditField::Description);
    assert_eq!(prev_field(EditField::Description), EditField::Recurrence);
}

#[test]
fn test_parse_date_input() {
    let today = date(2026, 2, 28);
    assert_eq!(parse_date_input("today", today), Some(today));
    assert_eq!(parse_date_input("tomorrow", today), Some(date(2026, 3, 1)));
    assert_eq!(parse_date_input("yesterday", today), Some(date(2026, 2, 27)));
    assert_eq!(parse_date_input("2026-12-31", today), Some(date(2026, 12, 31)));
    assert_eq!(parse_date_input(" none ", today), None);
    assert_eq!(parse_date_input("", today), None);
    assert_eq!(parse_date_input("2026-02-30", today), None);
    assert_eq!(parse_date_input("soon", today), None);
}

// The folder scan of a vault with `tasks.md`, `notes.md`, `projects/todo.md`,
// `.git/config`, `node_modules/pkg.js` and `image.png`: the scan asks
// `entry_action` of each entry.
#[test]
fn test_skip_git_and_node_modules() {
    assert_eq!(entry_action(".git", true, false), EntryAction::Skip);
    assert_eq!(entry_action("node_modules", true, false), EntryAction::Skip);
    assert_eq!(entry_action("projects", true, false), EntryAction::Descend);
}

#[test]
fn test_skip_non_markdown() {
    assert_eq!(entry_action("image.png", false, true), EntryAction::Skip);
    assert_eq!(entry_action("pkg.js", false, true), EntryAction::Skip);
    assert_eq!(entry_action("tasks.md", false, true), EntryAction::Collect);
    assert_eq!(entry_action("notes.md", false, true), EntryAction::Collect);
    assert_eq!(entry_action("todo.md", false, true), EntryAction::Collect);
}

// The watcher passes on the changed paths that are markdown files.
#[test]
fn test_file_watcher_ignores_non_markdown() {
    assert!(!is_markdown_path("/tmp/vault/test.txt"));
}

#[test]
fn test_file_watcher_detects_markdown_changes() {
    assert!(is_markdown_path("/tmp/vault/test.md"));
}

#[test]
fn test_split_at_cursor() {
    assert_eq!(split_at_cursor("h\u{e9}llo", 2), ("h\u{e9}".to_string(), "llo".to_string()));
    assert_eq!(split_at_cursor("abc", 0), (String::new(), "abc".to_string()));
    assert_eq!(split_at_cursor("abc", 9), ("abc".to_string(), String::new()));
}
