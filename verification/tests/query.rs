use taskboard::task::query::{execute_query, execute_query_on, parse_query, Filter, SortField};
use taskboard::task::{Date, Priority, Task, TaskStatus};

fn date(y: i32, m: u32, d: u32) -> Date {
    Date::from_ymd_opt(y, m, d).unwrap()
}

fn sample_tasks() -> Vec<Task> {
    vec![
        Task {
            description: "Fix bug".to_string(),
            status: TaskStatus::Todo,
            priority: Priority::Medium,
            due_date: None,
            scheduled_date: Some(date(2026, 6, 12)),
            recurrence: Some("every week".to_string()),
            done_date: None,
            start_date: None,
            tags: vec!["work".to_string(), "urgent".to_string()],
            source_file: "bugs.md".to_string(),
            line_number: 10,
        },
        Task {
            description: "Buy groceries".to_string(),
            status: TaskStatus::Todo,
            priority: Priority::Unset,
            due_date: Some(date(2026, 6, 15)),
            scheduled_date: None,
            recurrence: None,
            done_date: None,
            start_date: None,
            tags: vec!["personal".to_string()],
            source_file: "tasks.md".to_string(),
            line_number: 1,
        },
        Task {
            description: "Review PR".to_string(),
            status: TaskStatus::Done,
            priority: Priority::High,
            due_date: Some(date(2026, 6, 10)),
            scheduled_date: Some(date(2026, 6, 9)),
            recurrence: None,
            done_date: Some(date(2026, 6, 10)),
            start_date: None,
            tags: vec!["work".to_string()],
            source_file: "work.md".to_string(),
            line_number: 5,
        },
    ]
}

#[test]
fn test_filter_done() {
    let tasks = sample_tasks();
    let result = execute_query("done", &tasks).unwrap();
    assert_eq!(result.len(), 1);
    assert_eq!(result[0].description, "Review PR");
}

#[test]
fn test_filter_not_done() {
    let tasks = sample_tasks();
    let result = execute_query("not done", &tasks).unwrap();
    assert_eq!(result.len(), 2);
}

#[test]
fn test_filter_includes() {
    let tasks = sample_tasks();
    let result = execute_query("includes bug", &tasks).unwrap();
    assert_eq!(result.len(), 1);
    assert_eq!(result[0].description, "Fix bug");
}

#[test]
fn test_filter_tag() {
    let tasks = sample_tasks();
    let result = execute_query("tag personal", &tasks).unwrap();
    assert_eq!(result.len(), 1);
    assert_eq!(result[0].description, "Buy groceries");
}

#[test]
fn test_filter_priority_high() {
    let tasks = sample_tasks();
    let result = execute_query("priority is high", &tasks).unwrap();
    assert_eq!(result.len(), 1);
    assert_eq!(result[0].description, "Review PR");
}

#[test]
fn test_filter_has_recurrence() {
    let tasks = sample_tasks();
    let result = execute_query("has recurrence", &tasks).unwrap();
    assert_eq!(result.len(), 1);
    assert_eq!(result[0].description, "Fix bug");
}

#[test]
fn test_sort_by_priority() {
    let tasks = sample_tasks();
    let result = execute_query("sort by priority", &tasks).unwrap();
    assert_eq!(result[0].priority, Priority::High);
    assert_eq!(result[1].priority, Priority::Medium);
    assert_eq!(result[2].priority, Priority::Unset);
}

#[test]
fn test_combined_query() {
    let tasks = sample_tasks();
    let result = execute_query("not done tag work sort by priority", &tasks).unwrap();
    assert_eq!(result.len(), 1);
    assert_eq!(result[0].description, "Fix bug");
}

#[test]
fn test_empty_query() {
    let tasks = sample_tasks();
    let result = execute_query("", &tasks).unwrap();
    assert_eq!(result.len(), 3);
}

#[test]
fn test_filter_priority_above() {
    let tasks = sample_tasks();
    let result = execute_query("priority above medium", &tasks).unwrap();
    assert_eq!(result.len(), 1);
    assert_eq!(result[0].description, "Review PR");
}

#[test]
fn test_filter_priority_below() {
    let tasks = sample_tasks();
    let result = execute_query("priority below medium", &tasks).unwrap();
    assert_eq!(result.len(), 1);
    assert_eq!(result[0].description, "Buy groceries");
}

#[test]
fn test_limit() {
    let tasks = sample_tasks();
    let result = execute_query("limit 2", &tasks).unwrap();
    assert_eq!(result.len(), 2);
}

#[test]
fn test_limit_with_sort() {
    let tasks = sample_tasks();
    let result = execute_query("sort by priority limit 1", &tasks).unwrap();
    assert_eq!(result.len(), 1);
    assert_eq!(result[0].priority, Priority::High);
}

#[test]
fn test_includes_searches_tags() {
    let tasks = sample_tasks();
    let result = execute_query("includes urgent", &tasks).unwrap();
    assert_eq!(result.len(), 1);
    assert_eq!(result[0].description, "Fix bug");
}

#[test]
fn test_includes_searches_recurrence() {
    let tasks = sample_tasks();
    let result = execute_query("includes week", &tasks).unwrap();
    assert_eq!(result.len(), 1);
    assert_eq!(result[0].description, "Fix bug");
}

#[test]
fn test_description_includes_only_description() {
    let tasks = sample_tasks();
    let result = execute_query("description includes urgent", &tasks).unwrap();
    assert_eq!(result.len(), 0);
}

#[test]
fn test_scheduled_today_shorthand() {
    let tasks = sample_tasks();
    let result = execute_query("scheduled today", &tasks).unwrap();
    assert_eq!(result.len(), 0);
}

#[test]
fn test_scheduled_before_today() {
    let tasks = sample_tasks();
    let result = execute_query("scheduled before today", &tasks);
    assert!(result.is_ok());
}

#[test]
fn test_not_includes() {
    let tasks = sample_tasks();
    let result = execute_query("not includes bug", &tasks).unwrap();
    assert_eq!(result.len(), 2);
}

#[test]
fn test_does_not_include() {
    let tasks = sample_tasks();
    let result = execute_query("does not include bug", &tasks).unwrap();
    assert_eq!(result.len(), 2);
}

#[test]
fn test_path_includes() {
    let tasks = sample_tasks();
    let result = execute_query("path includes bugs", &tasks).unwrap();
    assert_eq!(result.len(), 1);
    assert_eq!(result[0].description, "Fix bug");
}

#[test]
fn test_path_not_includes() {
    let tasks = sample_tasks();
    let result = execute_query("path does not include bugs", &tasks).unwrap();
    assert_eq!(result.len(), 2);
}

#[test]
fn test_path_not_includes_reading_list() {
    let mut tasks = sample_tasks();
    tasks[0].source_file = "boards/Reading List.md".to_string();
    let result = execute_query("path does not include \"Reading List\"", &tasks).unwrap();
    assert_eq!(result.len(), 2);
    assert!(!result.iter().any(|t| t.source_file.contains("Reading List")));
}

#[test]
fn test_no_recurrence() {
    let tasks = sample_tasks();
    let result = execute_query("no recurrence", &tasks).unwrap();
    assert_eq!(result.len(), 2);
}

#[test]
fn test_no_due_date() {
    let tasks = sample_tasks();
    let result = execute_query("no due date", &tasks).unwrap();
    assert_eq!(result.len(), 1);
    assert_eq!(result[0].description, "Fix bug");
}

#[test]
fn test_has_due_date() {
    let tasks = sample_tasks();
    let result = execute_query("has due date", &tasks).unwrap();
    assert_eq!(result.len(), 2);
}

#[test]
fn test_not_tag() {
    let tasks = sample_tasks();
    let result = execute_query("not tag urgent", &tasks).unwrap();
    assert_eq!(result.len(), 2);
}

#[test]
fn test_multi_line_query() {
    let tasks = sample_tasks();
    let result = execute_query("not done\ntag work", &tasks).unwrap();
    assert_eq!(result.len(), 1);
    assert_eq!(result[0].description, "Fix bug");
}

#[test]
fn test_folder_matches_component() {
    let mut tasks = sample_tasks();
    tasks[2].source_file = "bugs/critical.md".to_string();
    let result = execute_query("folder bugs", &tasks).unwrap();
    assert_eq!(result.len(), 1);
    assert_eq!(result[0].description, "Review PR");
}

#[test]
fn test_folder_is_a_whole_path_component() {
    let mut tasks = sample_tasks();
    tasks[0].source_file = "projects/todo.md".to_string();
    tasks[1].source_file = "my_projects/todo.md".to_string();
    let result = execute_query("folder projects", &tasks).unwrap();
    assert_eq!(result.len(), 1);
    assert_eq!(result[0].description, "Fix bug");
    let result = execute_query("not folder projects", &tasks).unwrap();
    assert_eq!(result.len(), 2);
    let result = execute_query("folder todo", &tasks).unwrap();
    assert_eq!(result.len(), 0);
}

#[test]
fn test_relative_dates_against_given_day() {
    let tasks = sample_tasks();
    let today = date(2026, 6, 11);
    let r = execute_query_on("due tomorrow", &tasks, today).unwrap();
    assert_eq!(r.len(), 0);
    let r = execute_query_on("scheduled yesterday", &tasks, date(2026, 6, 13)).unwrap();
    assert_eq!(r.len(), 1);
    assert_eq!(r[0].description, "Fix bug");
    let r = execute_query_on("happens before today", &tasks, today).unwrap();
    assert_eq!(r.len(), 1);
    assert_eq!(r[0].description, "Review PR");
    let r = execute_query_on("happens after 2026-06-14", &tasks, today).unwrap();
    assert_eq!(r.len(), 1);
    assert_eq!(r[0].description, "Buy groceries");
    let r = execute_query_on("due on 2026-06-10", &tasks, today).unwrap();
    assert_eq!(r.len(), 1);
    let r = execute_query_on("happens on 2026-06-12", &tasks, today).unwrap();
    assert_eq!(r.len(), 1);
}

#[test]
fn test_sort_fields() {
    let tasks = sample_tasks();
    let r = execute_query("sort by due", &tasks).unwrap();
    let names: Vec<&str> = r.iter().map(|t| t.description.as_str()).collect();
    assert_eq!(names, vec!["Fix bug", "Review PR", "Buy groceries"]);
    let r = execute_query("sort by description", &tasks).unwrap();
    let names: Vec<&str> = r.iter().map(|t| t.description.as_str()).collect();
    assert_eq!(names, vec!["Buy groceries", "Fix bug", "Review PR"]);
    let r = execute_query("sort by created", &tasks).unwrap();
    let lines: Vec<usize> = r.iter().map(|t| t.line_number).collect();
    assert_eq!(lines, vec![1, 5, 10]);
    let r = execute_query("sort by done", &tasks).unwrap();
    assert_eq!(r[2].description, "Review PR");
    let r = execute_query("sort by tag", &tasks).unwrap();
    assert_eq!(r[0].description, "Buy groceries");
    let r = execute_query("sort by folder", &tasks).unwrap();
    assert_eq!(r[0].source_file, "bugs.md");
}

#[test]
fn test_sort_is_stable() {
    let tasks = sample_tasks();
    let r = execute_query("sort by recurrence", &tasks);
    assert!(r.is_err());
    let r = execute_query("sort by scheduled", &tasks).unwrap();
    let names: Vec<&str> = r.iter().map(|t| t.description.as_str()).collect();
    assert_eq!(names, vec!["Buy groceries", "Review PR", "Fix bug"]);
    let r = execute_query("sort by done", &tasks).unwrap();
    let names: Vec<&str> = r.iter().map(|t| t.description.as_str()).collect();
    assert_eq!(names, vec!["Fix bug", "Buy groceries", "Review PR"]);
}

#[test]
fn test_query_errors() {
    let tasks = sample_tasks();
    assert_eq!(
        execute_query("frobnicate", &tasks).unwrap_err(),
        "Unknown query token: frobnicate"
    );
    assert_eq!(
        execute_query("priority is urgent", &tasks).unwrap_err(),
        "Unknown priority: urgent"
    );
    assert_eq!(
        execute_query("sort by colour", &tasks).unwrap_err(),
        "Unknown sort field: colour"
    );
    assert_eq!(execute_query("due", &tasks).unwrap_err(), "Unknown query token: due");
    assert_eq!(
        execute_query("due soon 2026-01-01", &tasks).unwrap_err(),
        "Unknown due filter: soon"
    );
    assert_eq!(
        execute_query("due before 2026-99-01", &tasks).unwrap_err(),
        "Invalid date: 2026-99-01"
    );
    assert_eq!(
        execute_query("scheduled x", &tasks).unwrap_err(),
        "Incomplete scheduled filter"
    );
    assert_eq!(
        execute_query("happens around 2026-01-01", &tasks).unwrap_err(),
        "Unknown happens filter: around"
    );
    assert_eq!(execute_query("limit many", &tasks).unwrap_err(), "Invalid limit");
}

#[test]
fn test_parse_query_phrases() {
    let q = parse_query("  not done  \n\n limit +3 group by tag sort by due", date(2026, 1, 1)).unwrap();
    assert_eq!(q.filters.len(), 2);
    assert!(matches!(q.filters[0], Filter::NotDone));
    assert!(matches!(q.filters[1], Filter::Limit(3)));
    assert_eq!(q.sort_by, Some(SortField::Due));
    assert_eq!(q.group_by, Some(SortField::Tag));
    let q = parse_query("includes 'two words' tag x", date(2026, 1, 1)).unwrap();
    match &q.filters[0] {
        Filter::Includes(s) => assert_eq!(s, "two words"),
        _ => panic!("expected includes"),
    }
}

#[test]
fn test_first_limit_wins() {
    let tasks = sample_tasks();
    let r = execute_query("limit 1 limit 3", &tasks).unwrap();
    assert_eq!(r.len(), 1);
    let r = execute_query("limit 0", &tasks).unwrap();
    assert_eq!(r.len(), 0);
}

#[test]
fn test_recurrence_includes() {
    let tasks = sample_tasks();
    let r = execute_query("recurrence includes WEEK", &tasks).unwrap();
    assert_eq!(r.len(), 1);
    let r = execute_query("has scheduled date no due date", &tasks).unwrap();
    assert_eq!(r.len(), 1);
    assert_eq!(r[0].description, "Fix bug");
}

#[test]
fn test_blank_query_lines_show_all_in_order() {
    let tasks = sample_tasks();
    let result = execute_query_on("  \n\t\n", &tasks, date(2026, 6, 12)).unwrap();
    assert_eq!(result.len(), tasks.len());
    for (r, t) in result.iter().zip(tasks.iter()) {
        assert_eq!(r.description, t.description);
    }
}

#[test]
fn test_opposite_filters_split_the_list() {
    let tasks = sample_tasks();
    let done = execute_query("done", &tasks).unwrap();
    let open = execute_query("not done", &tasks).unwrap();
    assert_eq!(done.len() + open.len(), tasks.len());
    assert!(done.iter().all(|t| t.status == TaskStatus::Done));
    assert!(open.iter().all(|t| t.status == TaskStatus::Todo));
    let due = execute_query("has due date", &tasks).unwrap();
    let no_due = execute_query("no due date", &tasks).unwrap();
    assert_eq!(due.len() + no_due.len(), tasks.len());
}

#[test]
fn test_joined_query_texts() {
    let d = date(2026, 1, 1);
    let a = "not done sort by due\r";
    let b = "tag work\nsort by priority";
    let qa = parse_query(a, d).unwrap();
    let qb = parse_query(b, d).unwrap();
    let q = parse_query(&format!("{}\n{}", a, b), d).unwrap();
    assert_eq!(q.filters.len(), qa.filters.len() + qb.filters.len());
    assert!(matches!(q.filters[0], Filter::NotDone));
    assert!(matches!(&q.filters[1], Filter::Tag(t) if t == "work"));
    assert_eq!(q.sort_by, Some(SortField::Priority));
    let q = parse_query(&format!("{}\n{}", "sort by due\n", "done"), d).unwrap();
    assert_eq!(q.sort_by, Some(SortField::Due));
    assert_eq!(q.filters.len(), 1);
    assert!(parse_query(&format!("{}\n{}", "frobnicate", "done"), d).is_err());
}
