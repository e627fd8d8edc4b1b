//! The task editor: a popup that shows the fields of the selected task and
//! edits one field at a time.
use super::{
    typing_holds, indices_valid, selected_task, step_holds, task_op_step, App, AppView, Effect, Key, KeyPress,
    Slot, Step, TaskOp,
};
use super::editor::editor_lines;
use crate::task::date::{self, is_digit, iso_text, lemma_iso_canonical, lemma_iso_text_chars, next_day, prev_day, Date};
use crate::task::parser::read_date;
use crate::task::query::is_word;
use crate::task::{Priority, Task, TaskStatus, TaskView};
use crate::text::{self, lowercase, trim};
use vstd::prelude::*;

verus! {

/// The fields of the task editor, in the order that Tab walks them.
#[derive(Clone, Copy, Debug, PartialEq, Eq, Structural)]
pub enum EditField {
    Description,
    Status,
    Priority,
    DueDate,
    ScheduledDate,
    Recurrence,
}

pub open spec fn next_field_spec(f: EditField) -> EditField {
    match f {
        EditField::Description => EditField::Status,
        EditField::Status => EditField::Priority,
        EditField::Priority => EditField::DueDate,
        EditField::DueDate => EditField::ScheduledDate,
        EditField::ScheduledDate => EditField::Recurrence,
        EditField::Recurrence => EditField::Description,
    }
}

pub open spec fn prev_field_spec(f: EditField) -> EditField {
    match f {
        EditField::Description => EditField::Recurrence,
        EditField::Status => EditField::Description,
        EditField::Priority => EditField::Status,
        EditField::DueDate => EditField::Priority,
        EditField::ScheduledDate => EditField::DueDate,
        EditField::Recurrence => EditField::ScheduledDate,
    }
}

/// The field after `f`, the last one wrapping to the first.
pub fn next_field(f: EditField) -> (r: EditField)
    ensures
        r == next_field_spec(f),
{
    match f {
        EditField::Description => EditField::Status,
        EditField::Status => EditField::Priority,
        EditField::Priority => EditField::DueDate,
        EditField::DueDate => EditField::ScheduledDate,
        EditField::ScheduledDate => EditField::Recurrence,
        EditField::Recurrence => EditField::Description,
    }
}

/// The field before `f`, the first one wrapping to the last.
pub fn prev_field(f: EditField) -> (r: EditField)
    ensures
        r == prev_field_spec(f),
{
    match f {
        EditField::Description => EditField::Recurrence,
        EditField::Status => EditField::Description,
        EditField::Priority => EditField::Status,
        EditField::DueDate => EditField::Priority,
        EditField::ScheduledDate => EditField::DueDate,
        EditField::Recurrence => EditField::ScheduledDate,
    }
}

/// Tab and Shift-Tab undo each other, and six Tabs come back to the field.
pub proof fn lemma_field_navigation(f: EditField)
    ensures
        prev_field_spec(next_field_spec(f)) == f,
        next_field_spec(prev_field_spec(f)) == f,
        next_field_spec(
            next_field_spec(
                next_field_spec(next_field_spec(next_field_spec(next_field_spec(f)))),
            ),
        ) == f,
{
}

pub open spec fn status_text(s: TaskStatus) -> Seq<char> {
    match s {
        TaskStatus::Todo => "todo"@,
        TaskStatus::Done => "done"@,
    }
}

/// How the editor shows a status.
pub fn status_display(s: TaskStatus) -> (r: &'static str)
    ensures
        r@ == status_text(s),
{
    match s {
        TaskStatus::Todo => "todo",
        TaskStatus::Done => "done",
    }
}

pub open spec fn priority_name(p: Priority) -> Seq<char> {
    match p {
        Priority::Highest => "highest"@,
        Priority::High => "high"@,
        Priority::Medium => "medium"@,
        Priority::Low => "low"@,
        Priority::Lowest => "lowest"@,
        Priority::Unset => "none"@,
    }
}

/// How the editor shows a priority.
pub fn priority_display(p: Priority) -> (r: &'static str)
    ensures
        r@ == priority_name(p),
{
    match p {
        Priority::Highest => "highest",
        Priority::High => "high",
        Priority::Medium => "medium",
        Priority::Low => "low",
        Priority::Lowest => "lowest",
        Priority::Unset => "none",
    }
}

pub open spec fn date_shown(d: Option<Date>) -> Seq<char> {
    match d {
        Some(x) => iso_text(x),
        None => "none"@,
    }
}

/// How the editor shows an optional date: `YYYY-MM-DD`, or `none`.
pub fn date_display(d: Option<Date>) -> (r: String)
    ensures
        r@ == date_shown(d),
{
    match d {
        Some(x) => date::format_date(x, "%Y-%m-%d"),
        None => "none".to_owned(),
    }
}

/// The date that a typed text names: nothing for an empty text, `none` or
/// `clear`; `today`, `tomorrow` or `yesterday` from `today`; else a
/// `%Y-%m-%d` date, if chrono reads one. Surrounding whitespace does not
/// count.
pub open spec fn date_input(s: Seq<char>, today: Date) -> Option<Date> {
    let t = trim(s);
    if t.len() == 0 || t == "none"@ || t == "clear"@ {
        None
    } else if t == "today"@ {
        Some(today)
    } else if t == "tomorrow"@ {
        next_day(today)
    } else if t == "yesterday"@ {
        prev_day(today)
    } else {
        read_date(t, '-', "%Y-%m-%d"@)
    }
}

/// The date that a typed text names (see `date_input`).
pub fn parse_date_input(s: &str, today: Date) -> (r: Option<Date>)
    ensures
        r == date_input(s@, today),
{
    let chars = text::chars_of(s);
    let t = text::trim_chars(&chars);
    if t.len() == 0 || is_word(&t, "none") || is_word(&t, "clear") {
        None
    } else if is_word(&t, "today") {
        Some(today)
    } else if is_word(&t, "tomorrow") {
        date::succ_date(today)
    } else if is_word(&t, "yesterday") {
        date::pred_date(today)
    } else {
        let st = text::string_of(&t);
        date::parse_from_str(st.as_str(), "%Y-%m-%d")
    }
}

/// The text that the editor starts with for a field (the priority field is
/// cycled, not typed).
pub open spec fn field_text(t: TaskView, f: EditField) -> Seq<char> {
    match f {
        EditField::Description => t.description,
        EditField::Status => status_text(t.status),
        EditField::Priority => seq![],
        EditField::DueDate => match t.due_date {
            Some(d) => iso_text(d),
            None => seq![],
        },
        EditField::ScheduledDate => match t.scheduled_date {
            Some(d) => iso_text(d),
            None => seq![],
        },
        EditField::Recurrence => match t.recurrence {
            Some(r) => r,
            None => seq![],
        },
    }
}

/// The status that a typed text names: done for `done`, `x` or `[x]` in
/// any case, else todo.
pub open spec fn status_input(s: Seq<char>) -> TaskStatus {
    let l = lowercase(s);
    if l == "done"@ || l == "x"@ || l == "[x]"@ {
        TaskStatus::Done
    } else {
        TaskStatus::Todo
    }
}

/// The priority that a typed text names, by word in any case or by emoji;
/// unset for anything else.
pub open spec fn priority_input(s: Seq<char>) -> Priority {
    let l = lowercase(s);
    if l == "highest"@ || l == "\u{1F53A}"@ {
        Priority::Highest
    } else if l == "high"@ || l == "\u{23EB}"@ {
        Priority::High
    } else if l == "medium"@ || l == "\u{1F53C}"@ {
        Priority::Medium
    } else if l == "low"@ || l == "\u{1F53D}"@ {
        Priority::Low
    } else if l == "lowest"@ || l == "\u{23EC}"@ {
        Priority::Lowest
    } else {
        Priority::Unset
    }
}

/// The task with the field set from the typed text.
pub open spec fn apply_text(t: TaskView, f: EditField, s: Seq<char>, today: Date) -> TaskView {
    match f {
        EditField::Description => TaskView { description: s, ..t },
        EditField::Status => TaskView { status: status_input(s), ..t },
        EditField::Priority => TaskView { priority: priority_input(s), ..t },
        EditField::DueDate => TaskView { due_date: date_input(s, today), ..t },
        EditField::ScheduledDate => TaskView { scheduled_date: date_input(s, today), ..t },
        EditField::Recurrence => TaskView {
            recurrence: if s.len() == 0 {
                None
            } else {
                Some(s)
            },
            ..t
        },
    }
}

/// The text that the editor starts with for a field of the task.
pub fn field_start_text(t: &Task, f: EditField) -> (r: String)
    ensures
        r@ == field_text(t@, f),
{
    match f {
        EditField::Description => t.description.clone(),
        EditField::Status => status_display(t.status).to_owned(),
        EditField::Priority => String::new(),
        EditField::DueDate => match t.due_date {
            Some(d) => date::format_date(d, "%Y-%m-%d"),
            None => String::new(),
        },
        EditField::ScheduledDate => match t.scheduled_date {
            Some(d) => date::format_date(d, "%Y-%m-%d"),
            None => String::new(),
        },
        EditField::Recurrence => match &t.recurrence {
            Some(r) => r.clone(),
            None => String::new(),
        },
    }
}

fn status_from(s: &String) -> (r: TaskStatus)
    ensures
        r == status_input(s@),
{
    let l = text::lowercase_chars(&text::chars_of(s.as_str()));
    if is_word(&l, "done") || is_word(&l, "x") || is_word(&l, "[x]") {
        TaskStatus::Done
    } else {
        TaskStatus::Todo
    }
}

fn priority_from(s: &String) -> (r: Priority)
    ensures
        r == priority_input(s@),
{
    let l = text::lowercase_chars(&text::chars_of(s.as_str()));
    if is_word(&l, "highest") || is_word(&l, "\u{1F53A}") {
        Priority::Highest
    } else if is_word(&l, "high") || is_word(&l, "\u{23EB}") {
        Priority::High
    } else if is_word(&l, "medium") || is_word(&l, "\u{1F53C}") {
        Priority::Medium
    } else if is_word(&l, "low") || is_word(&l, "\u{1F53D}") {
        Priority::Low
    } else if is_word(&l, "lowest") || is_word(&l, "\u{23EC}") {
        Priority::Lowest
    } else {
        Priority::Unset
    }
}

/// Sets the field of the task from the typed text.
pub fn set_field_text(t: &mut Task, f: EditField, s: String, today: Date)
    ensures
        final(t)@ == apply_text(old(t)@, f, s@, today),
{
    match f {
        EditField::Description => {
            t.description = s;
        },
        EditField::Status => {
            t.status = status_from(&s);
        },
        EditField::Priority => {
            t.priority = priority_from(&s);
        },
        EditField::DueDate => {
            t.due_date = parse_date_input(s.as_str(), today);
        },
        EditField::ScheduledDate => {
            t.scheduled_date = parse_date_input(s.as_str(), today);
        },
        EditField::Recurrence => {
            if s.as_str().is_empty() {
                t.recurrence = None;
            } else {
                t.recurrence = Some(s);
            }
        },
    }
}

/// A change of the selected task as a step.
pub open spec fn op_step(a: AppView, op: TaskOp, today: Date) -> Step {
    Step::Done(task_op_step(a, op, today).0, task_op_step(a, op, today).1)
}

/// What `e` (or Space) does: the priority field cycles the priority; any
/// other field opens the editor on the field's text.
pub open spec fn start_edit_step(a: AppView, today: Date) -> Step {
    match selected_task(a) {
        None => Step::Done(a, Effect::Nothing),
        Some(i) => if a.task_edit_field == EditField::Priority {
            op_step(a, TaskOp::CyclePriority, today)
        } else {
            Step::Open(a, Slot::TaskEdit, field_text(a.tasks[i as int], a.task_edit_field))
        },
    }
}

/// What saving the field editor does: the selected task takes the first
/// line of the editor as the text of the field, and is written back.
pub open spec fn apply_edit_spec(a: AppView, today: Date) -> (AppView, Effect) {
    match a.task_edit {
        None => (a, Effect::Nothing),
        Some(e) => match selected_task(a) {
            None => (a, Effect::Nothing),
            Some(i) => (
                AppView {
                    tasks: a.tasks.update(
                        i as int,
                        apply_text(a.tasks[i as int], a.task_edit_field, editor_lines(e)[0], today),
                    ),
                    dirty: true,
                    ..a
                },
                Effect::Persist(i),
            ),
        },
    }
}

/// What a key does while the task editor is open.
pub open spec fn modal_step(a: AppView, k: Key, today: Date) -> Step {
    if a.task_edit is Some {
        match k {
            Key::Esc => Step::Done(AppView { task_edit: None, ..a }, Effect::Nothing),
            Key::Enter => Step::Done(
                AppView { task_edit: None, ..apply_edit_spec(a, today).0 },
                apply_edit_spec(a, today).1,
            ),
            _ => Step::Forward(Slot::TaskEdit),
        }
    } else {
        match k {
            Key::Esc => Step::Done(AppView { show_modal: false, ..a }, Effect::Nothing),
            Key::Enter => Step::Done(AppView { show_modal: false, dirty: true, ..a }, Effect::Nothing),
            Key::Tab | Key::Down => Step::Done(
                AppView { task_edit_field: next_field_spec(a.task_edit_field), ..a },
                Effect::Nothing,
            ),
            Key::BackTab | Key::Up => Step::Done(
                AppView { task_edit_field: prev_field_spec(a.task_edit_field), ..a },
                Effect::Nothing,
            ),
            Key::Char('e') | Key::Char(' ') => start_edit_step(a, today),
            Key::Char('x') => op_step(a, TaskOp::ToggleDone, today),
            Key::Char('p') => op_step(a, TaskOp::CyclePriority, today),
            Key::Char('d') => op_step(a, TaskOp::DueToday, today),
            Key::Char('D') => op_step(a, TaskOp::DueTomorrow, today),
            Key::Char('s') => op_step(a, TaskOp::ScheduledToday, today),
            Key::Char('S') => op_step(a, TaskOp::ScheduledTomorrow, today),
            Key::Char('b') => op_step(a, TaskOp::BumpScheduled, today),
            Key::Char('r') => op_step(a, TaskOp::ClearRecurrence, today),
            _ => Step::Done(a, Effect::Nothing),
        }
    }
}

/// Starts editing the selected field (or cycles the priority).
pub fn start_field_edit(app: &mut App, today: Date) -> (r: Effect)
    requires
        indices_valid(old(app)@),
    ensures
        step_holds(old(app)@, final(app)@, r, start_edit_step(old(app)@, today)),
{
    let idx = match app.selected_task_index() {
        Some(i) => i,
        None => {
            return Effect::Nothing;
        },
    };
    if app.task_edit_field == EditField::Priority {
        return app.apply_task_op(TaskOp::CyclePriority, today);
    }
    let text = field_start_text(&app.tasks[idx], app.task_edit_field);
    app.open_editor(Slot::TaskEdit, text, true);
    Effect::Nothing
}

/// Saves the field editor's text into the selected task.
pub fn apply_field_edit(app: &mut App, today: Date) -> (r: Effect)
    requires
        indices_valid(old(app)@),
    ensures
        (final(app)@, r) == apply_edit_spec(old(app)@, today),
{
    let text = match &app.task_edit {
        Some(e) => {
            let ls = e.lines();
            assert(ls@[0]@ == editor_lines(*e)[0]);
            ls[0].clone()
        },
        None => {
            return Effect::Nothing;
        },
    };
    let idx = match app.selected_task_index() {
        Some(i) => i,
        None => {
            return Effect::Nothing;
        },
    };
    let mut t = app.tasks[idx].duplicate();
    set_field_text(&mut t, app.task_edit_field, text, today);
    let ghost tv = t@;
    app.tasks.set(idx, t);
    app.dirty = true;
    assert(crate::task::parser::views(app.tasks@) =~= old(app)@.tasks.update(idx as int, tv));
    assert(app@ =~= apply_edit_spec(old(app)@, today).0);
    Effect::Persist(idx)
}

/// Handles a key while the field editor is open: Esc drops the edit, Enter
/// saves it, any other key edits the text.
pub fn handle_field_edit(app: &mut App, key: &KeyPress, today: Date) -> (r: Effect)
    requires
        indices_valid(old(app)@),
        old(app)@.task_edit is Some,
    ensures
        step_holds(old(app)@, final(app)@, r, modal_step(old(app)@, key.code, today)),
        typing_holds(old(app)@, final(app)@, modal_step(old(app)@, key.code, today), key.code, key.ctrl, key.alt, key.shift),
{
    match key.code {
        Key::Esc => {
            app.task_edit = None;
            assert(app@ =~= (AppView { task_edit: None, ..old(app)@ }));
            Effect::Nothing
        },
        Key::Enter => {
            let r = apply_field_edit(app, today);
            let ghost mid = app@;
            app.task_edit = None;
            assert(app@ =~= (AppView { task_edit: None, ..mid }));
            r
        },
        _ => {
            app.forward_key(Slot::TaskEdit, key);
            Effect::Nothing
        },
    }
}

/// Handles a key while the task editor is open.
pub fn handle_key(app: &mut App, key: &KeyPress, today: Date) -> (r: Effect)
    requires
        indices_valid(old(app)@),
    ensures
        step_holds(old(app)@, final(app)@, r, modal_step(old(app)@, key.code, today)),
        typing_holds(old(app)@, final(app)@, modal_step(old(app)@, key.code, today), key.code, key.ctrl, key.alt, key.shift),
{
    if app.task_edit.is_some() {
        return handle_field_edit(app, key, today);
    }
    match key.code {
        Key::Esc => {
            app.show_modal = false;
            assert(app@ =~= (AppView { show_modal: false, ..old(app)@ }));
            Effect::Nothing
        },
        Key::Enter => {
            app.show_modal = false;
            app.dirty = true;
            assert(app@ =~= (AppView { show_modal: false, dirty: true, ..old(app)@ }));
            Effect::Nothing
        },
        Key::Tab | Key::Down => {
            app.task_edit_field = next_field(app.task_edit_field);
            assert(app@ =~= (AppView {
                task_edit_field: next_field_spec(old(app)@.task_edit_field),
                ..old(app)@
            }));
            Effect::Nothing
        },
        Key::BackTab | Key::Up => {
            app.task_edit_field = prev_field(app.task_edit_field);
            assert(app@ =~= (AppView {
                task_edit_field: prev_field_spec(old(app)@.task_edit_field),
                ..old(app)@
            }));
            Effect::Nothing
        },
        Key::Char('e') | Key::Char(' ') => start_field_edit(app, today),
        Key::Char('x') => app.apply_task_op(TaskOp::ToggleDone, today),
        Key::Char('p') => app.apply_task_op(TaskOp::CyclePriority, today),
        Key::Char('d') => app.apply_task_op(TaskOp::DueToday, today),
        Key::Char('D') => app.apply_task_op(TaskOp::DueTomorrow, today),
        Key::Char('s') => app.apply_task_op(TaskOp::ScheduledToday, today),
        Key::Char('S') => app.apply_task_op(TaskOp::ScheduledTomorrow, today),
        Key::Char('b') => app.apply_task_op(TaskOp::BumpScheduled, today),
        Key::Char('r') => app.apply_task_op(TaskOp::ClearRecurrence, today),
        _ => Effect::Nothing,
    }
}

/// A date that the editor shows in four year digits: valid, of a year from
/// 0 to 9999.
pub open spec fn date_reads_back(d: Option<Date>) -> bool {
    d matches Some(x) ==> x.wf() && 0 <= x.ymd().0 <= 9999
}

proof fn lemma_iso_input(d: Date, today: Date)
    requires
        d.wf(),
        0 <= d.ymd().0 <= 9999,
    ensures
        date_input(iso_text(d), today) == Some(d),
{
    let s = iso_text(d);
    lemma_iso_text_chars(d);
    lemma_iso_canonical(d);
    assert(is_digit(s[0]) || s[0] == '-');
    crate::text::lemma_trim_id(s);
    assert(trim(s) == s);
    reveal_strlit("none");
    reveal_strlit("clear");
    reveal_strlit("today");
    reveal_strlit("tomorrow");
    reveal_strlit("yesterday");
    assert(s != "none"@ && s != "clear"@ && s != "today"@ && s != "tomorrow"@ && s != "yesterday"@)
        by {
        assert("none"@[0] == 'n' && "clear"@[0] == 'c' && "today"@[0] == 't' && "tomorrow"@[0]
            == 't' && "yesterday"@[0] == 'y');
    }
}

/// Opening a field in the editor and saving it unchanged leaves the task
/// as it was (the priority field is cycled, not typed; an empty recurrence
/// reads back as none; a date needs four year digits).
pub proof fn lemma_field_edit_unchanged(t: TaskView, f: EditField, today: Date)
    requires
        f != EditField::Priority,
        f == EditField::Recurrence ==> t.recurrence != Some(Seq::<char>::empty()),
        f == EditField::DueDate ==> date_reads_back(t.due_date),
        f == EditField::ScheduledDate ==> date_reads_back(t.scheduled_date),
    ensures
        apply_text(t, f, field_text(t, f), today) == t,
{
    reveal_strlit("todo");
    reveal_strlit("done");
    reveal_strlit("x");
    reveal_strlit("[x]");
    reveal_strlit("");
    match f {
        EditField::Status => {
            let s = status_text(t.status);
            assert(crate::text::is_ascii_text(s));
            assert(lowercase(s) =~= s);
            if t.status == TaskStatus::Todo {
                assert(s != "done"@ && s != "x"@ && s != "[x]"@);
            }
            assert(status_input(s) == t.status);
        },
        EditField::DueDate => {
            if let Some(d) = t.due_date {
                lemma_iso_input(d, today);
            } else {
                assert(trim(seq![]) =~= Seq::<char>::empty());
            }
        },
        EditField::ScheduledDate => {
            if let Some(d) = t.scheduled_date {
                lemma_iso_input(d, today);
            } else {
                assert(trim(seq![]) =~= Seq::<char>::empty());
            }
        },
        EditField::Recurrence => {
            if let Some(r) = t.recurrence {
                if r.len() == 0 {
                    assert(r =~= Seq::<char>::empty());
                }
            }
        },
        _ => {},
    }
}

/// `s` spells the small-letter word `w`, each letter small or capital.
pub open spec fn spelled_any_case(s: Seq<char>, w: Seq<char>) -> bool {
    &&& s.len() == w.len()
    &&& forall|j: int|
        0 <= j < s.len() ==> #[trigger] s[j] == w[j] || ('a' <= w[j] <= 'z' && (s[j] as u32) + 32
            == (w[j] as u32))
}

proof fn lemma_capital(c: char)
    requires
        65 <= (c as u32) <= 90,
    ensures
        'A' <= c && c <= 'Z',
{
    assert(('A' as u32) == 65);
}

proof fn lemma_lowercase_spelled(s: Seq<char>, w: Seq<char>)
    requires
        spelled_any_case(s, w),
        forall|j: int| 0 <= j < w.len() ==> (#[trigger] w[j] as u32) < 128 && !('A' <= w[j] <= 'Z'),
    ensures
        lowercase(s) == w,
{
    assert(text::is_ascii_text(s)) by {
        assert forall|j: int| 0 <= j < s.len() implies (#[trigger] s[j] as u32) < 128 by {
            assert(s[j] == w[j] || (s[j] as u32) + 32 == (w[j] as u32));
            assert((w[j] as u32) < 128);
        }
    }
    assert(lowercase(s) =~= w) by {
        assert forall|j: int| 0 <= j < s.len() implies #[trigger] text::ascii_lower_char(s[j])
            == w[j] by {
            if s[j] != w[j] {
                assert('a' <= w[j] <= 'z' && (s[j] as u32) + 32 == (w[j] as u32));
                assert(97 <= (w[j] as u32) <= 122);
                assert(65 <= (s[j] as u32) <= 90);
                lemma_capital(s[j]);
            }
        }
    }
}

/// The status field takes `done`, `x` and `[x]`, each with its letters
/// small or capital in any mix, as done: a task whose status field is
/// saved with such a text is done, and nothing else of it changes.
pub proof fn lemma_done_words(t: TaskView, s: Seq<char>, today: Date)
    requires
        spelled_any_case(s, "done"@) || spelled_any_case(s, "x"@) || spelled_any_case(s, "[x]"@),
    ensures
        status_input(s) == TaskStatus::Done,
        apply_text(t, EditField::Status, s, today) == (TaskView { status: TaskStatus::Done, ..t }),
{
    reveal_strlit("done");
    reveal_strlit("x");
    reveal_strlit("[x]");
    if spelled_any_case(s, "done"@) {
        lemma_lowercase_spelled(s, "done"@);
    } else if spelled_any_case(s, "x"@) {
        lemma_lowercase_spelled(s, "x"@);
    } else {
        lemma_lowercase_spelled(s, "[x]"@);
    }
}

} // verus!

