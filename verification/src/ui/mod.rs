//! The app's state and how keys change it. Reading and writing files,
//! drawing and waiting for keys are left to the program around the library:
//! a key comes in as a `KeyPress`, and what must then be done on disk comes
//! back as an `Effect`.
use crate::config::{view_config_datas, Config, ConfigData, ViewConfig};
use crate::task::date::{self, next_day, Date};
use crate::task::parser::{parse_file_spec, tasks_of_lines, views as task_views};
use crate::task::query::{execute_query_on, execute_query_spec};
use crate::task::sort::{sort_spec, sort_tasks, TaskSort};
use crate::task::{flip_status, next_priority, Task, TaskStatus, TaskView};
use crate::text::{self, join_lines, join_strings};
use crate::view::ViewData;
use crossterm::event::KeyEvent;
use editor::{
    editor_cursor, editor_lines, erased_char, erased_next, moved_to, plain_state,
    step_back, step_forward, typed_char, Editor,
};
use modal::EditField;
use vstd::prelude::*;

pub mod editor;
pub mod filter;
pub mod modal;
pub mod shown;
pub mod task_list;
pub mod view_manager;

verus! {

/// The keys that the app tells apart; any other key is `Other`.
#[derive(Clone, Copy, Debug, PartialEq, Eq, Structural)]
pub enum Key {
    Char(char),
    Enter,
    Esc,
    Tab,
    BackTab,
    Up,
    Down,
    Backspace,
    Delete,
    Left,
    Right,
    Home,
    End,
    Other,
}

/// A key press (never a release): the key as the app tells it apart,
/// whether Ctrl, Alt or Shift is held, and the terminal's event that these
/// describe, which a text field gets where the key is not one of the plain
/// editing keys.
pub struct KeyPress {
    pub code: Key,
    pub ctrl: bool,
    pub alt: bool,
    pub shift: bool,
    pub event: KeyEvent,
}

/// What must be done on disk after a change of the state.
#[derive(Clone, Copy, Debug, PartialEq, Eq, Structural)]
pub enum Effect {
    Nothing,
    /// Write the task with this index back to its file.
    Persist(usize),
    /// Write the settings back to their file.
    SaveConfig,
    /// Read every task of the vault again.
    Rescan,
}

/// The field of the view form that has the focus.
#[derive(Clone, Copy, Debug, PartialEq, Eq, Structural)]
pub enum ViewEditField {
    Name,
    Query,
    SortBy,
    GroupBy,
}

/// The form that adds a view (`editing_index` is `None`) or edits the view
/// with that index: one text field for each part of the view, and the
/// field that has the focus.
pub struct ViewForm {
    pub name: Editor,
    pub query: Editor,
    pub sort_by: Editor,
    pub group_by: Editor,
    pub focus: ViewEditField,
    pub editing_index: Option<usize>,
}

/// The text field of the form for one of its parts.
pub open spec fn form_field(f: ViewForm, which: ViewEditField) -> Editor {
    match which {
        ViewEditField::Name => f.name,
        ViewEditField::Query => f.query,
        ViewEditField::SortBy => f.sort_by,
        ViewEditField::GroupBy => f.group_by,
    }
}

/// The form with the text field of one part replaced.
pub open spec fn with_form_field(f: ViewForm, which: ViewEditField, e: Editor) -> ViewForm {
    match which {
        ViewEditField::Name => ViewForm { name: e, ..f },
        ViewEditField::Query => ViewForm { query: e, ..f },
        ViewEditField::SortBy => ViewForm { sort_by: e, ..f },
        ViewEditField::GroupBy => ViewForm { group_by: e, ..f },
    }
}

/// The state of the app.
pub struct App {
    pub tasks: Vec<Task>,
    pub filtered_indices: Vec<usize>,
    pub selected_index: usize,
    pub views: Vec<crate::view::View>,
    pub current_view: crate::view::View,
    pub config: Config,
    pub workspace_path: Option<String>,
    pub config_path: String,
    pub should_quit: bool,
    pub show_help: bool,
    pub show_modal: bool,
    pub show_view_manager: bool,
    pub view_manager_selected: Option<usize>,
    pub view_form: Option<ViewForm>,
    pub task_edit: Option<Editor>,
    pub task_edit_field: EditField,
    pub dirty: bool,
    pub status_message: Option<String>,
    pub filter_text: String,
    pub filter_textarea: Option<Editor>,
}

/// The state of the app as plain values.
#[verifier::ext_equal]
pub struct AppView {
    pub tasks: Seq<TaskView>,
    pub filtered_indices: Seq<usize>,
    pub selected_index: usize,
    pub views: Seq<ViewData>,
    pub current_view: ViewData,
    pub config: ConfigData,
    pub workspace_path: Option<Seq<char>>,
    pub config_path: Seq<char>,
    pub should_quit: bool,
    pub show_help: bool,
    pub show_modal: bool,
    pub show_view_manager: bool,
    pub view_manager_selected: Option<usize>,
    pub view_form: Option<ViewForm>,
    pub task_edit: Option<Editor>,
    pub task_edit_field: EditField,
    pub dirty: bool,
    pub status_message: Option<Seq<char>>,
    pub filter_text: Seq<char>,
    pub filter_textarea: Option<Editor>,
}

pub open spec fn view_datas(v: Seq<crate::view::View>) -> Seq<ViewData> {
    v.map_values(|x: crate::view::View| x@)
}

pub open spec fn opt_text(s: Option<String>) -> Option<Seq<char>> {
    match s {
        Some(t) => Some(t@),
        None => None,
    }
}

impl View for App {
    type V = AppView;

    open spec fn view(&self) -> AppView {
        AppView {
            tasks: task_views(self.tasks@),
            filtered_indices: self.filtered_indices@,
            selected_index: self.selected_index,
            views: view_datas(self.views@),
            current_view: self.current_view@,
            config: self.config@,
            workspace_path: opt_text(self.workspace_path),
            config_path: self.config_path@,
            should_quit: self.should_quit,
            show_help: self.show_help,
            show_modal: self.show_modal,
            show_view_manager: self.show_view_manager,
            view_manager_selected: self.view_manager_selected,
            view_form: self.view_form,
            task_edit: self.task_edit,
            task_edit_field: self.task_edit_field,
            dirty: self.dirty,
            status_message: opt_text(self.status_message),
            filter_text: self.filter_text@,
            filter_textarea: self.filter_textarea,
        }
    }
}

/// Every shown index points at a task.
pub open spec fn indices_valid(a: AppView) -> bool {
    forall|k: int| 0 <= k < a.filtered_indices.len() ==> #[trigger] a.filtered_indices[k] < a.tasks.len()
}

/// The index of the selected task, if the selection is on a shown task.
pub open spec fn selected_task(a: AppView) -> Option<usize> {
    if a.selected_index < a.filtered_indices.len() {
        Some(a.filtered_indices[a.selected_index as int])
    } else {
        None
    }
}

/// The index of the first view with this name, or the number of views.
pub open spec fn named_from(vs: Seq<ViewData>, name: Seq<char>, i: int) -> int
    decreases vs.len() - i,
{
    if i < 0 || i >= vs.len() {
        vs.len() as int
    } else if vs[i].name == name {
        i
    } else {
        named_from(vs, name, i + 1)
    }
}

pub open spec fn default_view_data() -> ViewData {
    ViewData { name: "All Tasks"@, query: ""@, sort_by: "due_date"@, group_by: ""@ }
}

/// The view shown first: the one named as the default, else the first,
/// else `All Tasks`.
pub open spec fn start_view(vs: Seq<ViewData>, name: Seq<char>) -> ViewData {
    let i = named_from(vs, name, 0);
    if i < vs.len() {
        vs[i]
    } else if vs.len() > 0 {
        vs[0]
    } else {
        default_view_data()
    }
}

/// A change of the selected task.
#[derive(Clone, Copy, Debug, PartialEq, Eq, Structural)]
pub enum TaskOp {
    ToggleDone,
    CyclePriority,
    DueToday,
    DueTomorrow,
    ScheduledToday,
    ScheduledTomorrow,
    BumpScheduled,
    ClearRecurrence,
}

/// The task after the change, or nothing where the day after does not
/// exist.
pub open spec fn op_result(t: TaskView, op: TaskOp, today: Date) -> Option<TaskView> {
    match op {
        TaskOp::ToggleDone => {
            let s = flip_status(t.status);
            Some(
                TaskView {
                    status: s,
                    done_date: if s == TaskStatus::Done {
                        Some(today)
                    } else {
                        None
                    },
                    ..t
                },
            )
        },
        TaskOp::CyclePriority => Some(TaskView { priority: next_priority(t.priority), ..t }),
        TaskOp::DueToday => Some(TaskView { due_date: Some(today), ..t }),
        TaskOp::DueTomorrow => match next_day(today) {
            Some(d) => Some(TaskView { due_date: Some(d), ..t }),
            None => None,
        },
        TaskOp::ScheduledToday => Some(TaskView { scheduled_date: Some(today), ..t }),
        TaskOp::ScheduledTomorrow => match next_day(today) {
            Some(d) => Some(TaskView { scheduled_date: Some(d), ..t }),
            None => None,
        },
        TaskOp::BumpScheduled => {
            let base = match t.scheduled_date {
                Some(d) => d,
                None => today,
            };
            match next_day(base) {
                Some(d) => Some(TaskView { scheduled_date: Some(d), ..t }),
                None => None,
            }
        },
        TaskOp::ClearRecurrence => Some(TaskView { recurrence: None, ..t }),
    }
}

/// The state after a change of the selected task, and the write it asks
/// for.
pub open spec fn task_op_step(a: AppView, op: TaskOp, today: Date) -> (AppView, Effect) {
    match selected_task(a) {
        None => (a, Effect::Nothing),
        Some(i) => match op_result(a.tasks[i as int], op, today) {
            Some(t) => (
                AppView { tasks: a.tasks.update(i as int, t), dirty: true, ..a },
                Effect::Persist(i),
            ),
            None => (a, Effect::Nothing),
        },
    }
}

pub open spec fn move_down_spec(a: AppView) -> AppView {
    if a.filtered_indices.len() == 0 {
        a
    } else {
        AppView {
            selected_index: ((a.selected_index + 1) % (a.filtered_indices.len() as int)) as usize,
            ..a
        }
    }
}

pub open spec fn move_up_spec(a: AppView) -> AppView {
    if a.filtered_indices.len() == 0 {
        a
    } else {
        AppView {
            selected_index: if a.selected_index == 0 {
                (a.filtered_indices.len() - 1) as usize
            } else {
                (a.selected_index - 1) as usize
            },
            ..a
        }
    }
}

/// Moving down and then up comes back to a selection on the list.
pub proof fn lemma_move_down_up(a: AppView)
    requires
        a.selected_index < a.filtered_indices.len(),
        a.filtered_indices.len() <= usize::MAX,
    ensures
        move_up_spec(move_down_spec(a)) == a,
        move_down_spec(move_up_spec(a)) == a,
{
    let n = a.filtered_indices.len() as int;
    let s = a.selected_index as int;
    let d = move_down_spec(a);
    let u = move_up_spec(a);
    if s + 1 < n {
        assert((s + 1) % n == s + 1) by (nonlinear_arith)
            requires
                0 <= s + 1 < n,
        ;
        assert(d.selected_index == s + 1);
    } else {
        assert((s + 1) % n == 0) by (nonlinear_arith)
            requires
                s + 1 == n,
                n > 0,
        ;
        assert(d.selected_index == 0);
    }
    assert(move_up_spec(d) =~= a);
    if s > 0 {
        assert(u.selected_index == s - 1);
        assert(s % n == s) by (nonlinear_arith)
            requires
                0 <= s < n,
        ;
    } else {
        assert(u.selected_index == n - 1);
        assert((n - 1 + 1) % n == 0) by (nonlinear_arith)
            requires
                n > 0,
        ;
    }
    assert(move_down_spec(u) =~= a);
}

/// The text fields of the app.
#[derive(Clone, Copy, Debug, PartialEq, Eq, Structural)]
pub enum Slot {
    Filter,
    TaskEdit,
    ViewEdit,
}

pub open spec fn editor_in(a: AppView, slot: Slot) -> Option<Editor> {
    match slot {
        Slot::Filter => a.filter_textarea,
        Slot::TaskEdit => a.task_edit,
        Slot::ViewEdit => match a.view_form {
            Some(f) => Some(form_field(f, f.focus)),
            None => None,
        },
    }
}

pub open spec fn with_editor(a: AppView, slot: Slot, e: Option<Editor>) -> AppView {
    match slot {
        Slot::Filter => AppView { filter_textarea: e, ..a },
        Slot::TaskEdit => AppView { task_edit: e, ..a },
        Slot::ViewEdit => match (a.view_form, e) {
            (Some(f), Some(x)) => AppView { view_form: Some(with_form_field(f, f.focus, x)), ..a },
            _ => AppView { view_form: None, ..a },
        },
    }
}

/// The state after a key went to a text field that now holds `e`: the
/// filter text follows the filter field's lines.
pub open spec fn forwarded(a: AppView, slot: Slot, e: Editor) -> AppView {
    let b = with_editor(a, slot, Some(e));
    if slot == Slot::Filter {
        AppView { filter_text: join_lines(editor_lines(e)), dirty: true, ..b }
    } else {
        b
    }
}

/// What a key does: a new state and what to write; or a new state with a
/// text field opened on a text; or the key goes to a text field as it is.
pub enum Step {
    Done(AppView, Effect),
    Open(AppView, Slot, Seq<char>),
    /// The view form opens on the four texts (name, query, sort by, group
    /// by), adding a view or editing the one with the index.
    OpenForm(AppView, Seq<char>, Seq<char>, Seq<char>, Seq<char>, Option<usize>),
    Forward(Slot),
}

/// The state `after` and the effect `r` are what the step says.
pub open spec fn step_holds(before: AppView, after: AppView, r: Effect, st: Step) -> bool {
    match st {
        Step::Done(s, e) => after == s && r == e,
        Step::Open(s, slot, text) => {
            &&& r == Effect::Nothing
            &&& editor_in(after, slot) matches Some(e)
            &&& editor_lines(e) == seq![text]
            &&& plain_state(e)
            &&& after == with_editor(s, slot, Some(e))
        },
        Step::OpenForm(s, name, query, sort_by, group_by, idx) => {
            &&& r == Effect::Nothing
            &&& after.view_form matches Some(f)
            &&& editor_lines(f.name) == seq![name] && plain_state(f.name)
            &&& editor_lines(f.query) == seq![query] && plain_state(f.query)
            &&& editor_lines(f.sort_by) == seq![sort_by] && plain_state(f.sort_by)
            &&& editor_lines(f.group_by) == seq![group_by] && plain_state(f.group_by)
            &&& f.focus == ViewEditField::Name
            &&& f.editing_index == idx
            &&& after == AppView { view_form: Some(f), ..s }
        },
        Step::Forward(slot) => {
            &&& r == Effect::Nothing
            &&& editor_in(after, slot) matches Some(e)
            &&& after == forwarded(before, slot, e)
        },
    }
}

/// What a key typed into a text field does, where the field has nothing
/// selected and its cursor in the text, and neither Ctrl nor Alt is held:
/// a char (other than a line break) goes in at the cursor, Backspace takes
/// out the char before it and Delete the char after it (see `typed_char`,
/// `erased_char`, `erased_next`); without Shift, Left and Right move the
/// cursor one step (see `step_back`, `step_forward`), Home to the start and
/// End to the end of its line.
pub open spec fn typed_edit(
    before: Editor,
    after: Editor,
    k: Key,
    ctrl: bool,
    alt: bool,
    shift: bool,
) -> bool {
    let (r, c) = editor_cursor(before);
    let ls = editor_lines(before);
    (!ctrl && !alt && plain_state(before)) ==> match k {
        Key::Char(ch) => (ch != '\n' && ch != '\r') ==> typed_char(before, after, ch),
        Key::Backspace => erased_char(before, after),
        Key::Delete => erased_next(before, after),
        Key::Left => !shift ==> moved_to(before, after, step_back(ls, r, c)),
        Key::Right => !shift ==> moved_to(before, after, step_forward(ls, r, c)),
        Key::Home => !shift ==> moved_to(before, after, (r, 0usize)),
        Key::End => !shift ==> moved_to(before, after, (r, ls[r as int].len() as usize)),
        _ => true,
    }
}

/// Where the step sends the key to a text field, the field took it as
/// `typed_edit` says.
pub open spec fn typing_holds(
    before: AppView,
    after: AppView,
    st: Step,
    k: Key,
    ctrl: bool,
    alt: bool,
    shift: bool,
) -> bool {
    match st {
        Step::Forward(slot) => match (editor_in(before, slot), editor_in(after, slot)) {
            (Some(e0), Some(e1)) => typed_edit(e0, e1, k, ctrl, alt, shift),
            _ => true,
        },
        _ => true,
    }
}

/// Gives the key to a text field: the plain editing keys through the text
/// area's own calls for them, any other key through its key input.
fn feed(e: &mut Editor, key: &KeyPress)
    ensures
        typed_edit(*old(e), *final(e), key.code, key.ctrl, key.alt, key.shift),
{
    if key.ctrl || key.alt {
        e.input(&key.event);
        return;
    }
    match key.code {
        Key::Char(ch) => {
            if ch != '\n' && ch != '\r' {
                e.insert_char(ch);
            } else {
                e.input(&key.event);
            }
        },
        Key::Backspace => e.delete_char(),
        Key::Delete => e.delete_next_char(),
        Key::Left if !key.shift => e.move_back(),
        Key::Right if !key.shift => e.move_forward(),
        Key::Home if !key.shift => e.move_head(),
        Key::End if !key.shift => e.cursor_to_end(),
        _ => e.input(&key.event),
    }
}

impl App {
    /// Sends the key to a text field that is open.
    pub fn forward_key(&mut self, slot: Slot, key: &KeyPress)
        requires
            editor_in(old(self)@, slot) is Some,
        ensures
            step_holds(old(self)@, final(self)@, Effect::Nothing, Step::Forward(slot)),
            typing_holds(old(self)@, final(self)@, Step::Forward(slot), key.code, key.ctrl, key.alt, key.shift),
    {
        match slot {
            Slot::Filter => {
                let mut e = self.filter_textarea.take().unwrap();
                feed(&mut e, key);
                let ls = e.lines();
                self.filter_text = join_strings(&ls);
                self.filter_textarea = Some(e);
                self.dirty = true;
                assert(self@ =~= forwarded(old(self)@, slot, e));
            },
            Slot::TaskEdit => {
                let mut e = self.task_edit.take().unwrap();
                feed(&mut e, key);
                self.task_edit = Some(e);
                assert(self@ =~= forwarded(old(self)@, slot, e));
            },
            Slot::ViewEdit => {
                let mut f = self.view_form.take().unwrap();
                match f.focus {
                    ViewEditField::Name => feed(&mut f.name, key),
                    ViewEditField::Query => feed(&mut f.query, key),
                    ViewEditField::SortBy => feed(&mut f.sort_by, key),
                    ViewEditField::GroupBy => feed(&mut f.group_by, key),
                }
                let ghost e = form_field(f, f.focus);
                self.view_form = Some(f);
                assert(self@ =~= forwarded(old(self)@, slot, e));
            },
        }
    }

    /// Opens a text field on `text` (with the cursor at its end if
    /// `to_end`).
    pub fn open_editor(&mut self, slot: Slot, text: String, to_end: bool)
        requires
            slot != Slot::ViewEdit,
        ensures
            step_holds(old(self)@, final(self)@, Effect::Nothing, Step::Open(old(self)@, slot, text@)),
    {
        let mut e = Editor::new(text);
        e.plain_cursor_line();
        if to_end {
            e.cursor_to_end();
        }
        match slot {
            Slot::Filter => {
                self.filter_textarea = Some(e);
            },
            Slot::TaskEdit => {
                self.task_edit = Some(e);
            },
            Slot::ViewEdit => {},
        }
        assert(self@ =~= with_editor(old(self)@, slot, Some(e)));
    }
}

/// The settings with the views written in.
pub open spec fn synced_config(a: AppView) -> AppView {
    AppView { config: ConfigData { views: a.views, ..a.config }, ..a }
}

/// The state after the write of a task, from its outcome.
pub open spec fn saved_spec(a: AppView, outcome: Result<(), Seq<char>>) -> AppView {
    AppView {
        status_message: match outcome {
            Ok(_) => None,
            Err(e) => Some("Failed to save: "@ + e),
        },
        ..a
    }
}

impl App {
    /// The app for these settings, tasks and views, showing the default view
    /// (or the first, or `All Tasks`), with nothing shown yet.
    pub fn new(config: Config, tasks: Vec<Task>, views: Vec<crate::view::View>, config_path: String) -> (r: App)
        ensures
            r@.tasks == task_views(tasks@),
            r@.views == view_datas(views@),
            r@.config == config@,
            r@.current_view == start_view(view_datas(views@), config@.default_view),
            r@.workspace_path == Some(config@.workspace),
            r@.config_path == config_path@,
            r@.view_manager_selected == if views@.len() > 0 {
                Some(0usize)
            } else {
                None
            },
            r@.filtered_indices.len() == 0,
            r@.selected_index == 0,
            !r@.should_quit && !r@.show_help && !r@.show_modal && !r@.show_view_manager,
            r@.view_form is None && r@.task_edit is None && r@.filter_textarea is None,
            r@.task_edit_field == EditField::Description,
            r@.dirty,
            r@.status_message is None,
            r@.filter_text.len() == 0,
    {
        let ghost vs = view_datas(views@);
        let mut i: usize = 0;
        let mut found = false;
        while i < views.len() && !found
            invariant
                i <= views.len(),
                vs == view_datas(views@),
                named_from(vs, config@.default_view, 0) == named_from(
                    vs,
                    config@.default_view,
                    i as int,
                ),
                found ==> i < views.len() && vs[i as int].name == config@.default_view,
            decreases views.len() - i + if found {
                0int
            } else {
                1int
            },
        {
            assert(vs[i as int] == views@[i as int]@);
            if text::same_text(views[i].name.as_str(), config.defaults.view.as_str()) {
                found = true;
            } else {
                i += 1;
            }
        }
        if !found {
            assert(named_from(vs, config@.default_view, i as int) == vs.len());
        }
        let current_view = if found {
            assert(vs[i as int] == views@[i as int]@);
            views[i].duplicate()
        } else if views.len() > 0 {
            assert(vs[0] == views@[0]@);
            views[0].duplicate()
        } else {
            let v = crate::view::View::default();
            assert(v@ =~= default_view_data());
            v
        };
        let view_manager_selected = if views.len() > 0 {
            Some(0)
        } else {
            None
        };
        let workspace_path = Some(config.workspace.path.clone());
        App {
            tasks,
            filtered_indices: Vec::new(),
            selected_index: 0,
            views,
            current_view,
            config,
            workspace_path,
            config_path,
            should_quit: false,
            show_help: false,
            show_modal: false,
            show_view_manager: false,
            view_manager_selected,
            view_form: None,
            task_edit: None,
            task_edit_field: EditField::Description,
            dirty: true,
            status_message: None,
            filter_text: String::new(),
            filter_textarea: None,
        }
    }

    /// The index of the selected task, if the selection is on a shown task.
    pub fn selected_task_index(&self) -> (r: Option<usize>)
        ensures
            r == selected_task(self@),
    {
        if self.selected_index < self.filtered_indices.len() {
            Some(self.filtered_indices[self.selected_index])
        } else {
            None
        }
    }

    /// Whether every shown index points at a task.
    pub fn check_indices(&self) -> (r: bool)
        ensures
            r == indices_valid(self@),
    {
        let mut k: usize = 0;
        while k < self.filtered_indices.len()
            invariant
                k <= self.filtered_indices.len(),
                forall|j: int| 0 <= j < k ==> #[trigger] self.filtered_indices@[j] < self.tasks@.len(),
            decreases self.filtered_indices.len() - k,
        {
            if self.filtered_indices[k] >= self.tasks.len() {
                assert(self@.filtered_indices[k as int] >= self@.tasks.len());
                return false;
            }
            k += 1;
        }
        assert(self@.tasks.len() == self.tasks@.len());
        true
    }

    /// The next shown task, the last wrapping to the first.
    pub fn move_down(&mut self)
        ensures
            final(self)@ == move_down_spec(old(self)@),
    {
        if self.filtered_indices.len() > 0 {
            self.selected_index = ((self.selected_index as u128 + 1) % (self.filtered_indices.len() as u128)) as usize;
        }
        assert(self@ =~= move_down_spec(old(self)@));
    }

    /// The previous shown task, the first wrapping to the last.
    pub fn move_up(&mut self)
        ensures
            final(self)@ == move_up_spec(old(self)@),
    {
        if self.filtered_indices.len() > 0 {
            self.selected_index = if self.selected_index == 0 {
                self.filtered_indices.len() - 1
            } else {
                self.selected_index - 1
            };
        }
        assert(self@ =~= move_up_spec(old(self)@));
    }

    /// Applies a change to the selected task and asks for its write.
    pub fn apply_task_op(&mut self, op: TaskOp, today: Date) -> (r: Effect)
        requires
            indices_valid(old(self)@),
        ensures
            (final(self)@, r) == task_op_step(old(self)@, op, today),
    {
        let idx = match self.selected_task_index() {
            Some(i) => i,
            None => {
                return Effect::Nothing;
            },
        };
        let mut t = self.tasks[idx].duplicate();
        match op {
            TaskOp::ToggleDone => {
                t.status.cycle();
                t.done_date = match t.status {
                    TaskStatus::Done => Some(today),
                    TaskStatus::Todo => None,
                };
            },
            TaskOp::CyclePriority => {
                t.priority.cycle();
            },
            TaskOp::DueToday => {
                t.due_date = Some(today);
            },
            TaskOp::DueTomorrow => match date::succ_date(today) {
                Some(d) => {
                    t.due_date = Some(d);
                },
                None => {
                    return Effect::Nothing;
                },
            },
            TaskOp::ScheduledToday => {
                t.scheduled_date = Some(today);
            },
            TaskOp::ScheduledTomorrow => match date::succ_date(today) {
                Some(d) => {
                    t.scheduled_date = Some(d);
                },
                None => {
                    return Effect::Nothing;
                },
            },
            TaskOp::BumpScheduled => {
                let base = match t.scheduled_date {
                    Some(d) => d,
                    None => today,
                };
                match date::succ_date(base) {
                    Some(d) => {
                        t.scheduled_date = Some(d);
                    },
                    None => {
                        return Effect::Nothing;
                    },
                }
            },
            TaskOp::ClearRecurrence => {
                t.recurrence = None;
            },
        }
        let ghost tv = t@;
        self.tasks.set(idx, t);
        self.dirty = true;
        assert(task_views(self.tasks@) =~= task_views(old(self).tasks@).update(idx as int, tv));
        assert(self@ =~= task_op_step(old(self)@, op, today).0);
        Effect::Persist(idx)
    }

    /// Todo becomes done with today as its done date; done becomes todo
    /// with no done date.
    pub fn toggle_done_on(&mut self, today: Date) -> (r: Effect)
        requires
            indices_valid(old(self)@),
        ensures
            (final(self)@, r) == task_op_step(old(self)@, TaskOp::ToggleDone, today),
    {
        self.apply_task_op(TaskOp::ToggleDone, today)
    }

    /// `toggle_done_on` for the day that the machine's clock gives.
    pub fn toggle_done(&mut self) -> (r: Effect)
        requires
            indices_valid(old(self)@),
        ensures
            exists|d: Date| (final(self)@, r) == #[trigger] task_op_step(old(self)@, TaskOp::ToggleDone, d),
    {
        let today = date::today();
        self.toggle_done_on(today)
    }

    /// The selected task's priority moves on by one.
    pub fn cycle_priority(&mut self) -> (r: Effect)
        requires
            indices_valid(old(self)@),
        ensures
            forall|d: Date| (final(self)@, r) == #[trigger] task_op_step(old(self)@, TaskOp::CyclePriority, d),
    {
        let today = date::today();
        self.apply_task_op(TaskOp::CyclePriority, today)
    }

    /// The selected task is due today.
    pub fn set_due_date_today(&mut self) -> (r: Effect)
        requires
            indices_valid(old(self)@),
        ensures
            exists|d: Date| (final(self)@, r) == #[trigger] task_op_step(old(self)@, TaskOp::DueToday, d),
    {
        let today = date::today();
        self.apply_task_op(TaskOp::DueToday, today)
    }

    /// The selected task is due tomorrow.
    pub fn set_due_date_tomorrow(&mut self) -> (r: Effect)
        requires
            indices_valid(old(self)@),
        ensures
            exists|d: Date| (final(self)@, r) == #[trigger] task_op_step(old(self)@, TaskOp::DueTomorrow, d),
    {
        let today = date::today();
        self.apply_task_op(TaskOp::DueTomorrow, today)
    }

    /// The selected task is scheduled for today.
    pub fn set_scheduled_today(&mut self) -> (r: Effect)
        requires
            indices_valid(old(self)@),
        ensures
            exists|d: Date| (final(self)@, r) == #[trigger] task_op_step(old(self)@, TaskOp::ScheduledToday, d),
    {
        let today = date::today();
        self.apply_task_op(TaskOp::ScheduledToday, today)
    }

    /// The selected task is scheduled for tomorrow.
    pub fn set_scheduled_tomorrow(&mut self) -> (r: Effect)
        requires
            indices_valid(old(self)@),
        ensures
            exists|d: Date| (final(self)@, r) == #[trigger] task_op_step(old(self)@, TaskOp::ScheduledTomorrow, d),
    {
        let today = date::today();
        self.apply_task_op(TaskOp::ScheduledTomorrow, today)
    }

    /// The selected task is scheduled one day later than it was (or for
    /// tomorrow, if it was not scheduled).
    pub fn bump_scheduled(&mut self) -> (r: Effect)
        requires
            indices_valid(old(self)@),
        ensures
            exists|d: Date| (final(self)@, r) == #[trigger] task_op_step(old(self)@, TaskOp::BumpScheduled, d),
    {
        let today = date::today();
        self.apply_task_op(TaskOp::BumpScheduled, today)
    }

    /// Opens the filter field, holding the current filter text.
    pub fn start_filter(&mut self)
        ensures
            step_holds(
                old(self)@,
                final(self)@,
                Effect::Nothing,
                Step::Open(old(self)@, Slot::Filter, old(self)@.filter_text),
            ),
    {
        let t = self.filter_text.clone();
        self.open_editor(Slot::Filter, t, true);
    }

    /// Opens the task editor, if a task is selected.
    pub fn open_modal(&mut self)
        ensures
            final(self)@ == if selected_task(old(self)@) is Some {
                AppView { show_modal: true, ..old(self)@ }
            } else {
                old(self)@
            },
    {
        if self.selected_task_index().is_some() {
            self.show_modal = true;
        }
        assert(self@ =~= if selected_task(old(self)@) is Some {
            AppView { show_modal: true, ..old(self)@ }
        } else {
            old(self)@
        });
    }

    /// Asks for every task of the vault to be read again.
    pub fn rescan_vault(&self) -> (r: Effect)
        ensures
            r == Effect::Rescan,
    {
        Effect::Rescan
    }

    /// Takes the tasks read from the vault in place of the old ones.
    pub fn load_tasks(&mut self, tasks: Vec<Task>)
        ensures
            final(self)@ == (AppView { tasks: task_views(tasks@), dirty: true, ..old(self)@ }),
    {
        self.tasks = tasks;
        self.dirty = true;
        assert(self@ =~= (AppView { tasks: task_views(tasks@), dirty: true, ..old(self)@ }));
    }

    /// The tasks of one file were read again: the old ones of that file go,
    /// the new ones come at the end.
    pub fn replace_file_tasks(&mut self, path: &str, new_tasks: Vec<Task>)
        ensures
            final(self)@ == (AppView {
                tasks: with_file_tasks(old(self)@.tasks, path@, task_views(new_tasks@)),
                dirty: true,
                ..old(self)@
            }),
    {
        let ghost pred = |t: TaskView| t.source_file != path@;
        let ghost vs = task_views(self.tasks@);
        let mut kept: Vec<Task> = Vec::new();
        let mut i: usize = 0;
        assert(vs.subrange(0, 0).filter(pred) =~= seq![]) by {
            reveal(Seq::filter);
        }
        assert(task_views(kept@) =~= seq![]);
        while i < self.tasks.len()
            invariant
                i <= self.tasks.len(),
                vs == task_views(self.tasks@),
                pred == (|t: TaskView| t.source_file != path@),
                task_views(kept@) == vs.subrange(0, i as int).filter(pred),
            decreases self.tasks.len() - i,
        {
            let ghost before = task_views(kept@);
            let ghost pre = vs.subrange(0, i + 1);
            assert(pre.drop_last() =~= vs.subrange(0, i as int));
            assert(pre.last() == self.tasks@[i as int]@);
            assert(pre.filter(pred) == if pred(pre.last()) {
                pre.drop_last().filter(pred).push(pre.last())
            } else {
                pre.drop_last().filter(pred)
            }) by {
                reveal(Seq::filter);
            }
            if !text::same_text(self.tasks[i].source_file.as_str(), path) {
                kept.push(self.tasks[i].duplicate());
                assert(task_views(kept@) =~= before.push(self.tasks@[i as int]@));
            }
            i += 1;
        }
        assert(vs.subrange(0, vs.len() as int) =~= vs);
        let ghost k0 = task_views(kept@);
        let mut more = new_tasks;
        kept.append(&mut more);
        self.tasks = kept;
        self.dirty = true;
        assert(task_views(self.tasks@) =~= k0 + task_views(new_tasks@));
        assert(self@ =~= (AppView {
            tasks: with_file_tasks(old(self)@.tasks, path@, task_views(new_tasks@)),
            dirty: true,
            ..old(self)@
        }));
    }

    /// Writes the views into the settings, as they are saved.
    pub fn sync_config_views(&mut self)
        ensures
            final(self)@ == synced_config(old(self)@),
    {
        let ghost vs = view_datas(self.views@);
        let mut out: Vec<ViewConfig> = Vec::new();
        let mut i: usize = 0;
        while i < self.views.len()
            invariant
                i <= self.views.len(),
                vs == view_datas(self.views@),
                view_config_datas(out@) == vs.subrange(0, i as int),
            decreases self.views.len() - i,
        {
            let v = &self.views[i];
            let c = ViewConfig {
                name: v.name.clone(),
                query: v.query.clone(),
                sort_by: v.sort_by.clone(),
                group_by: v.group_by.clone(),
            };
            let ghost before = view_config_datas(out@);
            out.push(c);
            assert(view_config_datas(out@) =~= before.push(vs[i as int]));
            assert(vs.subrange(0, i + 1) =~= vs.subrange(0, i as int).push(vs[i as int]));
            i += 1;
        }
        assert(vs.subrange(0, vs.len() as int) =~= vs);
        self.config.views = out;
        assert(self@ =~= synced_config(old(self)@));
    }

    /// Records how the write of task `idx` to its file went (the write is
    /// the caller's): an error shows as the status message, a success
    /// clears it. Without such a task nothing changes.
    pub fn persist_task(&mut self, idx: usize, outcome: Result<(), String>)
        ensures
            final(self)@ == if idx < old(self)@.tasks.len() {
                saved_spec(
                    old(self)@,
                    match outcome {
                        Ok(_) => Ok(()),
                        Err(e) => Err(e@),
                    },
                )
            } else {
                old(self)@
            },
    {
        if idx >= self.tasks.len() {
            return;
        }
        match outcome {
            Ok(()) => {
                self.status_message = None;
            },
            Err(e) => {
                let mut m = text::chars_of("Failed to save: ");
                text::append_chars(&mut m, &text::chars_of(e.as_str()));
                self.status_message = Some(text::string_of(&m));
            },
        }
        assert(self@ =~= saved_spec(
            old(self)@,
            match outcome {
                Ok(_) => Ok(()),
                Err(e) => Err(e@),
            },
        ));
    }
}

/// What a key does in the task list.
pub open spec fn main_step(a: AppView, k: Key, today: Date) -> Step {
    let n = a.filtered_indices.len();
    match k {
        Key::Char('q') => Step::Done(AppView { should_quit: true, ..a }, Effect::Nothing),
        Key::Char('?') => Step::Done(AppView { show_help: !a.show_help, ..a }, Effect::Nothing),
        Key::Char('j') | Key::Down => Step::Done(move_down_spec(a), Effect::Nothing),
        Key::Char('k') | Key::Up => Step::Done(move_up_spec(a), Effect::Nothing),
        Key::Char('g') => Step::Done(AppView { selected_index: 0, ..a }, Effect::Nothing),
        Key::Char('G') => Step::Done(
            AppView {
                selected_index: if n > 0 {
                    (n - 1) as usize
                } else {
                    0
                },
                ..a
            },
            Effect::Nothing,
        ),
        Key::Char('x') => modal::op_step(a, TaskOp::ToggleDone, today),
        Key::Char('p') => modal::op_step(a, TaskOp::CyclePriority, today),
        Key::Char('d') => modal::op_step(a, TaskOp::DueToday, today),
        Key::Char('D') => modal::op_step(a, TaskOp::DueTomorrow, today),
        Key::Char('s') => modal::op_step(a, TaskOp::ScheduledToday, today),
        Key::Char('S') => modal::op_step(a, TaskOp::ScheduledTomorrow, today),
        Key::Char('b') => modal::op_step(a, TaskOp::BumpScheduled, today),
        Key::Char('/') => Step::Open(a, Slot::Filter, a.filter_text),
        Key::Esc => if a.filter_text.len() > 0 {
            Step::Done(AppView { filter_text: seq![], dirty: true, ..a }, Effect::Nothing)
        } else {
            Step::Done(a, Effect::Nothing)
        },
        Key::Char('v') => Step::Done(AppView { show_view_manager: true, ..a }, Effect::Nothing),
        Key::Enter => Step::Done(
            if selected_task(a) is Some {
                AppView { show_modal: true, ..a }
            } else {
                a
            },
            Effect::Nothing,
        ),
        Key::Char('r') => Step::Done(a, Effect::Rescan),
        _ => Step::Done(a, Effect::Nothing),
    }
}

/// What a key does: the help overlay, the task editor, the filter field and
/// the view manager, when open, take the key in that order; else the task
/// list does.
pub open spec fn key_step(a: AppView, k: Key, alt: bool, today: Date) -> Step {
    if a.show_help {
        if k == Key::Esc || k == Key::Char('?') {
            Step::Done(AppView { show_help: false, ..a }, Effect::Nothing)
        } else {
            Step::Done(a, Effect::Nothing)
        }
    } else if a.show_modal {
        modal::modal_step(a, k, today)
    } else if a.filter_textarea is Some {
        filter::filter_step(a, k)
    } else if a.show_view_manager {
        view_manager::manager_step(a, k, alt)
    } else {
        main_step(a, k, today)
    }
}

/// The index of the first task from `i` on with this file and line, or
/// the number of tasks.
pub open spec fn position_from(ts: Seq<TaskView>, t: TaskView, i: int) -> int
    decreases ts.len() - i,
{
    if i < 0 || i >= ts.len() {
        ts.len() as int
    } else if ts[i].source_file == t.source_file && ts[i].line_number == t.line_number {
        i
    } else {
        position_from(ts, t, i + 1)
    }
}

/// For each task of `rs`, the index of the first task of `ts` with its file
/// and line, where there is one.
pub open spec fn positions(ts: Seq<TaskView>, rs: Seq<TaskView>) -> Seq<usize>
    decreases rs.len(),
{
    if rs.len() == 0 {
        seq![]
    } else {
        let p = positions(ts, rs.drop_last());
        let k = position_from(ts, rs.last(), 0);
        if k < ts.len() {
            p.push(k as usize)
        } else {
            p
        }
    }
}

/// The indices that the task list shows of what the view's query selected
/// (`r`): ordered by file and line, each found again by its file and line,
/// kept where the filter text lets the task through.
pub open spec fn shown_from(a: AppView, r: Seq<TaskView>) -> Seq<usize> {
    let ordered = sort_spec(r, TaskSort::FileThenLine);
    positions(a.tasks, ordered).filter(|i: usize| filter::shows(a.tasks[i as int], a.filter_text))
}

/// The state showing `idx`; the selection moves to the last shown task if
/// it was past it.
pub open spec fn with_shown(a: AppView, idx: Seq<usize>) -> AppView {
    AppView {
        filtered_indices: idx,
        selected_index: if idx.len() > 0 && a.selected_index >= idx.len() {
            (idx.len() - 1) as usize
        } else {
            a.selected_index
        },
        ..a
    }
}

/// The state once the shown list is computed again. When the view's query
/// does not parse, the previous list stays (as far as it still points at
/// tasks) and the parse error becomes the status message.
pub open spec fn updated_spec(a: AppView, today: Date) -> AppView {
    match execute_query_spec(a.current_view.query, a.tasks, today) {
        Ok(r) => with_shown(a, shown_from(a, r)),
        Err(e) => with_shown(
            AppView { status_message: Some(e), ..a },
            a.filtered_indices.filter(|i: usize| i < a.tasks.len()),
        ),
    }
}

/// The change of the selected task that a key of the task list makes.
pub open spec fn main_key_op(k: Key) -> Option<TaskOp> {
    match k {
        Key::Char('x') => Some(TaskOp::ToggleDone),
        Key::Char('p') => Some(TaskOp::CyclePriority),
        Key::Char('d') => Some(TaskOp::DueToday),
        Key::Char('D') => Some(TaskOp::DueTomorrow),
        Key::Char('s') => Some(TaskOp::ScheduledToday),
        Key::Char('S') => Some(TaskOp::ScheduledTomorrow),
        Key::Char('b') => Some(TaskOp::BumpScheduled),
        _ => None,
    }
}

fn main_key_op_exec(k: Key) -> (r: Option<TaskOp>)
    ensures
        r == main_key_op(k),
{
    match k {
        Key::Char('x') => Some(TaskOp::ToggleDone),
        Key::Char('p') => Some(TaskOp::CyclePriority),
        Key::Char('d') => Some(TaskOp::DueToday),
        Key::Char('D') => Some(TaskOp::DueTomorrow),
        Key::Char('s') => Some(TaskOp::ScheduledToday),
        Key::Char('S') => Some(TaskOp::ScheduledTomorrow),
        Key::Char('b') => Some(TaskOp::BumpScheduled),
        _ => None,
    }
}

impl App {
    fn main_view_key(&mut self, key: &KeyPress) -> (r: Effect)
        requires
            main_key_op(key.code) is None,
            !(key.code == Key::Char('q') || key.code == Key::Char('?') || key.code == Key::Char('j')
                || key.code == Key::Down || key.code == Key::Char('k') || key.code == Key::Up
                || key.code == Key::Char('g') || key.code == Key::Char('G')),
        ensures
            forall|d: Date| step_holds(old(self)@, final(self)@, r, #[trigger] main_step(old(self)@, key.code, d)),
    {
        match key.code {
            Key::Char('/') => {
                self.start_filter();
                Effect::Nothing
            },
            Key::Esc => {
                if !self.filter_text.as_str().is_empty() {
                    self.filter_text = String::new();
                    self.dirty = true;
                    assert(self@ =~= (AppView { filter_text: seq![], dirty: true, ..old(self)@ }));
                }
                Effect::Nothing
            },
            Key::Char('v') => {
                self.show_view_manager = true;
                assert(self@ =~= (AppView { show_view_manager: true, ..old(self)@ }));
                Effect::Nothing
            },
            Key::Enter => {
                self.open_modal();
                Effect::Nothing
            },
            Key::Char('r') => self.rescan_vault(),
            _ => Effect::Nothing,
        }
    }

    fn main_move_key(&mut self, key: &KeyPress) -> (r: Effect)
        requires
            key.code == Key::Char('q') || key.code == Key::Char('?') || key.code == Key::Char('j')
                || key.code == Key::Down || key.code == Key::Char('k') || key.code == Key::Up
                || key.code == Key::Char('g') || key.code == Key::Char('G'),
        ensures
            forall|d: Date| step_holds(old(self)@, final(self)@, r, #[trigger] main_step(old(self)@, key.code, d)),
    {
        match key.code {
            Key::Char('q') => {
                self.should_quit = true;
                assert(self@ =~= (AppView { should_quit: true, ..old(self)@ }));
            },
            Key::Char('?') => {
                self.show_help = !self.show_help;
                assert(self@ =~= (AppView { show_help: !old(self)@.show_help, ..old(self)@ }));
            },
            Key::Char('j') | Key::Down => {
                self.move_down();
            },
            Key::Char('k') | Key::Up => {
                self.move_up();
            },
            Key::Char('g') => {
                self.selected_index = 0;
                assert(self@ =~= (AppView { selected_index: 0, ..old(self)@ }));
            },
            _ => {
                let n = self.filtered_indices.len();
                self.selected_index = if n > 0 {
                    n - 1
                } else {
                    0
                };
                assert(self@ =~= (AppView { selected_index: self.selected_index, ..old(self)@ }));
            },
        }
        Effect::Nothing
    }

    fn main_key(&mut self, key: &KeyPress, today: Date) -> (r: Effect)
        requires
            indices_valid(old(self)@),
        ensures
            step_holds(old(self)@, final(self)@, r, main_step(old(self)@, key.code, today)),
    {
        match main_key_op_exec(key.code) {
            Some(op) => self.apply_task_op(op, today),
            None => {
                if key.code == Key::Char('q') || key.code == Key::Char('?') || key.code == Key::Char(
                    'j',
                ) || key.code == Key::Down || key.code == Key::Char('k') || key.code == Key::Up
                    || key.code == Key::Char('g') || key.code == Key::Char('G') {
                    self.main_move_key(key)
                } else {
                    self.main_view_key(key)
                }
            },
        }
    }

    /// Handles a key, with `today` as the day for the date keys.
    pub fn handle_key_on(&mut self, key: &KeyPress, today: Date) -> (r: Effect)
        requires
            indices_valid(old(self)@),
        ensures
            step_holds(old(self)@, final(self)@, r, key_step(old(self)@, key.code, key.alt, today)),
            typing_holds(
                old(self)@,
                final(self)@,
                key_step(old(self)@, key.code, key.alt, today),
                key.code,
                key.ctrl,
                key.alt,
                key.shift,
            ),
    {
        if self.show_help {
            if key.code == Key::Esc || key.code == Key::Char('?') {
                self.show_help = false;
                assert(self@ =~= (AppView { show_help: false, ..old(self)@ }));
            }
            return Effect::Nothing;
        }
        if self.show_modal {
            return modal::handle_key(self, key, today);
        }
        if self.filter_textarea.is_some() {
            return filter::handle_key(self, key);
        }
        if self.show_view_manager {
            return self.handle_view_manager_key(key);
        }
        self.main_key(key, today)
    }

    /// Handles a key, with the day that the machine's clock gives as the
    /// day for the date keys.
    pub fn handle_key(&mut self, key: &KeyPress) -> (r: Effect)
        requires
            indices_valid(old(self)@),
        ensures
            exists|d: Date|
                step_holds(old(self)@, final(self)@, r, #[trigger] key_step(old(self)@, key.code, key.alt, d))
                    && typing_holds(
                    old(self)@,
                    final(self)@,
                    key_step(old(self)@, key.code, key.alt, d),
                    key.code,
                    key.ctrl,
                    key.alt,
                    key.shift,
                ),
    {
        let today = date::today();
        self.handle_key_on(key, today)
    }

    /// Handles a key in the view manager.
    pub fn handle_view_manager_key(&mut self, key: &KeyPress) -> (r: Effect)
        ensures
            step_holds(old(self)@, final(self)@, r, view_manager::manager_step(old(self)@, key.code, key.alt)),
            typing_holds(
                old(self)@,
                final(self)@,
                view_manager::manager_step(old(self)@, key.code, key.alt),
                key.code,
                key.ctrl,
                key.alt,
                key.shift,
            ),
    {
        view_manager::handle_key(self, key)
    }

    /// Shows what the view's query selected (see `shown_from`).
    fn show_query_result(&mut self, result: Vec<Task>)
        ensures
            final(self)@ == with_shown(old(self)@, shown_from(old(self)@, task_views(result@))),
            indices_valid(final(self)@),
    {
        let sorted = sort_tasks(&result, TaskSort::FileThenLine);
        let ghost ordered = task_views(sorted@);
        let ghost ts = task_views(self.tasks@);
        let mut idx: Vec<usize> = Vec::new();
        let mut i: usize = 0;
        assert(ordered.subrange(0, 0) =~= seq![]);
        while i < sorted.len()
            invariant
                i <= sorted.len(),
                ordered == task_views(sorted@),
                ts == task_views(self.tasks@),
                idx@ == positions(ts, ordered.subrange(0, i as int)),
                forall|k: int| 0 <= k < idx@.len() ==> #[trigger] idx@[k] < ts.len(),
            decreases sorted.len() - i,
        {
            let t = &sorted[i];
            assert(ordered[i as int] == t@);
            let mut j: usize = 0;
            while j < self.tasks.len() && !(text::same_text(
                self.tasks[j].source_file.as_str(),
                t.source_file.as_str(),
            ) && self.tasks[j].line_number == t.line_number)
                invariant
                    j <= self.tasks.len(),
                    ts == task_views(self.tasks@),
                    position_from(ts, t@, 0) == position_from(ts, t@, j as int),
                decreases self.tasks.len() - j,
            {
                assert(ts[j as int] == self.tasks@[j as int]@);
                j += 1;
            }
            if j < self.tasks.len() {
                assert(ts[j as int] == self.tasks@[j as int]@);
            }
            let ghost pre = ordered.subrange(0, i + 1);
            assert(pre.drop_last() =~= ordered.subrange(0, i as int));
            assert(pre.last() == t@);
            if j < self.tasks.len() {
                idx.push(j);
            }
            i += 1;
        }
        assert(ordered.subrange(0, ordered.len() as int) =~= ordered);
        let ghost all = idx@;
        let ghost pred = |k: usize| filter::shows(ts[k as int], self.filter_text@);
        let mut kept: Vec<usize> = Vec::new();
        let mut m: usize = 0;
        assert(all.subrange(0, 0).filter(pred) =~= seq![]) by {
            reveal(Seq::filter);
        }
        while m < idx.len()
            invariant
                m <= idx.len(),
                all == idx@,
                ts == task_views(self.tasks@),
                pred == (|k: usize| filter::shows(ts[k as int], self.filter_text@)),
                forall|k: int| 0 <= k < all.len() ==> #[trigger] all[k] < ts.len(),
                kept@ == all.subrange(0, m as int).filter(pred),
                forall|k: int| 0 <= k < kept@.len() ==> #[trigger] kept@[k] < ts.len(),
            decreases idx.len() - m,
        {
            let k = idx[m];
            let ghost pre = all.subrange(0, m + 1);
            assert(pre.drop_last() =~= all.subrange(0, m as int));
            assert(pre.last() == k);
            assert(pre.filter(pred) == if pred(pre.last()) {
                pre.drop_last().filter(pred).push(pre.last())
            } else {
                pre.drop_last().filter(pred)
            }) by {
                reveal(Seq::filter);
            }
            assert(ts[k as int] == self.tasks@[k as int]@);
            if filter::matches_filter(&self.tasks[k], self.filter_text.as_str()) {
                kept.push(k);
            }
            m += 1;
        }
        assert(all.subrange(0, all.len() as int) =~= all);
        if kept.len() > 0 && self.selected_index >= kept.len() {
            self.selected_index = kept.len() - 1;
        }
        self.filtered_indices = kept;
        assert(self@ =~= with_shown(old(self)@, shown_from(old(self)@, task_views(result@))));
    }

    /// Keeps the shown indices that still point at tasks and shows the
    /// query's parse error.
    fn keep_shown_on_error(&mut self, e: String)
        ensures
            final(self)@ == with_shown(
                AppView { status_message: Some(e@), ..old(self)@ },
                old(self)@.filtered_indices.filter(|i: usize| i < old(self)@.tasks.len()),
            ),
            indices_valid(final(self)@),
    {
        let ghost n = self.tasks@.len();
        let ghost all = self.filtered_indices@;
        let ghost pred = |i: usize| i < n;
        let mut kept: Vec<usize> = Vec::new();
        let mut m: usize = 0;
        assert(all.subrange(0, 0).filter(pred) =~= seq![]) by {
            reveal(Seq::filter);
        }
        while m < self.filtered_indices.len()
            invariant
                m <= self.filtered_indices.len(),
                all == self.filtered_indices@,
                n == self.tasks@.len(),
                pred == (|i: usize| i < n),
                kept@ == all.subrange(0, m as int).filter(pred),
                forall|k: int| 0 <= k < kept@.len() ==> #[trigger] kept@[k] < n,
            decreases self.filtered_indices.len() - m,
        {
            let k = self.filtered_indices[m];
            let ghost pre = all.subrange(0, m + 1);
            assert(pre.drop_last() =~= all.subrange(0, m as int));
            assert(pre.last() == k);
            assert(pre.filter(pred) == if pred(pre.last()) {
                pre.drop_last().filter(pred).push(pre.last())
            } else {
                pre.drop_last().filter(pred)
            }) by {
                reveal(Seq::filter);
            }
            if k < self.tasks.len() {
                kept.push(k);
            }
            m += 1;
        }
        assert(all.subrange(0, all.len() as int) =~= all);
        if kept.len() > 0 && self.selected_index >= kept.len() {
            self.selected_index = kept.len() - 1;
        }
        self.filtered_indices = kept;
        self.status_message = Some(e);
        assert(self@ =~= with_shown(
            AppView { status_message: Some(e@), ..old(self)@ },
            old(self)@.filtered_indices.filter(|i: usize| i < old(self)@.tasks.len()),
        ));
    }

    /// Computes the shown list again for the current view and filter text,
    /// with `today` as the day of the query's relative dates (see
    /// `updated_spec`).
    pub fn update_filtered_tasks_on(&mut self, today: Date)
        ensures
            final(self)@ == updated_spec(old(self)@, today),
            indices_valid(final(self)@),
            final(self)@.filtered_indices.len() > 0 ==> final(self)@.selected_index < final(self)@.filtered_indices.len(),
    {
        match execute_query_on(self.current_view.query.as_str(), self.tasks.as_slice(), today) {
            Ok(r) => self.show_query_result(r),
            Err(e) => self.keep_shown_on_error(e),
        }
    }

    /// `update_filtered_tasks_on` for the day that the machine's clock gives.
    pub fn update_filtered_tasks(&mut self)
        ensures
            exists|d: Date| final(self)@ == #[trigger] updated_spec(old(self)@, d),
            indices_valid(final(self)@),
            final(self)@.filtered_indices.len() > 0 ==> final(self)@.selected_index < final(self)@.filtered_indices.len(),
    {
        let today = date::today();
        self.update_filtered_tasks_on(today);
    }
}

/// The tasks with those of one file replaced: the old ones of the file go,
/// the new ones come at the end.
pub open spec fn with_file_tasks(ts: Seq<TaskView>, path: Seq<char>, new: Seq<TaskView>) -> Seq<
    TaskView,
> {
    ts.filter(|t: TaskView| t.source_file != path) + new
}

proof fn lemma_parsed_source(ls: Seq<Seq<char>>, source: Seq<char>)
    ensures
        forall|k: int|
            0 <= k < tasks_of_lines(ls, source).len() ==> (#[trigger] tasks_of_lines(
                ls,
                source,
            )[k]).source_file == source,
    decreases ls.len(),
{
    if ls.len() > 0 {
        lemma_parsed_source(ls.drop_last(), source);
    }
}

proof fn lemma_filter_all_kept(s: Seq<TaskView>, p: spec_fn(TaskView) -> bool)
    requires
        forall|k: int| 0 <= k < s.len() ==> p(#[trigger] s[k]),
    ensures
        s.filter(p) == s,
    decreases s.len(),
{
    reveal(Seq::filter);
    if s.len() > 0 {
        lemma_filter_all_kept(s.drop_last(), p);
        assert(p(s[s.len() - 1]));
        assert(s.drop_last().push(s.last()) =~= s);
    }
}

/// Reading a file's content in again a second time leaves the same tasks
/// as reading it once.
pub proof fn lemma_reread_file_idempotent(ts: Seq<TaskView>, path: Seq<char>, content: Seq<char>)
    ensures
        ({
            let new = parse_file_spec(content, path);
            with_file_tasks(with_file_tasks(ts, path, new), path, new) == with_file_tasks(
                ts,
                path,
                new,
            )
        }),
{
    let new = parse_file_spec(content, path);
    let p = |t: TaskView| t.source_file != path;
    let kept = ts.filter(p);
    lemma_parsed_source(text::lines(content), path);
    Seq::filter_distributes_over_add(kept, new, p);
    lemma_filter_all_kept(kept, p);
    reveal(Seq::filter);
    new.lemma_all_neg_filter_empty(p);
    assert(new.filter(p) =~= seq![]);
    assert(kept + seq![] =~= kept);
}

/// A key that switches the view also clears the filter text. (Saving the
/// view form on the current view brings the current view up to date
/// instead; that is no switch.)
pub proof fn lemma_view_switch_clears_filter(
    a: AppView,
    b: AppView,
    r: Effect,
    k: Key,
    alt: bool,
    today: Date,
)
    requires
        step_holds(a, b, r, key_step(a, k, alt, today)),
        a.view_form is None,
        b.current_view != a.current_view,
    ensures
        b.filter_text.len() == 0,
{
    if a.show_help {
    } else if a.show_modal {
        assert(b.current_view == a.current_view);
    } else if a.filter_textarea is Some {
        assert(b.current_view == a.current_view);
    } else if a.show_view_manager {
    } else {
        assert(b.current_view == a.current_view);
    }
}

proof fn lemma_modal_keeps_settings(a: AppView, b: AppView, r: Effect, k: Key, today: Date)
    requires
        step_holds(a, b, r, modal::modal_step(a, k, today)),
    ensures
        b.views == a.views,
        b.config == a.config,
{
}

proof fn lemma_filter_keeps_settings(a: AppView, b: AppView, r: Effect, k: Key)
    requires
        step_holds(a, b, r, filter::filter_step(a, k)),
    ensures
        b.views == a.views,
        b.config == a.config,
{
}

proof fn lemma_main_keeps_settings(a: AppView, b: AppView, r: Effect, k: Key, today: Date)
    requires
        step_holds(a, b, r, main_step(a, k, today)),
    ensures
        b.views == a.views,
        b.config == a.config,
{
}

proof fn lemma_manager_settings(
    a: AppView,
    filter: Seq<char>,
    k: Key,
    alt: bool,
    b1: AppView,
    r1: Effect,
    b2: AppView,
    r2: Effect,
)
    requires
        step_holds(a, b1, r1, view_manager::manager_step(a, k, alt)),
        step_holds(
            AppView { filter_text: filter, ..a },
            b2,
            r2,
            view_manager::manager_step(AppView { filter_text: filter, ..a }, k, alt),
        ),
    ensures
        b1.views == b2.views,
        b1.config == b2.config,
{
    let a2 = AppView { filter_text: filter, ..a };
    assert(view_manager::selected_view(a2) == view_manager::selected_view(a));
    if a.view_form is Some {
        let f = a.view_form->Some_0;
        if k == Key::Enter && !(alt && f.focus == ViewEditField::Query) {
            assert(view_manager::save_form(a, f) is Done);
            assert(view_manager::save_form(a2, f) is Done);
        } else if k != Key::Esc && k != Key::Tab && k != Key::BackTab {
            assert(b1.views == a.views && b2.views == a.views);
            assert(b1.config == a.config && b2.config == a.config);
        }
    } else if k == Key::Esc {
    } else if k == Key::Char('e') || k == Key::Char('a') {
        assert(b1.views == a.views && b2.views == a.views);
        assert(b1.config == a.config && b2.config == a.config);
    } else if k == Key::Char('d') || k == Key::Char('s') {
    } else {
        assert(b1.views == a.views && b2.views == a.views);
        assert(b1.config == a.config && b2.config == a.config);
    }
}

/// The filter text is never written into the views or the settings: from
/// two states that differ only in their filter text, a key leaves the same
/// views and settings.
pub proof fn lemma_filter_never_saved(
    a: AppView,
    filter: Seq<char>,
    k: Key,
    alt: bool,
    today: Date,
    b1: AppView,
    r1: Effect,
    b2: AppView,
    r2: Effect,
)
    requires
        step_holds(a, b1, r1, key_step(a, k, alt, today)),
        step_holds(
            AppView { filter_text: filter, ..a },
            b2,
            r2,
            key_step(AppView { filter_text: filter, ..a }, k, alt, today),
        ),
    ensures
        b1.views == b2.views,
        b1.config == b2.config,
{
    let a2 = AppView { filter_text: filter, ..a };
    if a.show_help {
    } else if a.show_modal {
        lemma_modal_keeps_settings(a, b1, r1, k, today);
        lemma_modal_keeps_settings(a2, b2, r2, k, today);
    } else if a.filter_textarea is Some {
        lemma_filter_keeps_settings(a, b1, r1, k);
        lemma_filter_keeps_settings(a2, b2, r2, k);
    } else if a.show_view_manager {
        lemma_manager_settings(a, filter, k, alt, b1, r1, b2, r2);
    } else {
        lemma_main_keeps_settings(a, b1, r1, k, today);
        lemma_main_keeps_settings(a2, b2, r2, k, today);
    }
}

/// Toggling the selected task (key `x`) flips its status: a task that
/// becomes done has today as its done date, one that becomes todo has no
/// done date at all; its other fields and every other task stay as they
/// were, and the task is written back. Toggling twice on one day gives
/// back the status, and a task that is todo with no done date comes back
/// as it was.
pub proof fn lemma_toggle_done(a: AppView, today: Date)
    requires
        indices_valid(a),
        selected_task(a) is Some,
    ensures
        ({
            let i = selected_task(a)->Some_0 as int;
            let (b, e) = task_op_step(a, TaskOp::ToggleDone, today);
            let (t0, t1) = (a.tasks[i], b.tasks[i]);
            &&& e == Effect::Persist(i as usize)
            &&& b.tasks.len() == a.tasks.len()
            &&& t1.status != t0.status
            &&& t1.status == TaskStatus::Todo ==> t1.done_date is None
            &&& t1.status == TaskStatus::Done ==> t1.done_date == Some(today)
            &&& t1 == (TaskView { status: t1.status, done_date: t1.done_date, ..t0 })
            &&& forall|j: int| 0 <= j < a.tasks.len() && j != i ==> b.tasks[j] == a.tasks[j]
            &&& selected_task(b) == selected_task(a)
            &&& {
                let (c, _) = task_op_step(b, TaskOp::ToggleDone, today);
                &&& c.tasks[i].status == t0.status
                &&& (t0.status == TaskStatus::Todo && t0.done_date is None) ==> c.tasks[i] == t0
            }
        }),
{
    let i = selected_task(a)->Some_0 as int;
    assert(a.filtered_indices[a.selected_index as int] < a.tasks.len());
    let (b, e) = task_op_step(a, TaskOp::ToggleDone, today);
    assert(b.filtered_indices == a.filtered_indices);
    let (c, _) = task_op_step(b, TaskOp::ToggleDone, today);
    if a.tasks[i].status == TaskStatus::Todo && a.tasks[i].done_date is None {
        assert(c.tasks[i] =~= a.tasks[i]);
    }
}

} // verus!

