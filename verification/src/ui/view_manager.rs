//! The view manager: a popup list of the saved views, to switch to one,
//! add one, edit one in a form, delete one or make it the default.
use super::editor::{editor_lines, plain_state, Editor};
use super::{
    step_holds, synced_config, typing_holds, view_datas, App, AppView, Effect, Key,
    KeyPress, Slot, Step, ViewEditField, ViewForm,
};
use crate::config::ConfigData;
use crate::text::{self, join_lines, join_strings, trim};
use crate::view::{View as SavedView, ViewData};
use vstd::prelude::*;

verus! {

/// The selected view's index, if it points at a view.
pub open spec fn selected_view(a: AppView) -> Option<usize> {
    match a.view_manager_selected {
        Some(i) => if i < a.views.len() {
            Some(i)
        } else {
            None
        },
        None => None,
    }
}

/// The next field of the view form, the last wrapping to the first.
pub open spec fn next_view_field(f: ViewEditField) -> ViewEditField {
    match f {
        ViewEditField::Name => ViewEditField::Query,
        ViewEditField::Query => ViewEditField::SortBy,
        ViewEditField::SortBy => ViewEditField::GroupBy,
        ViewEditField::GroupBy => ViewEditField::Name,
    }
}

/// The previous field of the view form, the first wrapping to the last.
pub open spec fn prev_view_field(f: ViewEditField) -> ViewEditField {
    match f {
        ViewEditField::Name => ViewEditField::GroupBy,
        ViewEditField::Query => ViewEditField::Name,
        ViewEditField::SortBy => ViewEditField::Query,
        ViewEditField::GroupBy => ViewEditField::SortBy,
    }
}

/// The view that the form holds: each field's lines joined with newlines.
pub open spec fn form_view(f: ViewForm) -> ViewData {
    ViewData {
        name: join_lines(editor_lines(f.name)),
        query: join_lines(editor_lines(f.query)),
        sort_by: join_lines(editor_lines(f.sort_by)),
        group_by: join_lines(editor_lines(f.group_by)),
    }
}

/// Another view than the one at `except` has this name.
pub open spec fn name_taken(vs: Seq<ViewData>, name: Seq<char>, except: Option<usize>) -> bool {
    exists|k: int|
        0 <= k < vs.len() && (#[trigger] vs[k]).name == name && !(except matches Some(x) && x
            == k)
}

/// What saving the view form does. A blank name or one that another view
/// has keeps the form open with a message. Else the new view is added, or
/// the edited one is written (and the current view follows it when it was
/// the current one); the form closes and the settings are saved.
pub open spec fn save_form(a: AppView, f: ViewForm) -> Step {
    let v = form_view(f);
    if trim(v.name).len() == 0 {
        Step::Done(AppView { status_message: Some("View name required"@), ..a }, Effect::Nothing)
    } else if name_taken(a.views, v.name, f.editing_index) {
        Step::Done(
            AppView { status_message: Some("View '"@ + v.name + "' already exists"@), ..a },
            Effect::Nothing,
        )
    } else {
        match f.editing_index {
            None => Step::Done(
                synced_config(AppView { views: a.views.push(v), view_form: None, ..a }),
                Effect::SaveConfig,
            ),
            Some(i) => if i < a.views.len() {
                let cur = a.views[i as int].name == a.current_view.name;
                Step::Done(
                    synced_config(
                        AppView {
                            views: a.views.update(i as int, v),
                            view_form: None,
                            current_view: if cur {
                                v
                            } else {
                                a.current_view
                            },
                            dirty: cur || a.dirty,
                            ..a
                        },
                    ),
                    Effect::SaveConfig,
                )
            } else {
                Step::Done(AppView { view_form: None, ..a }, Effect::Nothing)
            },
        }
    }
}

/// What a key does while the view form is open: Tab and Shift+Tab move
/// the focus, Enter saves (Alt+Enter in the query field goes in as a line
/// break), Esc drops the form, and any other key goes to the focused field.
pub open spec fn form_step(a: AppView, f: ViewForm, k: Key, alt: bool) -> Step {
    match k {
        Key::Esc => Step::Done(AppView { view_form: None, ..a }, Effect::Nothing),
        Key::Tab => Step::Done(
            AppView { view_form: Some(ViewForm { focus: next_view_field(f.focus), ..f }), ..a },
            Effect::Nothing,
        ),
        Key::BackTab => Step::Done(
            AppView { view_form: Some(ViewForm { focus: prev_view_field(f.focus), ..f }), ..a },
            Effect::Nothing,
        ),
        Key::Enter => if alt && f.focus == ViewEditField::Query {
            Step::Forward(Slot::ViewEdit)
        } else {
            save_form(a, f)
        },
        _ => Step::Forward(Slot::ViewEdit),
    }
}

/// What a key does in the view manager.
pub open spec fn manager_step(a: AppView, k: Key, alt: bool) -> Step {
    let n = a.views.len();
    let i = match a.view_manager_selected {
        Some(x) => x as int,
        None => 0,
    };
    if a.view_form is Some {
        form_step(a, a.view_form->Some_0, k, alt)
    } else if k == Key::Esc {
        Step::Done(AppView { show_view_manager: false, ..a }, Effect::Nothing)
    } else if (k == Key::Char('j') || k == Key::Down) && n > 0 {
        Step::Done(
            AppView {
                view_manager_selected: Some(
                    if i >= n - 1 {
                        0usize
                    } else {
                        (i + 1) as usize
                    },
                ),
                ..a
            },
            Effect::Nothing,
        )
    } else if (k == Key::Char('k') || k == Key::Up) && n > 0 {
        Step::Done(
            AppView {
                view_manager_selected: Some(
                    if i == 0 {
                        (n - 1) as usize
                    } else {
                        (i - 1) as usize
                    },
                ),
                ..a
            },
            Effect::Nothing,
        )
    } else if k == Key::Char('a') {
        Step::OpenForm(a, seq![], seq![], seq![], seq![], None)
    } else if k == Key::Char('e') {
        match selected_view(a) {
            Some(x) => {
                let v = a.views[x as int];
                Step::OpenForm(a, v.name, v.query, v.sort_by, v.group_by, Some(x))
            },
            None => Step::Done(a, Effect::Nothing),
        }
    } else if k == Key::Char('d') && n > 1 {
        match selected_view(a) {
            Some(x) => {
                let vs = a.views.remove(x as int);
                Step::Done(
                    synced_config(
                        AppView {
                            views: vs,
                            view_manager_selected: Some(
                                if x >= vs.len() {
                                    (vs.len() - 1) as usize
                                } else {
                                    x
                                },
                            ),
                            ..a
                        },
                    ),
                    Effect::SaveConfig,
                )
            },
            None => Step::Done(a, Effect::Nothing),
        }
    } else if k == Key::Char('s') {
        match selected_view(a) {
            Some(x) => Step::Done(
                synced_config(
                    AppView {
                        config: ConfigData { default_view: a.views[x as int].name, ..a.config },
                        ..a
                    },
                ),
                Effect::SaveConfig,
            ),
            None => Step::Done(a, Effect::Nothing),
        }
    } else if k == Key::Enter {
        match selected_view(a) {
            Some(x) => Step::Done(
                AppView {
                    current_view: a.views[x as int],
                    show_view_manager: false,
                    filter_text: seq![],
                    dirty: true,
                    ..a
                },
                Effect::Nothing,
            ),
            None => Step::Done(a, Effect::Nothing),
        }
    } else {
        Step::Done(a, Effect::Nothing)
    }
}

fn selected_view_exec(app: &App) -> (r: Option<usize>)
    ensures
        r == selected_view(app@),
{
    match app.view_manager_selected {
        Some(i) => if i < app.views.len() {
            Some(i)
        } else {
            None
        },
        None => None,
    }
}

/// The next field of the view form.
pub fn next_view_field_exec(f: ViewEditField) -> (r: ViewEditField)
    ensures
        r == next_view_field(f),
{
    match f {
        ViewEditField::Name => ViewEditField::Query,
        ViewEditField::Query => ViewEditField::SortBy,
        ViewEditField::SortBy => ViewEditField::GroupBy,
        ViewEditField::GroupBy => ViewEditField::Name,
    }
}

/// The previous field of the view form.
pub fn prev_view_field_exec(f: ViewEditField) -> (r: ViewEditField)
    ensures
        r == prev_view_field(f),
{
    match f {
        ViewEditField::Name => ViewEditField::GroupBy,
        ViewEditField::Query => ViewEditField::Name,
        ViewEditField::SortBy => ViewEditField::Query,
        ViewEditField::GroupBy => ViewEditField::SortBy,
    }
}

/// A text field on one line of text, with the cursor at its end.
fn field_on(text: String) -> (e: Editor)
    ensures
        editor_lines(e) == seq![text@],
        plain_state(e),
{
    let mut e = Editor::new(text);
    e.plain_cursor_line();
    e.cursor_to_end();
    e
}

/// Opens the view form on four texts, adding a view or editing the one at
/// `idx`.
fn open_form(
    app: &mut App,
    name: String,
    query: String,
    sort_by: String,
    group_by: String,
    idx: Option<usize>,
)
    ensures
        step_holds(
            old(app)@,
            final(app)@,
            Effect::Nothing,
            Step::OpenForm(old(app)@, name@, query@, sort_by@, group_by@, idx),
        ),
{
    let f = ViewForm {
        name: field_on(name),
        query: field_on(query),
        sort_by: field_on(sort_by),
        group_by: field_on(group_by),
        focus: ViewEditField::Name,
        editing_index: idx,
    };
    app.view_form = Some(f);
    assert(app@ =~= (AppView { view_form: Some(f), ..old(app)@ }));
}

/// Whether a view other than the one at `except` has this name.
fn name_taken_exec(views: &Vec<SavedView>, name: &String, except: Option<usize>) -> (r: bool)
    ensures
        r == name_taken(view_datas(views@), name@, except),
{
    let ghost vs = view_datas(views@);
    let mut k: usize = 0;
    while k < views.len()
        invariant
            k <= views.len(),
            vs == view_datas(views@),
            forall|j: int|
                0 <= j < k ==> !((#[trigger] vs[j]).name == name@ && !(except matches Some(x)
                    && x == j)),
        decreases views.len() - k,
    {
        assert(vs[k as int] == views@[k as int]@);
        let other = match except {
            Some(x) => x != k,
            None => true,
        };
        if other && text::same_text(views[k].name.as_str(), name.as_str()) {
            return true;
        }
        k += 1;
    }
    false
}

fn message_taken(name: &String) -> (r: String)
    ensures
        r@ == "View '"@ + name@ + "' already exists"@,
{
    let mut m = text::chars_of("View '");
    text::append_chars(&mut m, &text::chars_of(name.as_str()));
    text::append_chars(&mut m, &text::chars_of("' already exists"));
    text::string_of(&m)
}

fn save_view_form(app: &mut App) -> (r: Effect)
    requires
        old(app)@.view_form is Some,
    ensures
        step_holds(old(app)@, final(app)@, r, save_form(old(app)@, old(app)@.view_form->Some_0)),
{
    let ghost f0 = old(app)@.view_form->Some_0;
    let (v, idx) = match &app.view_form {
        Some(f) => {
            let v = SavedView {
                name: join_strings(&f.name.lines()),
                query: join_strings(&f.query.lines()),
                sort_by: join_strings(&f.sort_by.lines()),
                group_by: join_strings(&f.group_by.lines()),
            };
            (v, f.editing_index)
        },
        None => {
            return Effect::Nothing;
        },
    };
    assert(v@ == form_view(f0));
    if text::trim_chars(&text::chars_of(v.name.as_str())).len() == 0 {
        app.status_message = Some("View name required".to_owned());
        assert(app@ =~= (AppView { status_message: Some("View name required"@), ..old(app)@ }));
        return Effect::Nothing;
    }
    if name_taken_exec(&app.views, &v.name, idx) {
        let m = message_taken(&v.name);
        app.status_message = Some(m);
        assert(app@ =~= (AppView {
            status_message: Some("View '"@ + v.name@ + "' already exists"@),
            ..old(app)@
        }));
        return Effect::Nothing;
    }
    let ghost vv = v@;
    match idx {
        None => {
            app.views.push(v);
            app.view_form = None;
            assert(view_datas(app.views@) =~= old(app)@.views.push(vv));
            let ghost mid = app@;
            assert(mid =~= (AppView {
                views: old(app)@.views.push(vv),
                view_form: None,
                ..old(app)@
            }));
            app.sync_config_views();
            Effect::SaveConfig
        },
        Some(i) => {
            if i < app.views.len() {
                assert(old(app)@.views[i as int] == app.views@[i as int]@);
                let cur = text::same_text(
                    app.views[i].name.as_str(),
                    app.current_view.name.as_str(),
                );
                if cur {
                    app.current_view = v.duplicate();
                    app.dirty = true;
                }
                app.views.set(i, v);
                app.view_form = None;
                assert(view_datas(app.views@) =~= old(app)@.views.update(i as int, vv));
                let ghost mid = app@;
                assert(mid =~= (AppView {
                    views: old(app)@.views.update(i as int, vv),
                    view_form: None,
                    current_view: if cur {
                        vv
                    } else {
                        old(app)@.current_view
                    },
                    dirty: cur || old(app)@.dirty,
                    ..old(app)@
                }));
                app.sync_config_views();
                Effect::SaveConfig
            } else {
                app.view_form = None;
                assert(app@ =~= (AppView { view_form: None, ..old(app)@ }));
                Effect::Nothing
            }
        },
    }
}

fn form_key(app: &mut App, key: &KeyPress) -> (r: Effect)
    requires
        old(app)@.view_form is Some,
    ensures
        step_holds(
            old(app)@,
            final(app)@,
            r,
            form_step(old(app)@, old(app)@.view_form->Some_0, key.code, key.alt),
        ),
        typing_holds(
            old(app)@,
            final(app)@,
            form_step(old(app)@, old(app)@.view_form->Some_0, key.code, key.alt),
            key.code,
            key.ctrl,
            key.alt,
            key.shift,
        ),
{
    let focus = match &app.view_form {
        Some(f) => f.focus,
        None => ViewEditField::Name,
    };
    match key.code {
        Key::Esc => {
            app.view_form = None;
            assert(app@ =~= (AppView { view_form: None, ..old(app)@ }));
            Effect::Nothing
        },
        Key::Tab | Key::BackTab => {
            let nf = if key.code == Key::Tab {
                next_view_field_exec(focus)
            } else {
                prev_view_field_exec(focus)
            };
            match app.view_form.take() {
                Some(f) => {
                    let g = ViewForm { focus: nf, ..f };
                    app.view_form = Some(g);
                    assert(app@ =~= (AppView { view_form: Some(g), ..old(app)@ }));
                },
                None => {},
            }
            Effect::Nothing
        },
        Key::Enter => {
            if key.alt && focus == ViewEditField::Query {
                app.forward_key(Slot::ViewEdit, key);
                Effect::Nothing
            } else {
                save_view_form(app)
            }
        },
        _ => {
            app.forward_key(Slot::ViewEdit, key);
            Effect::Nothing
        },
    }
}

fn move_selection(app: &mut App, code: Key) -> (r: Effect)
    requires
        old(app)@.view_form is None,
        code != Key::Esc,
        ((code == Key::Char('j') || code == Key::Down) || (code == Key::Char('k') || code
            == Key::Up)),
        old(app)@.views.len() > 0,
    ensures
        forall|alt: bool| step_holds(old(app)@, final(app)@, r, #[trigger] manager_step(old(app)@, code, alt)),
{
    let n = app.views.len();
    let i = match app.view_manager_selected {
        Some(x) => x,
        None => 0,
    };
    let sel = if code == Key::Char('j') || code == Key::Down {
        if i >= n - 1 {
            0
        } else {
            i + 1
        }
    } else if i == 0 {
        n - 1
    } else {
        i - 1
    };
    app.view_manager_selected = Some(sel);
    assert(app@ =~= (AppView { view_manager_selected: Some(sel), ..old(app)@ }));
    Effect::Nothing
}

fn edit_view(app: &mut App) -> (r: Effect)
    requires
        old(app)@.view_form is None,
    ensures
        forall|alt: bool| step_holds(old(app)@, final(app)@, r, #[trigger] manager_step(old(app)@, Key::Char('e'), alt)),
{
    match selected_view_exec(app) {
        Some(x) => {
            let v = &app.views[x];
            assert(v@ == old(app)@.views[x as int]);
            let (n, q, s, g) = (v.name.clone(), v.query.clone(), v.sort_by.clone(), v.group_by.clone());
            open_form(app, n, q, s, g, Some(x));
            Effect::Nothing
        },
        None => Effect::Nothing,
    }
}

fn delete_view(app: &mut App) -> (r: Effect)
    requires
        old(app)@.view_form is None,
        old(app)@.views.len() > 1,
    ensures
        forall|alt: bool| step_holds(old(app)@, final(app)@, r, #[trigger] manager_step(old(app)@, Key::Char('d'), alt)),
{
    match selected_view_exec(app) {
        Some(x) => {
            app.views.remove(x);
            assert(view_datas(app.views@) =~= old(app)@.views.remove(x as int));
            let new_sel = if x >= app.views.len() {
                app.views.len() - 1
            } else {
                x
            };
            app.view_manager_selected = Some(new_sel);
            let ghost mid = app@;
            assert(mid =~= (AppView {
                views: old(app)@.views.remove(x as int),
                view_manager_selected: Some(new_sel),
                ..old(app)@
            }));
            app.sync_config_views();
            Effect::SaveConfig
        },
        None => Effect::Nothing,
    }
}

fn set_default(app: &mut App) -> (r: Effect)
    requires
        old(app)@.view_form is None,
    ensures
        forall|alt: bool| step_holds(old(app)@, final(app)@, r, #[trigger] manager_step(old(app)@, Key::Char('s'), alt)),
{
    match selected_view_exec(app) {
        Some(x) => {
            app.config.defaults.view = app.views[x].name.clone();
            let ghost mid = app@;
            assert(mid =~= (AppView {
                config: ConfigData {
                    default_view: old(app)@.views[x as int].name,
                    ..old(app)@.config
                },
                ..old(app)@
            }));
            app.sync_config_views();
            Effect::SaveConfig
        },
        None => Effect::Nothing,
    }
}

fn switch_view(app: &mut App) -> (r: Effect)
    requires
        old(app)@.view_form is None,
    ensures
        forall|alt: bool| step_holds(old(app)@, final(app)@, r, #[trigger] manager_step(old(app)@, Key::Enter, alt)),
{
    match selected_view_exec(app) {
        Some(x) => {
            app.current_view = app.views[x].duplicate();
            app.show_view_manager = false;
            app.filter_text = String::new();
            app.dirty = true;
            assert(app@ =~= (AppView {
                current_view: old(app)@.views[x as int],
                show_view_manager: false,
                filter_text: seq![],
                dirty: true,
                ..old(app)@
            }));
            Effect::Nothing
        },
        None => Effect::Nothing,
    }
}

/// Handles a key in the view manager.
pub fn handle_key(app: &mut App, key: &KeyPress) -> (r: Effect)
    ensures
        step_holds(old(app)@, final(app)@, r, manager_step(old(app)@, key.code, key.alt)),
        typing_holds(
            old(app)@,
            final(app)@,
            manager_step(old(app)@, key.code, key.alt),
            key.code,
            key.ctrl,
            key.alt,
            key.shift,
        ),
{
    let code = key.code;
    if app.view_form.is_some() {
        return form_key(app, key);
    }
    let n = app.views.len();
    if code == Key::Esc {
        app.show_view_manager = false;
        assert(app@ =~= (AppView { show_view_manager: false, ..old(app)@ }));
        Effect::Nothing
    } else if ((code == Key::Char('j') || code == Key::Down) || (code == Key::Char('k') || code
        == Key::Up)) && n > 0 {
        let r = move_selection(app, code);
        assert(step_holds(old(app)@, app@, r, manager_step(old(app)@, code, key.alt)));
        r
    } else if code == Key::Char('a') {
        open_form(app, String::new(), String::new(), String::new(), String::new(), None);
        Effect::Nothing
    } else if code == Key::Char('e') {
        let r = edit_view(app);
        assert(step_holds(old(app)@, app@, r, manager_step(old(app)@, code, key.alt)));
        r
    } else if code == Key::Char('d') && n > 1 {
        let r = delete_view(app);
        assert(step_holds(old(app)@, app@, r, manager_step(old(app)@, code, key.alt)));
        r
    } else if code == Key::Char('s') {
        let r = set_default(app);
        assert(step_holds(old(app)@, app@, r, manager_step(old(app)@, code, key.alt)));
        r
    } else if code == Key::Enter {
        let r = switch_view(app);
        assert(step_holds(old(app)@, app@, r, manager_step(old(app)@, code, key.alt)));
        r
    } else {
        Effect::Nothing
    }
}

} // verus!
