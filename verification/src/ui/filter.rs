//! The text filter of the task list: a search over descriptions and tags
//! that narrows what the view shows.
use super::editor::{cursor_in_text, editor_cursor, editor_lines, editor_selecting, inserted};
use super::{key_step, step_holds, typing_holds, App, AppView, Effect, Key, KeyPress, Slot, Step};
use crate::task::date::Date;
use crate::task::{Task, TaskView};
use crate::text::{self, contains, join_lines, lowercase, trim};
use vstd::prelude::*;

verus! {

/// `s` without its leading `#`s.
pub open spec fn strip_hashes(s: Seq<char>) -> Seq<char>
    decreases s.len(),
{
    if s.len() > 0 && s[0] == '#' {
        strip_hashes(s.drop_first())
    } else {
        s
    }
}

/// Whether the filter text lets the task through: a blank filter lets
/// every task through; else the lowercase trimmed filter occurs in the
/// lowercase description, or (without its leading `#`s) in a lowercase tag.
pub open spec fn shows(t: TaskView, filter: Seq<char>) -> bool {
    let needle = lowercase(trim(filter));
    ||| trim(filter).len() == 0
    ||| contains(lowercase(t.description), needle)
    ||| exists|k: int|
        0 <= k < t.tags.len() && contains(lowercase(#[trigger] t.tags[k]), strip_hashes(needle))
}

/// A blank filter (empty or only whitespace) lets every task through.
pub proof fn lemma_blank_filter_shows_all(t: TaskView, filter: Seq<char>)
    requires
        trim(filter).len() == 0,
    ensures
        shows(t, filter),
{
}

fn strip_hashes_exec(s: &Vec<char>) -> (r: Vec<char>)
    ensures
        r@ == strip_hashes(s@),
{
    let mut i: usize = 0;
    assert(s@.subrange(0, s@.len() as int) =~= s@);
    while i < s.len() && s[i] == '#'
        invariant
            i <= s.len(),
            strip_hashes(s@) == strip_hashes(s@.subrange(i as int, s@.len() as int)),
        decreases s.len() - i,
    {
        let ghost rest = s@.subrange(i as int, s@.len() as int);
        assert(rest.drop_first() =~= s@.subrange(i + 1, s@.len() as int));
        i += 1;
    }
    text::copy_range(s, i, s.len())
}

/// Whether the filter text lets the task through (see `shows`).
pub fn matches_filter(task: &Task, filter: &str) -> (r: bool)
    ensures
        r == shows(task@, filter@),
{
    let trimmed = text::trim_chars(&text::chars_of(filter));
    let needle = text::lowercase_chars(&trimmed);
    if needle.len() == 0 {
        return true;
    }
    let desc = text::lowercase_chars(&text::chars_of(task.description.as_str()));
    if text::contains_chars(&desc, &needle) {
        return true;
    }
    let tag_needle = strip_hashes_exec(&needle);
    let ghost tags = task@.tags;
    let mut k: usize = 0;
    while k < task.tags.len()
        invariant
            k <= task.tags.len(),
            tags == task@.tags,
            tag_needle@ == strip_hashes(lowercase(trim(filter@))),
            forall|j: int| 0 <= j < k ==> !contains(lowercase(#[trigger] tags[j]), tag_needle@),
        decreases task.tags.len() - k,
    {
        assert(tags[k as int] == task.tags@[k as int]@);
        let l = text::lowercase_chars(&text::chars_of(task.tags[k].as_str()));
        if text::contains_chars(&l, &tag_needle) {
            return true;
        }
        k += 1;
    }
    false
}

/// What a key does while the filter field is open: Esc closes it and
/// clears the filter, Enter closes it and keeps the filter, any other key
/// edits the field and the filter follows it.
pub open spec fn filter_step(a: AppView, k: Key) -> Step {
    if a.filter_textarea is None {
        Step::Done(a, Effect::Nothing)
    } else {
        match k {
            Key::Esc => Step::Done(
                AppView { filter_textarea: None, filter_text: seq![], dirty: true, ..a },
                Effect::Nothing,
            ),
            Key::Enter => Step::Done(AppView { filter_textarea: None, ..a }, Effect::Nothing),
            _ => Step::Forward(Slot::Filter),
        }
    }
}

/// Handles a key while the filter field is open.
pub fn handle_key(app: &mut App, key: &KeyPress) -> (r: Effect)
    ensures
        step_holds(old(app)@, final(app)@, r, filter_step(old(app)@, key.code)),
        typing_holds(old(app)@, final(app)@, filter_step(old(app)@, key.code), key.code, key.ctrl, key.alt, key.shift),
{
    if app.filter_textarea.is_none() {
        return Effect::Nothing;
    }
    match key.code {
        Key::Esc => {
            app.filter_textarea = None;
            app.filter_text = String::new();
            app.dirty = true;
            assert(app@ =~= (AppView {
                filter_textarea: None,
                filter_text: seq![],
                dirty: true,
                ..old(app)@
            }));
        },
        Key::Enter => {
            app.filter_textarea = None;
            assert(app@ =~= (AppView { filter_textarea: None, ..old(app)@ }));
        },
        _ => {
            app.forward_key(Slot::Filter, key);
        },
    }
    Effect::Nothing
}

/// Typing a char (no line break, neither Ctrl nor Alt held) into the open
/// filter field puts it in at the cursor, moves the cursor past it, and
/// the filter text becomes the field's new text.
pub proof fn lemma_filter_typing(a: AppView, b: AppView, r: Effect, ch: char, today: Date)
    requires
        !a.show_help,
        !a.show_modal,
        a.filter_textarea is Some,
        !editor_selecting(a.filter_textarea->Some_0),
        cursor_in_text(a.filter_textarea->Some_0),
        ch != '\n' && ch != '\r',
        step_holds(a, b, r, key_step(a, Key::Char(ch), false, today)),
        typing_holds(a, b, key_step(a, Key::Char(ch), false, today), Key::Char(ch), false, false, false),
    ensures
        ({
            let e = a.filter_textarea->Some_0;
            let (row, col) = editor_cursor(e);
            let ls = editor_lines(e).update(row as int, inserted(editor_lines(e)[row as int], col as int, ch));
            &&& b.filter_textarea matches Some(e2)
            &&& editor_lines(e2) == ls
            &&& editor_cursor(e2) == (row, (col + 1) as usize)
            &&& b.filter_text == join_lines(ls)
            &&& r == Effect::Nothing
        }),
{
    let e = a.filter_textarea->Some_0;
    assert(key_step(a, Key::Char(ch), false, today) == Step::Forward(Slot::Filter));
}

/// Leading `#`s come off and the rest stays as it is.
proof fn lemma_strip_hashes(hs: Seq<char>, n: Seq<char>)
    requires
        forall|j: int| 0 <= j < hs.len() ==> #[trigger] hs[j] == '#',
        n.len() > 0 ==> n[0] != '#',
    ensures
        strip_hashes(hs + n) == n,
    decreases hs.len(),
{
    if hs.len() == 0 {
        assert(hs + n =~= n);
    } else {
        let r = hs.drop_first();
        assert forall|j: int| 0 <= j < r.len() implies #[trigger] r[j] == '#' by {
            assert(r[j] == hs[j + 1]);
        }
        lemma_strip_hashes(r, n);
        assert((hs + n)[0] == '#');
        assert((hs + n).drop_first() =~= r + n);
    }
}

/// The filter shows a task when its text, trimmed and made lowercase,
/// appears anywhere in the lowercase description; and when that text
/// without its leading `#`s appears anywhere in one of the task's tags made
/// lowercase: a part of a tag is enough, a whole tag is not needed.
pub proof fn lemma_filter_finds_parts(
    t: TaskView,
    filter: Seq<char>,
    hs: Seq<char>,
    n: Seq<char>,
    k: int,
    i: int,
)
    requires
        lowercase(trim(filter)) == hs + n,
        forall|j: int| 0 <= j < hs.len() ==> #[trigger] hs[j] == '#',
        n.len() > 0 ==> n[0] != '#',
    ensures
        0 <= i && i + (hs + n).len() <= lowercase(t.description).len() && lowercase(
            t.description,
        ).subrange(i, i + (hs + n).len()) == hs + n ==> shows(t, filter),
        0 <= k < t.tags.len() && 0 <= i && i + n.len() <= lowercase(t.tags[k]).len() && lowercase(
            t.tags[k],
        ).subrange(i, i + n.len()) == n ==> shows(t, filter),
{
    lemma_strip_hashes(hs, n);
    if 0 <= k < t.tags.len() && 0 <= i && i + n.len() <= lowercase(t.tags[k]).len() && lowercase(
        t.tags[k],
    ).subrange(i, i + n.len()) == n {
        assert(contains(lowercase(t.tags[k]), n));
    }
    if 0 <= i && i + (hs + n).len() <= lowercase(t.description).len() && lowercase(
        t.description,
    ).subrange(i, i + (hs + n).len()) == hs + n {
        assert(contains(lowercase(t.description), hs + n));
    }
}

} // verus!

