//! The text fields of the app are `tui_textarea` text areas, and keys come
//! from `crossterm`. Both are carried through the library as they are; these
//! are the calls that the key handling makes into them.
use crossterm::event::KeyEvent;
use tui_textarea::{CursorMove, TextArea};
use crate::text::string_texts;
use vstd::prelude::*;

verus! {

#[verifier::external_type_specification]
#[verifier::external_body]
pub struct ExKeyEvent(KeyEvent);

/// A one-line text field: a `tui_textarea::TextArea`, which holds lines of
/// text, a cursor and an edit history. Verus does not take a declaration of
/// `TextArea<'a>` (its `From` impls stop the trait check), so the text area
/// sits in a private field of this struct, which Verus does not look into;
/// `editor_lines`, `editor_cursor` and `editor_selecting` name its lines,
/// its cursor and whether a selection is going.
#[verifier::external_body]
pub struct Editor {
    area: TextArea<'static>,
}

/// The lines that a text field holds.
pub uninterp spec fn editor_lines(e: Editor) -> Seq<Seq<char>>;

/// The row and column (in chars) of a text field's cursor.
pub uninterp spec fn editor_cursor(e: Editor) -> (usize, usize);

/// Whether a text field has a selection going (one started with a
/// shifted move key).
pub uninterp spec fn editor_selecting(e: Editor) -> bool;

/// The cursor is on a line of the text, at most at its end.
pub open spec fn cursor_in_text(e: Editor) -> bool {
    let (r, c) = editor_cursor(e);
    r < editor_lines(e).len() && c <= editor_lines(e)[r as int].len()
}

/// `line` with `ch` put in before its char at `col`.
pub open spec fn inserted(line: Seq<char>, col: int, ch: char) -> Seq<char> {
    line.take(col) + seq![ch] + line.skip(col)
}

/// `line` without its char just before `col`.
pub open spec fn removed_before(line: Seq<char>, col: int) -> Seq<char> {
    line.take(col - 1) + line.skip(col)
}

/// What typing a char does to a field with no selection and its cursor in
/// the text: the char goes in at the cursor, which moves past it.
pub open spec fn typed_char(before: Editor, after: Editor, ch: char) -> bool {
    let (r, c) = editor_cursor(before);
    let ls = editor_lines(before);
    &&& editor_lines(after) == ls.update(r as int, inserted(ls[r as int], c as int, ch))
    &&& editor_cursor(after) == (r, (c + 1) as usize)
    &&& !editor_selecting(after)
}

/// `ls` with the line after row `r` joined to the end of row `r`.
pub open spec fn joined(ls: Seq<Seq<char>>, r: int) -> Seq<Seq<char>> {
    ls.take(r) + seq![ls[r] + ls[r + 1]] + ls.skip(r + 2)
}

/// What Backspace does to a field with no selection and its cursor in the
/// text: the char before the cursor goes and the cursor moves back; at the
/// start of a later line that line is joined to the end of the one before,
/// where the cursor goes; at the very start of the text nothing changes.
pub open spec fn erased_char(before: Editor, after: Editor) -> bool {
    let (r, c) = editor_cursor(before);
    let ls = editor_lines(before);
    &&& !editor_selecting(after)
    &&& c > 0 ==> {
        &&& editor_lines(after) == ls.update(r as int, removed_before(ls[r as int], c as int))
        &&& editor_cursor(after) == (r, (c - 1) as usize)
    }
    &&& (c == 0 && r > 0) ==> {
        &&& editor_lines(after) == joined(ls, r - 1)
        &&& editor_cursor(after) == ((r - 1) as usize, ls[r - 1].len() as usize)
    }
    &&& (c == 0 && r == 0) ==> {
        &&& editor_lines(after) == ls
        &&& editor_cursor(after) == editor_cursor(before)
    }
}

/// What Delete does to a field with no selection and its cursor in the
/// text: the char after the cursor goes and the cursor stays; at the end of
/// a line that is not the last, the next line is joined to it; at the very
/// end of the text nothing changes.
pub open spec fn erased_next(before: Editor, after: Editor) -> bool {
    let (r, c) = editor_cursor(before);
    let ls = editor_lines(before);
    &&& !editor_selecting(after)
    &&& editor_cursor(after) == editor_cursor(before)
    &&& c < ls[r as int].len() ==> editor_lines(after) == ls.update(
        r as int,
        removed_before(ls[r as int], c + 1),
    )
    &&& (c == ls[r as int].len() && r + 1 < ls.len()) ==> editor_lines(after) == joined(ls, r as int)
    &&& (c == ls[r as int].len() && r + 1 == ls.len()) ==> editor_lines(after) == ls
}

/// Where one step back takes a cursor at `(r, c)` in the lines `ls`: one
/// char back; from the start of a later line, to the end of the line
/// before; from the start of the text, nowhere.
pub open spec fn step_back(ls: Seq<Seq<char>>, r: usize, c: usize) -> (usize, usize) {
    if c > 0 {
        (r, (c - 1) as usize)
    } else if r > 0 {
        ((r - 1) as usize, ls[r - 1].len() as usize)
    } else {
        (r, c)
    }
}

/// Where one step forward takes a cursor at `(r, c)` in the lines `ls`: one
/// char on; from the end of a line that is not the last, to the start of
/// the next; from the end of the text, nowhere.
pub open spec fn step_forward(ls: Seq<Seq<char>>, r: usize, c: usize) -> (usize, usize) {
    if c < ls[r as int].len() {
        (r, (c + 1) as usize)
    } else if r + 1 < ls.len() {
        ((r + 1) as usize, 0usize)
    } else {
        (r, c)
    }
}

/// The cursor went to `to`; the lines stayed and nothing is selected.
pub open spec fn moved_to(before: Editor, after: Editor, to: (usize, usize)) -> bool {
    &&& editor_lines(after) == editor_lines(before)
    &&& editor_cursor(after) == to
    &&& !editor_selecting(after)
}

/// The field has no selection going and its cursor is in the text.
pub open spec fn plain_state(e: Editor) -> bool {
    !editor_selecting(e) && cursor_in_text(e)
}

impl Editor {
    /// Calls `TextArea::new` with the one line `text`: the field holds
    /// exactly that line, the cursor is at its start and nothing is
    /// selected.
    #[verifier::external_body]
    pub(crate) fn new(text: String) -> (r: Editor)
        ensures
            editor_lines(r) == seq![text@],
            editor_cursor(r) == (0usize, 0usize),
            !editor_selecting(r),
    {
        Editor { area: TextArea::new(vec![text]) }
    }

    /// Calls `TextArea::set_cursor_line_style` with the plain style; the
    /// lines, the cursor and the selection stay as they are.
    #[verifier::external_body]
    pub(crate) fn plain_cursor_line(&mut self)
        ensures
            editor_lines(*final(self)) == editor_lines(*old(self)),
            editor_cursor(*final(self)) == editor_cursor(*old(self)),
            editor_selecting(*final(self)) == editor_selecting(*old(self)),
    {
        self.area.set_cursor_line_style(ratatui::style::Style::default())
    }

    /// Calls `TextArea::move_cursor` with `CursorMove::End`, which is what
    /// `TextArea::input` does for End held with no modifier while nothing is
    /// selected: the cursor goes to the end of its line; the lines and the
    /// selection state stay.
    #[verifier::external_body]
    pub(crate) fn cursor_to_end(&mut self)
        ensures
            editor_lines(*final(self)) == editor_lines(*old(self)),
            editor_selecting(*final(self)) == editor_selecting(*old(self)),
            cursor_in_text(*old(self)) ==> editor_cursor(*final(self)) == (
                editor_cursor(*old(self)).0,
                editor_lines(*old(self))[editor_cursor(*old(self)).0 as int].len() as usize,
            ),
    {
        self.area.move_cursor(CursorMove::End)
    }

    /// Calls `TextArea::insert_char`, which `TextArea::input` calls for a
    /// char key held with neither Ctrl nor Alt. With no selection and the
    /// cursor in the text, the char goes in at the cursor (see
    /// `typed_char`). A selection would be deleted first; that case is not
    /// described.
    #[verifier::external_body]
    pub(crate) fn insert_char(&mut self, ch: char)
        requires
            ch != '\n' && ch != '\r',
        ensures
            plain_state(*old(self)) ==> typed_char(
                *old(self),
                *final(self),
                ch,
            ),
    {
        self.area.insert_char(ch)
    }

    /// Calls `TextArea::delete_char`, which `TextArea::input` calls for
    /// Backspace held with neither Ctrl nor Alt (see `erased_char`). A
    /// selection would be deleted instead; that case is not described.
    #[verifier::external_body]
    pub(crate) fn delete_char(&mut self)
        ensures
            plain_state(*old(self)) ==> erased_char(
                *old(self),
                *final(self),
            ),
    {
        self.area.delete_char();
    }

    /// Calls `TextArea::delete_next_char`, which `TextArea::input` calls for
    /// Delete held with neither Ctrl nor Alt (see `erased_next`). A
    /// selection would be deleted instead; that case is not described.
    #[verifier::external_body]
    pub(crate) fn delete_next_char(&mut self)
        ensures
            plain_state(*old(self)) ==> erased_next(*old(self), *final(self)),
    {
        self.area.delete_next_char();
    }

    /// Calls `TextArea::move_cursor` with `CursorMove::Back`, which is what
    /// `TextArea::input` does for Left held with no modifier while nothing
    /// is selected (see `step_back`).
    #[verifier::external_body]
    pub(crate) fn move_back(&mut self)
        ensures
            plain_state(*old(self)) ==> moved_to(
                *old(self),
                *final(self),
                step_back(
                    editor_lines(*old(self)),
                    editor_cursor(*old(self)).0,
                    editor_cursor(*old(self)).1,
                ),
            ),
    {
        self.area.move_cursor(CursorMove::Back)
    }

    /// Calls `TextArea::move_cursor` with `CursorMove::Forward`, which is
    /// what `TextArea::input` does for Right held with no modifier while
    /// nothing is selected (see `step_forward`).
    #[verifier::external_body]
    pub(crate) fn move_forward(&mut self)
        ensures
            plain_state(*old(self)) ==> moved_to(
                *old(self),
                *final(self),
                step_forward(
                    editor_lines(*old(self)),
                    editor_cursor(*old(self)).0,
                    editor_cursor(*old(self)).1,
                ),
            ),
    {
        self.area.move_cursor(CursorMove::Forward)
    }

    /// Calls `TextArea::move_cursor` with `CursorMove::Head`, which is what
    /// `TextArea::input` does for Home held with no modifier while nothing
    /// is selected: the cursor goes to the start of its line.
    #[verifier::external_body]
    pub(crate) fn move_head(&mut self)
        ensures
            plain_state(*old(self)) ==> moved_to(
                *old(self),
                *final(self),
                (editor_cursor(*old(self)).0, 0usize),
            ),
    {
        self.area.move_cursor(CursorMove::Head)
    }

    /// Calls `TextArea::input` with the key. What other keys (shifted
    /// moves, Up and Down, word moves, undo, paste, newlines, keys held with
    /// Ctrl or Alt) do to the text depends on the cursor, the selection and
    /// the history that the text area keeps, and is not stated.
    #[verifier::external_body]
    pub(crate) fn input(&mut self, key: &KeyEvent) {
        self.area.input(*key);
    }

    /// Calls `TextArea::lines` and copies them. A text area always holds at
    /// least one line: `new` adds an empty one to an empty list, and each
    /// edit that removes a line first joins it to the line before.
    #[verifier::external_body]
    pub fn lines(&self) -> (r: Vec<String>)
        ensures
            string_texts(r@) == editor_lines(*self),
            r@.len() >= 1,
    {
        self.area.lines().to_vec()
    }

    /// Calls `TextArea::cursor`: the row and column of the cursor, counted
    /// in chars from zero.
    #[verifier::external_body]
    pub fn cursor(&self) -> (r: (usize, usize))
        ensures
            r == editor_cursor(*self),
    {
        self.area.cursor()
    }
}

} // verus!
