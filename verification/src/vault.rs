//! Which files of the vault hold tasks. Walking the folders and watching
//! them for changes is left to the program around the library; these are
//! its decisions.
use crate::task::path::{components, components_of, Comp, PathPart};
use crate::text;
use vstd::prelude::*;

verus! {

pub open spec fn ends_with(s: Seq<char>, suffix: Seq<char>) -> bool {
    s.len() >= suffix.len() && s.subrange(s.len() - suffix.len(), s.len() as int) == suffix
}

/// A file that the scan takes: not a dotfile, and named `*.md`.
pub open spec fn markdown_name(name: Seq<char>) -> bool {
    !(name.len() > 0 && name[0] == '.') && ends_with(name, ".md"@)
}

/// A folder that the scan does not enter: hidden ones, `node_modules` and
/// `target`.
pub open spec fn skipped_dir(name: Seq<char>) -> bool {
    (name.len() > 0 && name[0] == '.') || name == "node_modules"@ || name == "target"@
}

/// What the scan does with a folder entry.
#[derive(Clone, Copy, Debug, PartialEq, Eq, Structural)]
pub enum EntryAction {
    Skip,
    Descend,
    Collect,
}

pub open spec fn entry_action_spec(name: Seq<char>, is_dir: bool, is_file: bool) -> EntryAction {
    if is_dir {
        if skipped_dir(name) {
            EntryAction::Skip
        } else {
            EntryAction::Descend
        }
    } else if is_file && markdown_name(name) {
        EntryAction::Collect
    } else {
        EntryAction::Skip
    }
}

fn has_suffix(s: &Vec<char>, suffix: &str) -> (r: bool)
    ensures
        r == ends_with(s@, suffix@),
{
    let t = text::chars_of(suffix);
    if t.len() > s.len() {
        return false;
    }
    let tail = text::copy_range(s, s.len() - t.len(), s.len());
    text::same_chars(&tail, &t)
}

/// Whether the scan takes a file of this name: not a dotfile, and named
/// `*.md`.
pub fn is_markdown_name(name: &str) -> (r: bool)
    ensures
        r == markdown_name(name@),
{
    markdown_chars(&text::chars_of(name))
}

fn markdown_chars(s: &Vec<char>) -> (r: bool)
    ensures
        r == markdown_name(s@),
{
    !(s.len() > 0 && s[0] == '.') && has_suffix(s, ".md")
}

/// Whether the scan leaves a folder out.
pub fn skip_dir(name: &str) -> (r: bool)
    ensures
        r == skipped_dir(name@),
{
    let s = text::chars_of(name);
    (s.len() > 0 && s[0] == '.') || text::same_text(name, "node_modules") || text::same_text(
        name,
        "target",
    )
}

/// What the scan does with a folder entry: it enters folders that are not
/// left out and takes the `*.md` files that are not dotfiles.
pub fn entry_action(name: &str, is_dir: bool, is_file: bool) -> (r: EntryAction)
    ensures
        r == entry_action_spec(name@, is_dir, is_file),
{
    if is_dir {
        if skip_dir(name) {
            EntryAction::Skip
        } else {
            EntryAction::Descend
        }
    } else if is_file && is_markdown_name(name) {
        EntryAction::Collect
    } else {
        EntryAction::Skip
    }
}

/// The file name of a path (`Path::file_name`): its last component, if
/// that is a normal one.
pub open spec fn file_name(p: Seq<char>) -> Option<Seq<char>> {
    let cs = components(p);
    if cs.len() > 0 {
        match cs.last() {
            Comp::Normal(n) => Some(n),
            _ => None,
        }
    } else {
        None
    }
}

/// A path to a file that the scan would take: its file name is not a
/// dotfile and ends in `.md`.
pub open spec fn markdown_path(p: Seq<char>) -> bool {
    file_name(p) matches Some(n) && markdown_name(n)
}

/// Whether a changed path is to a file that the scan would take, by its
/// file name (see `markdown_name`).
pub fn is_markdown_path(p: &str) -> (r: bool)
    ensures
        r == markdown_path(p@),
{
    let chars = text::chars_of(p);
    let parts = components_of(&chars);
    if parts.len() == 0 {
        return false;
    }
    let last = parts.len() - 1;
    assert(components(p@)[last as int] == parts@[last as int]@);
    match &parts[last] {
        PathPart::Normal(n) => markdown_chars(n),
        _ => false,
    }
}

} // verus!
