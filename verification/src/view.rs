//! A view: a named query with its sort and grouping fields.
use vstd::prelude::*;
use vstd::view::View as _;

verus! {

/// A named query with its sort and grouping fields.
#[derive(Debug)]
pub struct View {
    pub name: String,
    pub query: String,
    pub sort_by: String,
    pub group_by: String,
}

/// A view as plain values.
pub struct ViewData {
    pub name: Seq<char>,
    pub query: Seq<char>,
    pub sort_by: Seq<char>,
    pub group_by: Seq<char>,
}

impl vstd::view::View for View {
    type V = ViewData;

    open spec fn view(&self) -> ViewData {
        ViewData {
            name: self.name@,
            query: self.query@,
            sort_by: self.sort_by@,
            group_by: self.group_by@,
        }
    }
}

impl View {
    /// A view with these texts.
    pub fn new(name: &str, query: &str, sort_by: &str, group_by: &str) -> (r: View)
        ensures
            r.name@ == name@,
            r.query@ == query@,
            r.sort_by@ == sort_by@,
            r.group_by@ == group_by@,
    {
        View {
            name: name.to_owned(),
            query: query.to_owned(),
            sort_by: sort_by.to_owned(),
            group_by: group_by.to_owned(),
        }
    }

    /// A copy of the view.
    pub fn duplicate(&self) -> (r: View)
        ensures
            r@ == self@,
    {
        View {
            name: self.name.clone(),
            query: self.query.clone(),
            sort_by: self.sort_by.clone(),
            group_by: self.group_by.clone(),
        }
    }
}

impl Default for View {
    /// `All Tasks`: every task, sorted by `due_date`.
    fn default() -> (r: View)
        ensures
            r.name@ == "All Tasks"@,
            r.query@ == ""@,
            r.sort_by@ == "due_date"@,
            r.group_by@ == ""@,
    {
        View::new("All Tasks", "", "due_date", "")
    }
}

} // verus!
