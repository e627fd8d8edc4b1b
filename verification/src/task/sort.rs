//! The order of tasks for `sort by`, and the stable sort that applies it.
use super::order::{
    compare_ints, compare_opt_dates, compare_text, flip, int_order, lemma_opt_date_order,
    lemma_opt_text_order, lemma_text_order, opt_date_order, opt_text_order, preorder_laws,
    text_order, Order,
};
use super::parser::views;
use super::path::{compare_paths, comps_order, components, lemma_comps_order};
use super::query::SortField;
use super::{rank, Priority, Task, TaskStatus, TaskView};
use crate::text;
use vstd::prelude::*;

verus! {

/// 1 for a done task, 0 for an open one.
pub open spec fn done_value(s: TaskStatus) -> int {
    if s == TaskStatus::Done {
        1
    } else {
        0
    }
}

/// The first tag, if any.
pub open spec fn first_tag(tags: Seq<Seq<char>>) -> Option<Seq<char>> {
    if tags.len() > 0 {
        Some(tags[0])
    } else {
        None
    }
}

/// How task `a` compares with task `b` for a sort by `field`: dates with
/// none first, priority from highest down, texts by code point, paths by
/// component, open tasks before done ones, and lines in file order.
pub open spec fn field_order(a: TaskView, b: TaskView, field: SortField) -> Order {
    match field {
        SortField::Due => opt_date_order(a.due_date, b.due_date),
        SortField::Scheduled => opt_date_order(a.scheduled_date, b.scheduled_date),
        SortField::Priority => int_order(rank(b.priority), rank(a.priority)),
        SortField::Description => text_order(a.description, b.description),
        SortField::Tag => opt_text_order(first_tag(a.tags), first_tag(b.tags)),
        SortField::Folder => comps_order(components(a.source_file), components(b.source_file)),
        SortField::Done => int_order(done_value(a.status), done_value(b.status)),
        SortField::Created => int_order(a.line_number as int, b.line_number as int),
    }
}

/// An order of tasks: by one field of `sort by`, or by file and then line
/// (the order in which the task list shows what a view selects).
#[derive(Clone, Copy, Debug, PartialEq, Eq, Structural)]
pub enum TaskSort {
    By(SortField),
    FileThenLine,
}

/// The first comparison, or the second where the first finds no difference.
pub open spec fn then_order(first: Order, second: Order) -> Order {
    if first != Order::Same {
        first
    } else {
        second
    }
}

/// How task `a` compares with task `b` in the order `key`.
pub open spec fn task_order(a: TaskView, b: TaskView, key: TaskSort) -> Order {
    match key {
        TaskSort::By(f) => field_order(a, b, f),
        TaskSort::FileThenLine => then_order(
            field_order(a, b, SortField::Folder),
            field_order(a, b, SortField::Created),
        ),
    }
}

/// The order of tasks by any field is a total preorder: swapping the tasks
/// flips the outcome, and "not after" is transitive.
pub proof fn lemma_field_order(a: TaskView, b: TaskView, c: TaskView, field: SortField)
    ensures
        preorder_laws(
            field_order(a, b, field),
            field_order(b, a, field),
            field_order(b, c, field),
            field_order(a, c, field),
        ),
{
    match field {
        SortField::Due => lemma_opt_date_order(a.due_date, b.due_date, c.due_date),
        SortField::Scheduled => lemma_opt_date_order(
            a.scheduled_date,
            b.scheduled_date,
            c.scheduled_date,
        ),
        SortField::Description => lemma_text_order(a.description, b.description, c.description),
        SortField::Tag => lemma_opt_text_order(first_tag(a.tags), first_tag(b.tags), first_tag(c.tags)),
        SortField::Folder => lemma_comps_order(
            components(a.source_file),
            components(b.source_file),
            components(c.source_file),
        ),
        _ => {},
    }
}

/// Every order of tasks is a total preorder.
pub proof fn lemma_task_order(a: TaskView, b: TaskView, c: TaskView, key: TaskSort)
    ensures
        preorder_laws(
            task_order(a, b, key),
            task_order(b, a, key),
            task_order(b, c, key),
            task_order(a, c, key),
        ),
{
    match key {
        TaskSort::By(f) => lemma_field_order(a, b, c, f),
        TaskSort::FileThenLine => {
            lemma_field_order(a, b, c, SortField::Folder);
            lemma_field_order(a, c, b, SortField::Folder);
            lemma_field_order(b, a, c, SortField::Folder);
            lemma_field_order(b, c, a, SortField::Folder);
            lemma_field_order(c, a, b, SortField::Folder);
            lemma_field_order(c, b, a, SortField::Folder);
        },
    }
}

fn priority_rank(p: Priority) -> (r: u64)
    ensures
        r == rank(p),
{
    match p {
        Priority::Unset => 0,
        Priority::Lowest => 1,
        Priority::Low => 2,
        Priority::Medium => 3,
        Priority::High => 4,
        Priority::Highest => 5,
    }
}

/// Compares two tasks for a sort by `field`.
pub fn compare_fields(a: &Task, b: &Task, field: SortField) -> (r: Order)
    ensures
        r == field_order(a@, b@, field),
{
    match field {
        SortField::Due => compare_opt_dates(a.due_date, b.due_date),
        SortField::Scheduled => compare_opt_dates(a.scheduled_date, b.scheduled_date),
        SortField::Priority => compare_ints(priority_rank(b.priority), priority_rank(a.priority)),
        SortField::Description => {
            let x = text::chars_of(a.description.as_str());
            let y = text::chars_of(b.description.as_str());
            compare_text(&x, &y)
        },
        SortField::Tag => {
            let ghost ta = a@.tags;
            let ghost tb = b@.tags;
            if a.tags.len() == 0 {
                if b.tags.len() == 0 {
                    Order::Same
                } else {
                    Order::Before
                }
            } else if b.tags.len() == 0 {
                Order::After
            } else {
                assert(ta[0] == a.tags@[0]@ && tb[0] == b.tags@[0]@);
                let x = text::chars_of(a.tags[0].as_str());
                let y = text::chars_of(b.tags[0].as_str());
                compare_text(&x, &y)
            }
        },
        SortField::Folder => {
            let x = text::chars_of(a.source_file.as_str());
            let y = text::chars_of(b.source_file.as_str());
            compare_paths(&x, &y)
        },
        SortField::Done => {
            let x: u64 = if a.status == TaskStatus::Done {
                1
            } else {
                0
            };
            let y: u64 = if b.status == TaskStatus::Done {
                1
            } else {
                0
            };
            compare_ints(x, y)
        },
        SortField::Created => compare_ints(a.line_number as u64, b.line_number as u64),
    }
}

/// Compares two tasks in the order `key`.
pub fn compare_tasks(a: &Task, b: &Task, key: TaskSort) -> (r: Order)
    ensures
        r == task_order(a@, b@, key),
{
    match key {
        TaskSort::By(f) => compare_fields(a, b, f),
        TaskSort::FileThenLine => {
            let first = compare_fields(a, b, SortField::Folder);
            if first != Order::Same {
                first
            } else {
                compare_fields(a, b, SortField::Created)
            }
        },
    }
}

/// No task comes after a later one.
pub open spec fn sorted_by(s: Seq<TaskView>, field: TaskSort) -> bool {
    forall|i: int, j: int|
        0 <= i < j < s.len() ==> task_order(#[trigger] s[i], #[trigger] s[j], field)
            != Order::After
}

/// Where a stable insertion puts `x`: before the first task that comes
/// after it.
pub open spec fn insert_point(s: Seq<TaskView>, x: TaskView, field: TaskSort) -> nat
    decreases s.len(),
{
    if s.len() == 0 {
        0
    } else if task_order(s[0], x, field) == Order::After {
        0
    } else {
        1 + insert_point(s.drop_first(), x, field)
    }
}

pub open spec fn insert_sorted(s: Seq<TaskView>, x: TaskView, field: TaskSort) -> Seq<TaskView> {
    s.insert(insert_point(s, x, field) as int, x)
}

/// The stable sort of `s` by `field` (what `sort_by` gives): each task in
/// turn goes in after every task that does not come after it.
pub open spec fn sort_spec(s: Seq<TaskView>, field: TaskSort) -> Seq<TaskView>
    decreases s.len(),
{
    if s.len() == 0 {
        s
    } else {
        insert_sorted(sort_spec(s.drop_last(), field), s.last(), field)
    }
}

pub proof fn lemma_insert_point(s: Seq<TaskView>, x: TaskView, field: TaskSort)
    ensures
        insert_point(s, x, field) <= s.len(),
        forall|k: int|
            0 <= k < insert_point(s, x, field) ==> task_order(#[trigger] s[k], x, field)
                != Order::After,
        insert_point(s, x, field) < s.len() ==> task_order(
            s[insert_point(s, x, field) as int],
            x,
            field,
        ) == Order::After,
    decreases s.len(),
{
    if s.len() > 0 && task_order(s[0], x, field) != Order::After {
        let t = s.drop_first();
        lemma_insert_point(t, x, field);
        assert forall|k: int| 0 <= k < insert_point(s, x, field) implies task_order(
            #[trigger] s[k],
            x,
            field,
        ) != Order::After by {
            if k > 0 {
                assert(s[k] == t[k - 1]);
            }
        }
    }
}

/// The point that a scan from the front finds is the insertion point.
pub proof fn lemma_insert_point_at(s: Seq<TaskView>, x: TaskView, field: TaskSort, p: int)
    requires
        0 <= p <= s.len(),
        forall|k: int| 0 <= k < p ==> task_order(#[trigger] s[k], x, field) != Order::After,
        p < s.len() ==> task_order(s[p], x, field) == Order::After,
    ensures
        insert_point(s, x, field) == p,
    decreases p,
{
    if p > 0 {
        let t = s.drop_first();
        assert(task_order(s[0], x, field) != Order::After);
        assert forall|k: int| 0 <= k < p - 1 implies task_order(#[trigger] t[k], x, field)
            != Order::After by {
            assert(t[k] == s[k + 1]);
        }
        lemma_insert_point_at(t, x, field, p - 1);
    }
}

/// Inserting at the insertion point keeps a sorted list sorted and adds one
/// copy of the task.
pub proof fn lemma_insert_sorted(s: Seq<TaskView>, x: TaskView, field: TaskSort)
    requires
        sorted_by(s, field),
    ensures
        sorted_by(insert_sorted(s, x, field), field),
        insert_sorted(s, x, field).to_multiset() == s.to_multiset().insert(x),
        insert_sorted(s, x, field).len() == s.len() + 1,
{
    let p = insert_point(s, x, field) as int;
    lemma_insert_point(s, x, field);
    let r = insert_sorted(s, x, field);
    s.insert_ensures(p, x);
    vstd::seq_lib::to_multiset_insert(s, p, x);
    assert forall|i: int, j: int| 0 <= i < j < r.len() implies task_order(
        #[trigger] r[i],
        #[trigger] r[j],
        field,
    ) != Order::After by {
        if i < p && j < p {
            assert(r[i] == s[i] && r[j] == s[j]);
        } else if i < p && j == p {
            assert(r[i] == s[i]);
        } else if i < p {
            assert(r[i] == s[i] && r[j] == s[j - 1]);
        } else if i == p {
            assert(r[j] == s[j - 1]);
            lemma_task_order(x, s[p], s[j - 1], field);
            lemma_task_order(s[p], x, s[j - 1], field);
            if p < j - 1 {
                assert(task_order(s[p], s[j - 1], field) != Order::After);
            }
        } else {
            assert(r[i] == s[i - 1] && r[j] == s[j - 1]);
        }
    }
}

/// The stable sort gives a sorted permutation of its input.
pub proof fn lemma_sort_spec(s: Seq<TaskView>, field: TaskSort)
    ensures
        sorted_by(sort_spec(s, field), field),
        sort_spec(s, field).to_multiset() == s.to_multiset(),
        sort_spec(s, field).len() == s.len(),
    decreases s.len(),
{
    if s.len() > 0 {
        let t = s.drop_last();
        lemma_sort_spec(t, field);
        lemma_insert_sorted(sort_spec(t, field), s.last(), field);
        vstd::seq_lib::to_multiset_build(t, s.last());
        assert(t.push(s.last()) =~= s);
    }
}

/// Sorting a list that is already sorted leaves it as it is: the sort is
/// stable.
pub proof fn lemma_sort_keeps_sorted(s: Seq<TaskView>, field: TaskSort)
    requires
        sorted_by(s, field),
    ensures
        sort_spec(s, field) == s,
    decreases s.len(),
{
    if s.len() > 0 {
        let t = s.drop_last();
        assert(sorted_by(t, field));
        lemma_sort_keeps_sorted(t, field);
        assert forall|k: int| 0 <= k < t.len() implies task_order(#[trigger] t[k], s.last(), field)
            != Order::After by {
            assert(t[k] == s[k]);
        }
        lemma_insert_point_at(t, s.last(), field, t.len() as int);
        assert(t.insert(t.len() as int, s.last()) =~= s);
    }
}

/// Sorts tasks by `field`, keeping the order of tasks that compare the same.
pub fn sort_tasks(tasks: &Vec<Task>, field: TaskSort) -> (r: Vec<Task>)
    ensures
        views(r@) == sort_spec(views(tasks@), field),
{
    let ghost vs = views(tasks@);
    let mut out: Vec<Task> = Vec::new();
    let mut i: usize = 0;
    assert(vs.subrange(0, 0) =~= seq![]);
    assert(views(out@) =~= seq![]);
    while i < tasks.len()
        invariant
            i <= tasks.len(),
            vs == views(tasks@),
            views(out@) == sort_spec(vs.subrange(0, i as int), field),
        decreases tasks.len() - i,
    {
        let x = tasks[i].duplicate();
        let ghost cur = views(out@);
        let mut p: usize = 0;
        while p < out.len() && compare_tasks(&out[p], &x, field) != Order::After
            invariant
                p <= out.len(),
                cur == views(out@),
                forall|k: int| 0 <= k < p ==> task_order(#[trigger] cur[k], x@, field) != Order::After,
            decreases out.len() - p,
        {
            assert(cur[p as int] == out@[p as int]@);
            p += 1;
        }
        proof {
            if p < out.len() {
                assert(cur[p as int] == out@[p as int]@);
            }
            lemma_insert_point_at(cur, x@, field, p as int);
            assert(vs.subrange(0, i + 1).drop_last() =~= vs.subrange(0, i as int));
            assert(vs.subrange(0, i + 1).last() == x@);
        }
        out.insert(p, x);
        assert(views(out@) =~= cur.insert(p as int, x@));
        i += 1;
    }
    assert(vs.subrange(0, vs.len() as int) =~= vs);
    out
}

/// A sort by tag looks at the first tag of each task only: a task with no
/// tags comes before one with tags, two tasks with no tags are level, and
/// two tasks with tags are ordered as their first tags are by text, so
/// tags added after the first never change the order.
pub proof fn lemma_tag_order(a: TaskView, b: TaskView, x: Seq<char>)
    ensures
        a.tags.len() == 0 && b.tags.len() == 0 ==> field_order(a, b, SortField::Tag) == Order::Same,
        a.tags.len() == 0 && b.tags.len() > 0 ==> field_order(a, b, SortField::Tag) == Order::Before,
        a.tags.len() > 0 && b.tags.len() == 0 ==> field_order(a, b, SortField::Tag) == Order::After,
        a.tags.len() > 0 && b.tags.len() > 0 ==> field_order(a, b, SortField::Tag) == text_order(
            a.tags[0],
            b.tags[0],
        ),
        a.tags.len() > 0 ==> field_order(TaskView { tags: a.tags.push(x), ..a }, b, SortField::Tag)
            == field_order(a, b, SortField::Tag),
{
    if a.tags.len() > 0 {
        assert(a.tags.push(x)[0] == a.tags[0]);
    }
}

} // verus!

