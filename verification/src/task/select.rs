//! What a query selects from a list of tasks: the tasks that every filter
//! keeps, in the order of `sort by`, cut at the first `limit`.
use super::date::{date_lt, Date};
use super::parser::views;
use super::path::{has_component, in_folder};
use super::query::{filter_views, Filter, FilterView, Query, QueryView};
use super::sort::{lemma_sort_spec, sort_spec, sort_tasks, sorted_by, TaskSort};
use super::{rank, Task, TaskStatus, TaskView};
use crate::text::{self, contains, lowercase};
use vstd::prelude::*;

verus! {

/// `low` occurs in the lowercase form of `s`.
pub open spec fn includes_text(s: Seq<char>, low: Seq<char>) -> bool {
    contains(lowercase(s), low)
}

/// `low` occurs in the lowercase description, a lowercase tag or the
/// lowercase recurrence of the task.
pub open spec fn mentions(t: TaskView, low: Seq<char>) -> bool {
    ||| includes_text(t.description, low)
    ||| exists|k: int| 0 <= k < t.tags.len() && includes_text(#[trigger] t.tags[k], low)
    ||| (t.recurrence matches Some(r) && includes_text(r, low))
}

/// The date is there and strictly before `x`.
pub open spec fn date_before(d: Option<Date>, x: Date) -> bool {
    d matches Some(v) && date_lt(v, x)
}

/// The date is there and strictly after `x`.
pub open spec fn date_after(d: Option<Date>, x: Date) -> bool {
    d matches Some(v) && date_lt(x, v)
}

/// Whether a filter keeps a task. Text filters compare lowercase forms,
/// `tag` asks for an exact tag, `folder` for a whole component of the path.
pub open spec fn matches(t: TaskView, f: FilterView) -> bool {
    match f {
        FilterView::Done => t.status == TaskStatus::Done,
        FilterView::NotDone => t.status == TaskStatus::Todo,
        FilterView::Includes(s) => mentions(t, lowercase(s)),
        FilterView::NotIncludes(s) => !mentions(t, lowercase(s)),
        FilterView::DescriptionIncludes(s) => includes_text(t.description, lowercase(s)),
        FilterView::Tag(s) => t.tags.contains(s),
        FilterView::NotTag(s) => !t.tags.contains(s),
        FilterView::Folder(s) => has_component(t.source_file, s),
        FilterView::NotFolder(s) => !has_component(t.source_file, s),
        FilterView::PathIncludes(s) => includes_text(t.source_file, lowercase(s)),
        FilterView::PathNotIncludes(s) => !includes_text(t.source_file, lowercase(s)),
        FilterView::DueBefore(d) => date_before(t.due_date, d),
        FilterView::DueAfter(d) => date_after(t.due_date, d),
        FilterView::DueOn(d) => t.due_date == Some(d),
        FilterView::ScheduledBefore(d) => date_before(t.scheduled_date, d),
        FilterView::ScheduledAfter(d) => date_after(t.scheduled_date, d),
        FilterView::ScheduledOn(d) => t.scheduled_date == Some(d),
        FilterView::HappensBefore(d) => date_before(t.due_date, d) || date_before(
            t.scheduled_date,
            d,
        ),
        FilterView::HappensAfter(d) => date_after(t.due_date, d) || date_after(t.scheduled_date, d),
        FilterView::HappensOn(d) => t.due_date == Some(d) || t.scheduled_date == Some(d),
        FilterView::PriorityAbove(p) => rank(t.priority) > rank(p),
        FilterView::PriorityBelow(p) => rank(t.priority) < rank(p),
        FilterView::PriorityIs(p) => t.priority == p,
        FilterView::HasRecurrence => t.recurrence is Some,
        FilterView::NoRecurrence => t.recurrence is None,
        FilterView::RecurrenceIncludes(s) => t.recurrence matches Some(r) && includes_text(
            r,
            lowercase(s),
        ),
        FilterView::HasDueDate => t.due_date is Some,
        FilterView::NoDueDate => t.due_date is None,
        FilterView::HasScheduledDate => t.scheduled_date is Some,
        FilterView::NoScheduledDate => t.scheduled_date is None,
        FilterView::Limit(_) => true,
    }
}

/// Every filter keeps the task.
pub open spec fn passes(t: TaskView, fs: Seq<FilterView>) -> bool {
    forall|k: int| 0 <= k < fs.len() ==> matches(t, #[trigger] fs[k])
}

pub open spec fn passes_all(fs: Seq<FilterView>) -> spec_fn(TaskView) -> bool {
    |t: TaskView| passes(t, fs)
}

/// The number of the first `limit` filter, if there is one.
pub open spec fn first_limit(fs: Seq<FilterView>) -> Option<nat>
    decreases fs.len(),
{
    if fs.len() == 0 {
        None
    } else {
        match fs[0] {
            FilterView::Limit(n) => Some(n),
            _ => first_limit(fs.drop_first()),
        }
    }
}

/// At most the first `n` tasks.
pub open spec fn cut(s: Seq<TaskView>, n: Option<nat>) -> Seq<TaskView> {
    match n {
        Some(k) => if k < s.len() {
            s.take(k as int)
        } else {
            s
        },
        None => s,
    }
}

/// The tasks that a parsed query selects.
pub open spec fn select_spec(q: QueryView, ts: Seq<TaskView>) -> Seq<TaskView> {
    let kept = ts.filter(passes_all(q.filters));
    let ordered = match q.sort_by {
        Some(f) => sort_spec(kept, TaskSort::By(f)),
        None => kept,
    };
    cut(ordered, first_limit(q.filters))
}

/// `low` occurs in the lowercase form of `s`.
fn includes_exec(s: &String, low: &Vec<char>) -> (r: bool)
    ensures
        r == includes_text(s@, low@),
{
    let c = text::chars_of(s.as_str());
    let l = text::lowercase_chars(&c);
    text::contains_chars(&l, low)
}

fn mentions_exec(t: &Task, low: &Vec<char>) -> (r: bool)
    ensures
        r == mentions(t@, low@),
{
    if includes_exec(&t.description, low) {
        return true;
    }
    let ghost tags = t@.tags;
    let mut k: usize = 0;
    while k < t.tags.len()
        invariant
            k <= t.tags.len(),
            tags == t@.tags,
            forall|j: int| 0 <= j < k ==> !includes_text(#[trigger] tags[j], low@),
        decreases t.tags.len() - k,
    {
        assert(tags[k as int] == t.tags@[k as int]@);
        if includes_exec(&t.tags[k], low) {
            return true;
        }
        k += 1;
    }
    match &t.recurrence {
        Some(r) => includes_exec(r, low),
        None => false,
    }
}

/// The lowercase form of `s`.
fn lower_of(s: &String) -> (r: Vec<char>)
    ensures
        r@ == lowercase(s@),
{
    let c = text::chars_of(s.as_str());
    text::lowercase_chars(&c)
}

fn has_tag(t: &Task, tag: &String) -> (r: bool)
    ensures
        r == t@.tags.contains(tag@),
{
    let want = text::chars_of(tag.as_str());
    let ghost tags = t@.tags;
    let mut k: usize = 0;
    while k < t.tags.len()
        invariant
            k <= t.tags.len(),
            tags == t@.tags,
            want@ == tag@,
            forall|j: int| 0 <= j < k ==> #[trigger] tags[j] != tag@,
        decreases t.tags.len() - k,
    {
        assert(tags[k as int] == t.tags@[k as int]@);
        let have = text::chars_of(t.tags[k].as_str());
        if text::same_chars(&have, &want) {
            return true;
        }
        k += 1;
    }
    false
}

fn in_folder_exec(t: &Task, name: &String) -> (r: bool)
    ensures
        r == has_component(t@.source_file, name@),
{
    let p = text::chars_of(t.source_file.as_str());
    let n = text::chars_of(name.as_str());
    in_folder(&p, &n)
}

fn opt_before(d: Option<Date>, x: Date) -> (r: bool)
    ensures
        r == date_before(d, x),
{
    match d {
        Some(v) => v.is_before(&x),
        None => false,
    }
}

fn opt_after(d: Option<Date>, x: Date) -> (r: bool)
    ensures
        r == date_after(d, x),
{
    match d {
        Some(v) => x.is_before(&v),
        None => false,
    }
}

fn same_day(d: Option<Date>, x: Date) -> (r: bool)
    ensures
        r == (d == Some(x)),
{
    match d {
        Some(v) => v == x,
        None => false,
    }
}

fn rank_of(p: super::Priority) -> (r: u8)
    ensures
        r == rank(p),
{
    match p {
        super::Priority::Unset => 0,
        super::Priority::Lowest => 1,
        super::Priority::Low => 2,
        super::Priority::Medium => 3,
        super::Priority::High => 4,
        super::Priority::Highest => 5,
    }
}

/// Whether a filter keeps a task.
pub fn matches_filter(t: &Task, f: &Filter) -> (r: bool)
    ensures
        r == matches(t@, f@),
{
    match f {
        Filter::Done => t.status == TaskStatus::Done,
        Filter::NotDone => t.status == TaskStatus::Todo,
        Filter::Includes(s) => mentions_exec(t, &lower_of(s)),
        Filter::NotIncludes(s) => !mentions_exec(t, &lower_of(s)),
        Filter::DescriptionIncludes(s) => includes_exec(&t.description, &lower_of(s)),
        Filter::Tag(s) => has_tag(t, s),
        Filter::NotTag(s) => !has_tag(t, s),
        Filter::Folder(s) => in_folder_exec(t, s),
        Filter::NotFolder(s) => !in_folder_exec(t, s),
        Filter::PathIncludes(s) => includes_exec(&t.source_file, &lower_of(s)),
        Filter::PathNotIncludes(s) => !includes_exec(&t.source_file, &lower_of(s)),
        Filter::DueBefore(d) => opt_before(t.due_date, *d),
        Filter::DueAfter(d) => opt_after(t.due_date, *d),
        Filter::DueOn(d) => same_day(t.due_date, *d),
        Filter::ScheduledBefore(d) => opt_before(t.scheduled_date, *d),
        Filter::ScheduledAfter(d) => opt_after(t.scheduled_date, *d),
        Filter::ScheduledOn(d) => same_day(t.scheduled_date, *d),
        Filter::HappensBefore(d) => opt_before(t.due_date, *d) || opt_before(t.scheduled_date, *d),
        Filter::HappensAfter(d) => opt_after(t.due_date, *d) || opt_after(t.scheduled_date, *d),
        Filter::HappensOn(d) => same_day(t.due_date, *d) || same_day(t.scheduled_date, *d),
        Filter::PriorityAbove(p) => rank_of(t.priority) > rank_of(*p),
        Filter::PriorityBelow(p) => rank_of(t.priority) < rank_of(*p),
        Filter::PriorityIs(p) => t.priority == *p,
        Filter::HasRecurrence => t.recurrence.is_some(),
        Filter::NoRecurrence => t.recurrence.is_none(),
        Filter::RecurrenceIncludes(s) => match &t.recurrence {
            Some(r) => includes_exec(r, &lower_of(s)),
            None => false,
        },
        Filter::HasDueDate => t.due_date.is_some(),
        Filter::NoDueDate => t.due_date.is_none(),
        Filter::HasScheduledDate => t.scheduled_date.is_some(),
        Filter::NoScheduledDate => t.scheduled_date.is_none(),
        Filter::Limit(_) => true,
    }
}

/// Whether every filter keeps the task.
pub fn passes_filters(t: &Task, fs: &Vec<Filter>) -> (r: bool)
    ensures
        r == passes(t@, filter_views(fs@)),
{
    let ghost fv = filter_views(fs@);
    let mut k: usize = 0;
    while k < fs.len()
        invariant
            k <= fs.len(),
            fv == filter_views(fs@),
            forall|j: int| 0 <= j < k ==> matches(t@, #[trigger] fv[j]),
        decreases fs.len() - k,
    {
        assert(fv[k as int] == fs@[k as int]@);
        if !matches_filter(t, &fs[k]) {
            return false;
        }
        k += 1;
    }
    true
}

/// The number of the first `limit` filter, if there is one.
pub fn first_limit_of(fs: &Vec<Filter>) -> (r: Option<usize>)
    ensures
        match r {
            Some(n) => first_limit(filter_views(fs@)) == Some(n as nat),
            None => first_limit(filter_views(fs@)) is None,
        },
{
    let ghost fv = filter_views(fs@);
    let mut k: usize = 0;
    assert(fv.subrange(0, fv.len() as int) =~= fv);
    while k < fs.len()
        invariant
            k <= fs.len(),
            fv == filter_views(fs@),
            first_limit(fv) == first_limit(fv.subrange(k as int, fv.len() as int)),
        decreases fs.len() - k,
    {
        let ghost rest = fv.subrange(k as int, fv.len() as int);
        assert(rest[0] == fs@[k as int]@);
        assert(rest.drop_first() =~= fv.subrange(k + 1, fv.len() as int));
        if let Filter::Limit(n) = &fs[k] {
            return Some(*n);
        }
        k += 1;
    }
    None
}

/// The tasks that every filter keeps, in their order.
fn keep_passing(tasks: &[Task], fs: &Vec<Filter>) -> (r: Vec<Task>)
    ensures
        views(r@) == views(tasks@).filter(passes_all(filter_views(fs@))),
{
    let ghost vs = views(tasks@);
    let ghost pred = passes_all(filter_views(fs@));
    let mut out: Vec<Task> = Vec::new();
    let mut i: usize = 0;
    assert(vs.subrange(0, 0).filter(pred) =~= seq![]) by {
        reveal(Seq::filter);
    }
    assert(views(out@) =~= seq![]);
    while i < tasks.len()
        invariant
            i <= tasks.len(),
            vs == views(tasks@),
            pred == passes_all(filter_views(fs@)),
            views(out@) == vs.subrange(0, i as int).filter(pred),
        decreases tasks.len() - i,
    {
        let ghost before = views(out@);
        let ghost pre = vs.subrange(0, i + 1);
        assert(pre.drop_last() =~= vs.subrange(0, i as int));
        assert(pre.last() == tasks@[i as int]@);
        assert(pre.filter(pred) == if pred(pre.last()) {
            pre.drop_last().filter(pred).push(pre.last())
        } else {
            pre.drop_last().filter(pred)
        }) by {
            reveal(Seq::filter);
        }
        if passes_filters(&tasks[i], fs) {
            out.push(tasks[i].duplicate());
            assert(views(out@) =~= before.push(tasks@[i as int]@));
        }
        i += 1;
    }
    assert(vs.subrange(0, vs.len() as int) =~= vs);
    out
}

/// The tasks that a parsed query selects: those that every filter keeps,
/// sorted by the `sort by` field (stably) and cut at the first `limit`.
pub fn select(q: &Query, tasks: &[Task]) -> (r: Vec<Task>)
    ensures
        views(r@) == select_spec(q@, views(tasks@)),
{
    let kept = keep_passing(tasks, &q.filters);
    let mut ordered = match q.sort_by {
        Some(f) => sort_tasks(&kept, TaskSort::By(f)),
        None => kept,
    };
    let ghost before = views(ordered@);
    match first_limit_of(&q.filters) {
        Some(n) => {
            if n < ordered.len() {
                ordered.truncate(n);
                assert(views(ordered@) =~= before.take(n as int));
            }
        },
        None => {},
    }
    ordered
}

/// What a query selects: only tasks of the list, each kept by every
/// filter; no more than the first `limit`; sorted when the query sorts;
/// and, without a limit, every task that every filter keeps, as often as
/// the list holds it.
pub proof fn lemma_select(q: QueryView, ts: Seq<TaskView>)
    ensures
        ({
            let r = select_spec(q, ts);
            &&& forall|k: int|
                0 <= k < r.len() ==> passes(#[trigger] r[k], q.filters) && ts.contains(r[k])
            &&& (first_limit(q.filters) matches Some(n) ==> r.len() <= n)
            &&& (q.sort_by matches Some(f) ==> sorted_by(r, TaskSort::By(f)))
            &&& (first_limit(q.filters) is None ==> r.to_multiset() == ts.filter(
                passes_all(q.filters),
            ).to_multiset())
        }),
{
    let pred = passes_all(q.filters);
    let kept = ts.filter(pred);
    let ordered = match q.sort_by {
        Some(f) => sort_spec(kept, TaskSort::By(f)),
        None => kept,
    };
    let r = select_spec(q, ts);
    if let Some(f) = q.sort_by {
        lemma_sort_spec(kept, TaskSort::By(f));
    }
    assert(ordered.to_multiset() == kept.to_multiset());
    assert forall|k: int| 0 <= k < r.len() implies passes(#[trigger] r[k], q.filters) && ts.contains(
        r[k],
    ) by {
        assert(r[k] == ordered[k]);
        assert(ordered.contains(ordered[k]));
        vstd::seq_lib::to_multiset_contains(ordered, ordered[k]);
        vstd::seq_lib::to_multiset_contains(kept, ordered[k]);
        let j = choose|j: int| 0 <= j < kept.len() && kept[j] == ordered[k];
        ts.lemma_filter_pred(pred, j);
        ts.lemma_filter_contains_rev(pred, ordered[k]);
    }
    if let Some(f) = q.sort_by {
        if let Some(n) = first_limit(q.filters) {
            if n < ordered.len() {
                assert forall|i: int, j: int| 0 <= i < j < r.len() implies super::sort::task_order(
                    #[trigger] r[i],
                    #[trigger] r[j],
                    TaskSort::By(f),
                ) != super::order::Order::After by {
                    assert(r[i] == ordered[i] && r[j] == ordered[j]);
                }
            }
        }
    }
}

/// The query of one filter.
pub open spec fn single(f: FilterView) -> QueryView {
    QueryView { filters: seq![f], sort_by: None, group_by: None }
}

/// Two filters of which every task passes exactly one: `done` and
/// `not done`, `has due date` and `no due date`, and the like.
pub open spec fn split_pair(f: FilterView, g: FilterView) -> bool {
    match (f, g) {
        (FilterView::Done, FilterView::NotDone) => true,
        (FilterView::HasDueDate, FilterView::NoDueDate) => true,
        (FilterView::HasScheduledDate, FilterView::NoScheduledDate) => true,
        (FilterView::HasRecurrence, FilterView::NoRecurrence) => true,
        (FilterView::Tag(x), FilterView::NotTag(y)) => x == y,
        (FilterView::Folder(x), FilterView::NotFolder(y)) => x == y,
        (FilterView::Includes(x), FilterView::NotIncludes(y)) => x == y,
        (FilterView::PathIncludes(x), FilterView::PathNotIncludes(y)) => x == y,
        _ => false,
    }
}

proof fn lemma_filter_split(
    s: Seq<TaskView>,
    p: spec_fn(TaskView) -> bool,
    q: spec_fn(TaskView) -> bool,
)
    requires
        forall|t: TaskView| #[trigger] p(t) != q(t),
    ensures
        s.filter(p).len() + s.filter(q).len() == s.len(),
    decreases s.len(),
{
    reveal(Seq::filter);
    if s.len() > 0 {
        lemma_filter_split(s.drop_last(), p, q);
        assert(p(s.last()) != q(s.last()));
    }
}

/// The queries of two opposite filters split every task list in two:
/// each task is shown by exactly one of them, so the counts add up to the
/// whole list.
pub proof fn lemma_opposite_filters_split(f: FilterView, g: FilterView, ts: Seq<TaskView>)
    requires
        split_pair(f, g),
    ensures
        ({
            let r1 = select_spec(single(f), ts);
            let r2 = select_spec(single(g), ts);
            &&& r1.len() + r2.len() == ts.len()
            &&& forall|k: int| 0 <= k < r1.len() ==> matches(#[trigger] r1[k], f) && ts.contains(r1[k])
            &&& forall|k: int| 0 <= k < r2.len() ==> matches(#[trigger] r2[k], g) && ts.contains(r2[k])
        }),
{
    let p = passes_all(single(f).filters);
    let q = passes_all(single(g).filters);
    assert forall|t: TaskView| #[trigger] p(t) != q(t) by {
        assert(passes(t, seq![f]) == matches(t, f)) by {
            assert(seq![f][0] == f);
        }
        assert(passes(t, seq![g]) == matches(t, g)) by {
            assert(seq![g][0] == g);
        }
    }
    lemma_filter_split(ts, p, q);
    assert(seq![f].drop_first() =~= Seq::<FilterView>::empty());
    assert(seq![g].drop_first() =~= Seq::<FilterView>::empty());
    assert(first_limit(Seq::<FilterView>::empty()) is None);
    assert(seq![f][0] == f && seq![g][0] == g);
    assert(first_limit(seq![f]) is None);
    assert(first_limit(seq![g]) is None);
    assert(select_spec(single(f), ts) == ts.filter(p));
    assert(select_spec(single(g), ts) == ts.filter(q));
    lemma_select(single(f), ts);
    lemma_select(single(g), ts);
    let r1 = select_spec(single(f), ts);
    let r2 = select_spec(single(g), ts);
    assert forall|k: int| 0 <= k < r1.len() implies matches(#[trigger] r1[k], f) by {
        assert(passes(r1[k], seq![f]));
        assert(seq![f][0] == f);
    }
    assert forall|k: int| 0 <= k < r2.len() implies matches(#[trigger] r2[k], g) by {
        assert(passes(r2[k], seq![g]));
        assert(seq![g][0] == g);
    }
}

/// The date filters keep a task by the calendar order of its dates:
/// `due before d` exactly when it has a due date strictly earlier than `d`,
/// `due after d` exactly when it has one strictly later, `due on d` exactly
/// when its due date is `d`; so a task with a due date passes exactly one of
/// the three, and a task without one passes none. The same holds of the
/// scheduled date, and `happens before`/`after`/`on` keep a task when its
/// due or its scheduled date passes.
pub proof fn lemma_date_filters(t: TaskView, d: Date)
    ensures
        matches(t, FilterView::DueBefore(d)) <==> (t.due_date is Some && date_lt(
            t.due_date->Some_0,
            d,
        )),
        matches(t, FilterView::DueAfter(d)) <==> (t.due_date is Some && date_lt(
            d,
            t.due_date->Some_0,
        )),
        matches(t, FilterView::DueOn(d)) <==> t.due_date == Some(d),
        t.due_date is Some ==> (matches(t, FilterView::DueBefore(d)) as int) + (matches(
            t,
            FilterView::DueOn(d),
        ) as int) + (matches(t, FilterView::DueAfter(d)) as int) == 1,
        t.due_date is None ==> !matches(t, FilterView::DueBefore(d)) && !matches(
            t,
            FilterView::DueOn(d),
        ) && !matches(t, FilterView::DueAfter(d)),
        matches(t, FilterView::ScheduledBefore(d)) <==> (t.scheduled_date is Some && date_lt(
            t.scheduled_date->Some_0,
            d,
        )),
        matches(t, FilterView::ScheduledAfter(d)) <==> (t.scheduled_date is Some && date_lt(
            d,
            t.scheduled_date->Some_0,
        )),
        matches(t, FilterView::ScheduledOn(d)) <==> t.scheduled_date == Some(d),
        matches(t, FilterView::HappensBefore(d)) <==> (matches(t, FilterView::DueBefore(d))
            || matches(t, FilterView::ScheduledBefore(d))),
        matches(t, FilterView::HappensAfter(d)) <==> (matches(t, FilterView::DueAfter(d))
            || matches(t, FilterView::ScheduledAfter(d))),
        matches(t, FilterView::HappensOn(d)) <==> (matches(t, FilterView::DueOn(d)) || matches(
            t,
            FilterView::ScheduledOn(d),
        )),
{
    if let Some(v) = t.due_date {
        super::date::lemma_date_lt(v, d, v);
    }
}

} // verus!

