//! What the task list shows after an update: only tasks that the filter
//! text lets through, in the order of their files and lines.
use super::filter::shows;
use super::{positions, position_from, shown_from, updated_spec, AppView};
use crate::task::query::execute_query_spec;
use crate::task::date::Date;
use crate::task::order::Order;
use crate::task::sort::{lemma_sort_spec, sort_spec, sorted_by, task_order, TaskSort};
use crate::task::TaskView;
use vstd::prelude::*;

verus! {

/// The tasks that `idx` points at come in file-then-line order.
pub open spec fn in_file_order(ts: Seq<TaskView>, idx: Seq<usize>) -> bool {
    forall|i: int, j: int|
        0 <= i < j < idx.len() ==> task_order(
            ts[#[trigger] idx[i] as int],
            ts[#[trigger] idx[j] as int],
            TaskSort::FileThenLine,
        ) != Order::After
}

/// Each index of `idx` points at a task of `ts`.
pub open spec fn points_into(ts: Seq<TaskView>, idx: Seq<usize>) -> bool {
    forall|k: int| 0 <= k < idx.len() ==> #[trigger] idx[k] < ts.len()
}

/// Two tasks at the same place (file and line) compare alike with any task.
proof fn lemma_same_place(a: TaskView, b: TaskView, y: TaskView)
    requires
        a.source_file == b.source_file,
        a.line_number == b.line_number,
    ensures
        task_order(a, y, TaskSort::FileThenLine) == task_order(b, y, TaskSort::FileThenLine),
        task_order(y, a, TaskSort::FileThenLine) == task_order(y, b, TaskSort::FileThenLine),
{
}

proof fn lemma_position_from(ts: Seq<TaskView>, t: TaskView, i: int)
    requires
        0 <= i,
    ensures
        position_from(ts, t, i) <= ts.len(),
        position_from(ts, t, i) < ts.len() ==> i <= position_from(ts, t, i) && ts[position_from(
            ts,
            t,
            i,
        )].source_file == t.source_file && ts[position_from(ts, t, i)].line_number
            == t.line_number,
    decreases ts.len() - i,
{
    if i < ts.len() && !(ts[i].source_file == t.source_file && ts[i].line_number
        == t.line_number) {
        lemma_position_from(ts, t, i + 1);
    }
}

/// Where no task of `rs` comes after `y`, no task found for them does.
proof fn lemma_positions_bounded(ts: Seq<TaskView>, rs: Seq<TaskView>, y: TaskView)
    requires
        ts.len() <= usize::MAX,
        forall|m: int| 0 <= m < rs.len() ==> task_order(#[trigger] rs[m], y, TaskSort::FileThenLine)
            != Order::After,
    ensures
        points_into(ts, positions(ts, rs)),
        forall|k: int|
            0 <= k < positions(ts, rs).len() ==> task_order(
                ts[#[trigger] positions(ts, rs)[k] as int],
                y,
                TaskSort::FileThenLine,
            ) != Order::After,
    decreases rs.len(),
{
    if rs.len() > 0 {
        let rest = rs.drop_last();
        assert forall|m: int| 0 <= m < rest.len() implies task_order(
            #[trigger] rest[m],
            y,
            TaskSort::FileThenLine,
        ) != Order::After by {
            assert(rest[m] == rs[m]);
        }
        lemma_positions_bounded(ts, rest, y);
        let p = positions(ts, rest);
        let x = position_from(ts, rs.last(), 0);
        lemma_position_from(ts, rs.last(), 0);
        if x < ts.len() {
            lemma_same_place(ts[x], rs.last(), y);
            assert(task_order(rs[rs.len() - 1], y, TaskSort::FileThenLine) != Order::After);
            let q = p.push(x as usize);
            assert(positions(ts, rs) == q);
            assert forall|k: int| 0 <= k < q.len() implies #[trigger] q[k] < ts.len()
                && task_order(ts[q[k] as int], y, TaskSort::FileThenLine) != Order::After by {
                if k < p.len() {
                    assert(q[k] == p[k]);
                } else {
                    assert(q[k] == x);
                }
            }
        } else {
            assert(positions(ts, rs) == p);
        }
    }
}

/// The tasks found for a list in file-then-line order keep that order.
proof fn lemma_positions_in_order(ts: Seq<TaskView>, rs: Seq<TaskView>)
    requires
        ts.len() <= usize::MAX,
        sorted_by(rs, TaskSort::FileThenLine),
    ensures
        points_into(ts, positions(ts, rs)),
        in_file_order(ts, positions(ts, rs)),
    decreases rs.len(),
{
    if rs.len() > 0 {
        let rest = rs.drop_last();
        assert(sorted_by(rest, TaskSort::FileThenLine)) by {
            assert forall|i: int, j: int| 0 <= i < j < rest.len() implies task_order(
                #[trigger] rest[i],
                #[trigger] rest[j],
                TaskSort::FileThenLine,
            ) != Order::After by {
                assert(rest[i] == rs[i] && rest[j] == rs[j]);
            }
        }
        lemma_positions_in_order(ts, rest);
        let p = positions(ts, rest);
        let x = position_from(ts, rs.last(), 0);
        lemma_position_from(ts, rs.last(), 0);
        if x < ts.len() {
            let y = ts[x];
            assert forall|m: int| 0 <= m < rest.len() implies task_order(
                #[trigger] rest[m],
                y,
                TaskSort::FileThenLine,
            ) != Order::After by {
                assert(rest[m] == rs[m]);
                assert(task_order(rs[m], rs[rs.len() - 1], TaskSort::FileThenLine) != Order::After);
                lemma_same_place(y, rs.last(), rest[m]);
            }
            lemma_positions_bounded(ts, rest, y);
            let q = p.push(x as usize);
            assert(positions(ts, rs) == q);
            assert forall|i: int, j: int| 0 <= i < j < q.len() implies task_order(
                ts[#[trigger] q[i] as int],
                ts[#[trigger] q[j] as int],
                TaskSort::FileThenLine,
            ) != Order::After by {
                assert(q[i] == p[i]);
                if j < p.len() {
                    assert(q[j] == p[j]);
                } else {
                    assert(q[j] == x);
                }
            }
        } else {
            assert(positions(ts, rs) == p);
        }
    }
}

/// Keeping some of the indices keeps their order and where they point.
proof fn lemma_filter_in_order(ts: Seq<TaskView>, idx: Seq<usize>, keep: spec_fn(usize) -> bool)
    requires
        points_into(ts, idx),
        in_file_order(ts, idx),
    ensures
        points_into(ts, idx.filter(keep)),
        in_file_order(ts, idx.filter(keep)),
        forall|k: int| 0 <= k < idx.filter(keep).len() ==> keep(#[trigger] idx.filter(keep)[k]),
    decreases idx.len(),
{
    reveal(Seq::filter);
    if idx.len() > 0 {
        let rest = idx.drop_last();
        assert forall|i: int, j: int| 0 <= i < j < rest.len() implies task_order(
            ts[#[trigger] rest[i] as int],
            ts[#[trigger] rest[j] as int],
            TaskSort::FileThenLine,
        ) != Order::After by {
            assert(rest[i] == idx[i] && rest[j] == idx[j]);
        }
        assert forall|k: int| 0 <= k < rest.len() implies #[trigger] rest[k] < ts.len() by {
            assert(rest[k] == idx[k]);
        }
        lemma_filter_in_order(ts, rest, keep);
        let f = rest.filter(keep);
        let z = idx.last();
        if keep(z) {
            let q = f.push(z);
            assert(idx.filter(keep) == q);
            assert forall|i: int, j: int| 0 <= i < j < q.len() implies task_order(
                ts[#[trigger] q[i] as int],
                ts[#[trigger] q[j] as int],
                TaskSort::FileThenLine,
            ) != Order::After by {
                assert(q[i] == f[i]);
                if j < f.len() {
                    assert(q[j] == f[j]);
                } else {
                    assert(q[j] == z);
                    assert(f.contains(f[i]));
                    rest.lemma_filter_contains_rev(keep, f[i]);
                    let m = choose|m: int| 0 <= m < rest.len() && rest[m] == f[i];
                    assert(idx[m] == rest[m]);
                    assert(idx[idx.len() - 1] == z);
                }
            }
            assert forall|k: int| 0 <= k < q.len() implies #[trigger] q[k] < ts.len() by {
                if k < f.len() {
                    assert(q[k] == f[k]);
                } else {
                    assert(idx[idx.len() - 1] == z);
                }
            }
            assert forall|k: int| 0 <= k < q.len() implies keep(#[trigger] q[k]) by {
                if k < f.len() {
                    assert(q[k] == f[k]);
                }
            }
        } else {
            assert(idx.filter(keep) == f);
        }
    }
}

/// After the list is computed again for a view whose query parses, every
/// shown index points at a task that the filter text lets through, and the
/// shown tasks come in the order of their files and, within a file, of
/// their lines.
pub proof fn lemma_shown_in_file_order(a: AppView, today: Date)
    requires
        a.tasks.len() <= usize::MAX,
        execute_query_spec(a.current_view.query, a.tasks, today) is Ok,
    ensures
        ({
            let idx = updated_spec(a, today).filtered_indices;
            &&& points_into(a.tasks, idx)
            &&& forall|k: int|
                0 <= k < idx.len() ==> shows(a.tasks[#[trigger] idx[k] as int], a.filter_text)
            &&& in_file_order(a.tasks, idx)
        }),
{
    let r = execute_query_spec(a.current_view.query, a.tasks, today)->Ok_0;
    let ordered = sort_spec(r, TaskSort::FileThenLine);
    lemma_sort_spec(r, TaskSort::FileThenLine);
    lemma_positions_in_order(a.tasks, ordered);
    let keep = |i: usize| shows(a.tasks[i as int], a.filter_text);
    lemma_filter_in_order(a.tasks, positions(a.tasks, ordered), keep);
    let idx = shown_from(a, r);
    assert(idx == positions(a.tasks, ordered).filter(keep));
    assert(updated_spec(a, today).filtered_indices == idx);
    assert forall|k: int| 0 <= k < idx.len() implies shows(
        a.tasks[#[trigger] idx[k] as int],
        a.filter_text,
    ) by {
        assert(keep(idx[k]));
    }
}

} // verus!
