//! Reads the tasks of a markdown file: lines that start with `- [ ]`,
//! `- [x]` or `- [X]`, with emoji metadata after the description.
use super::date::{self, canonical_date, parsed_date, Date};
use super::{
    priority_char, priority_of_char, texts, Priority, Task, TaskStatus, TaskView, DONE_MARK,
    DUE_MARK, RECURRENCE_MARK, SCHEDULED_MARK, START_MARK,
};
use crate::text::{self, char_texts, trim};
use vstd::prelude::*;

verus! {

/// One of the ten emojis that end free text in a task line (the five
/// priorities and the markers of the due, start, recurrence, done and
/// scheduled metadata).
pub open spec fn is_marker(c: char) -> bool {
    ||| c == DUE_MARK
    ||| c == START_MARK
    ||| c == RECURRENCE_MARK
    ||| c == DONE_MARK
    ||| c == SCHEDULED_MARK
    ||| priority_of_char(c) is Some
}

/// A marker that a date follows.
pub open spec fn is_date_mark(c: char) -> bool {
    c == DUE_MARK || c == START_MARK || c == DONE_MARK || c == SCHEDULED_MARK
}

pub open spec fn is_date_char(c: char) -> bool {
    date::is_digit(c) || c == '-' || c == '/'
}

/// Unicode `Alphabetic` or `Numeric`, as `char::is_alphanumeric` decides it.
pub uninterp spec fn alphanumeric(c: char) -> bool;

/// Calls `char::is_alphanumeric`. Its result is the name `alphanumeric`; for
/// ASCII it is stated: exactly the letters and digits. No whitespace char
/// (Unicode `White_Space`, as `char::is_whitespace` has it) is alphabetic
/// or numeric.
#[verifier::external_body]
fn is_alphanumeric(c: char) -> (r: bool)
    ensures
        r == alphanumeric(c),
        r ==> !text::is_ws(c),
        (c as u32) < 128 ==> (r <==> (('a' <= c && c <= 'z') || ('A' <= c && c <= 'Z') || (
        '0' <= c && c <= '9'))),
{
    c.is_alphanumeric()
}

/// An ASCII letter or digit.
pub open spec fn ascii_alphanumeric(c: char) -> bool {
    ('a' <= c && c <= 'z') || ('A' <= c && c <= 'Z') || ('0' <= c && c <= '9')
}

/// A char that a tag may hold: a letter or digit (for ASCII chars stated
/// here, for the others the name `alphanumeric`, which no whitespace char
/// meets), `_`, `-` or `/`.
pub open spec fn is_tag_char(c: char) -> bool {
    ||| c == '_'
    ||| c == '-'
    ||| c == '/'
    ||| ((c as u32) < 128 && ascii_alphanumeric(c))
    ||| ((c as u32) >= 128 && alphanumeric(c) && !text::is_ws(c))
}

/// The kinds of runs of chars that the scanner reads.
pub enum Run {
    Spaces,
    DateChars,
    Text,
    TagChars,
}

pub open spec fn in_run(k: Run, c: char) -> bool {
    match k {
        Run::Spaces => c == ' ',
        Run::DateChars => is_date_char(c),
        Run::Text => !(is_marker(c) || c == '#'),
        Run::TagChars => is_tag_char(c),
    }
}

/// The end of the run of kind `k` that starts at `i`.
pub open spec fn run_end(s: Seq<char>, i: int, k: Run) -> int
    decreases s.len() - i,
{
    if 0 <= i < s.len() && in_run(k, s[i]) {
        run_end(s, i + 1, k)
    } else {
        i
    }
}

pub proof fn lemma_run_end(s: Seq<char>, i: int, k: Run)
    requires
        0 <= i <= s.len(),
    ensures
        i <= run_end(s, i, k) <= s.len(),
        forall|j: int| i <= j < run_end(s, i, k) ==> in_run(k, #[trigger] s[j]),
        run_end(s, i, k) < s.len() ==> !in_run(k, s[run_end(s, i, k)]),
    decreases s.len() - i,
{
    if i < s.len() && in_run(k, s[i]) {
        lemma_run_end(s, i + 1, k);
    }
}

/// A run of kind `k` from `i` that stops at `e` ends there.
pub proof fn lemma_run_end_at(s: Seq<char>, i: int, k: Run, e: int)
    requires
        0 <= i <= e <= s.len(),
        forall|j: int| i <= j < e ==> in_run(k, #[trigger] s[j]),
        e < s.len() ==> !in_run(k, s[e]),
    ensures
        run_end(s, i, k) == e,
    decreases e - i,
{
    if i < e {
        lemma_run_end_at(s, i + 1, k, e);
    }
}

/// The state of the scan of a task line.
#[verifier::ext_equal]
pub struct ScanState {
    pub desc: Seq<char>,
    pub cur: Seq<char>,
    pub priority: Priority,
    pub due: Option<Date>,
    pub scheduled: Option<Date>,
    pub start: Option<Date>,
    pub done: Option<Date>,
    pub recurrence: Option<Seq<char>>,
    pub tags: Seq<Seq<char>>,
}

pub open spec fn initial_scan() -> ScanState {
    ScanState {
        desc: seq![],
        cur: seq![],
        priority: Priority::Unset,
        due: None,
        scheduled: None,
        start: None,
        done: None,
        recurrence: None,
        tags: seq![],
    }
}

/// The word read so far goes, trimmed, to the description.
pub open spec fn flush(st: ScanState) -> ScanState {
    ScanState { desc: st.desc + trim(st.cur), cur: seq![], ..st }
}

/// What `NaiveDate::parse_from_str` reads from a run of date chars with a
/// format: the date of a ten-char canonical text, else chrono's reading.
pub open spec fn read_date(t: Seq<char>, sep: char, fmt: Seq<char>) -> Option<Date> {
    match canonical_date(t, sep) {
        Some(d) => Some(d),
        None => parsed_date(t, fmt),
    }
}

/// The date that a run of date chars writes, as `YYYY-MM-DD` or else `YYYY/MM/DD`.
pub open spec fn date_value(t: Seq<char>) -> Option<Date> {
    match read_date(t, '-', "%Y-%m-%d"@) {
        Some(d) => Some(d),
        None => read_date(t, '/', "%Y/%m/%d"@),
    }
}

pub open spec fn set_date(st: ScanState, mark: char, d: Option<Date>) -> ScanState {
    if mark == DUE_MARK {
        ScanState { due: d, ..st }
    } else if mark == START_MARK {
        ScanState { start: d, ..st }
    } else if mark == DONE_MARK {
        ScanState { done: d, ..st }
    } else {
        ScanState { scheduled: d, ..st }
    }
}

/// The scan of `s` from `i`: free text collects in `cur`; a date marker
/// reads the date after it (after spaces); the recurrence marker reads the
/// text up to the next marker or `#`; a priority emoji sets the priority;
/// `#` reads a tag. Each marker first moves the word read so far to the
/// description.
pub open spec fn scan(s: Seq<char>, i: int, st: ScanState) -> ScanState
    decreases s.len() - i,
{
    if i < 0 || i >= s.len() {
        st
    } else {
        let c = s[i];
        if is_date_mark(c) {
            proof {
                lemma_run_end(s, i + 1, Run::Spaces);
                lemma_run_end(s, run_end(s, i + 1, Run::Spaces), Run::DateChars);
            }
            let j = run_end(s, i + 1, Run::Spaces);
            let k = run_end(s, j, Run::DateChars);
            scan(s, k, set_date(flush(st), c, date_value(s.subrange(j, k))))
        } else if c == RECURRENCE_MARK {
            proof {
                lemma_run_end(s, i + 1, Run::Spaces);
                lemma_run_end(s, run_end(s, i + 1, Run::Spaces), Run::Text);
            }
            let j = run_end(s, i + 1, Run::Spaces);
            let k = run_end(s, j, Run::Text);
            scan(s, k, ScanState { recurrence: Some(trim(s.subrange(j, k))), ..flush(st) })
        } else if priority_of_char(c) is Some {
            scan(s, i + 1, ScanState { priority: priority_of_char(c)->0, ..flush(st) })
        } else if c == '#' {
            proof {
                lemma_run_end(s, i + 1, Run::TagChars);
            }
            let k = run_end(s, i + 1, Run::TagChars);
            let tag = s.subrange(i + 1, k);
            let f = flush(st);
            scan(
                s,
                k,
                ScanState {
                    tags: if tag.len() > 0 {
                        f.tags.push(tag)
                    } else {
                        f.tags
                    },
                    ..f
                },
            )
        } else {
            scan(s, i + 1, ScanState { cur: st.cur.push(c), ..st })
        }
    }
}

/// The description once the line is read: the last word joins it after a
/// space, and the whole is trimmed.
pub open spec fn final_description(st: ScanState) -> Seq<char> {
    let tc = trim(st.cur);
    let d = if tc.len() > 0 {
        if st.desc.len() > 0 {
            st.desc + seq![' '] + tc
        } else {
            tc
        }
    } else {
        st.desc
    };
    trim(d)
}

pub open spec fn todo_box() -> Seq<char> {
    seq!['-', ' ', '[', ' ', ']']
}

pub open spec fn done_box() -> Seq<char> {
    seq!['-', ' ', '[', 'x', ']']
}

pub open spec fn done_box_upper() -> Seq<char> {
    seq!['-', ' ', '[', 'X', ']']
}

pub open spec fn starts_with(s: Seq<char>, p: Seq<char>) -> bool {
    s.len() >= p.len() && s.subrange(0, p.len() as int) == p
}

/// The status that the checkbox of a trimmed line gives, if it has one.
pub open spec fn line_status(t: Seq<char>) -> Option<TaskStatus> {
    if starts_with(t, todo_box()) {
        Some(TaskStatus::Todo)
    } else if starts_with(t, done_box()) || starts_with(t, done_box_upper()) {
        Some(TaskStatus::Done)
    } else {
        None
    }
}

/// The task that a line writes, if it is a task line with some text after
/// its checkbox.
pub open spec fn parse_line_spec(line: Seq<char>, line_number: nat, source: Seq<char>) -> Option<
    TaskView,
> {
    let t = trim(line);
    match line_status(t) {
        None => None,
        Some(status) => {
            let rest = trim(t.subrange(5, t.len() as int));
            if rest.len() == 0 {
                None
            } else {
                let st = scan(rest, 0, initial_scan());
                Some(
                    TaskView {
                        description: final_description(st),
                        status,
                        priority: st.priority,
                        due_date: st.due,
                        scheduled_date: st.scheduled,
                        recurrence: st.recurrence,
                        done_date: st.done,
                        start_date: st.start,
                        tags: st.tags,
                        source_file: source,
                        line_number,
                    },
                )
            }
        },
    }
}

/// The tasks of a sequence of lines, numbered from 1.
pub open spec fn tasks_of_lines(ls: Seq<Seq<char>>, source: Seq<char>) -> Seq<TaskView>
    decreases ls.len(),
{
    if ls.len() == 0 {
        seq![]
    } else {
        let prev = tasks_of_lines(ls.drop_last(), source);
        match parse_line_spec(ls.last(), ls.len() as nat, source) {
            Some(t) => prev.push(t),
            None => prev,
        }
    }
}

/// The tasks of a file's content, each with its 1-based line number.
pub open spec fn parse_file_spec(content: Seq<char>, source: Seq<char>) -> Seq<TaskView> {
    tasks_of_lines(text::lines(content), source)
}

pub open spec fn views(ts: Seq<Task>) -> Seq<TaskView> {
    ts.map_values(|t: Task| t@)
}

fn is_marker_char(c: char) -> (r: bool)
    ensures
        r == is_marker(c),
{
    c == DUE_MARK || c == START_MARK || c == RECURRENCE_MARK || c == DONE_MARK || c
        == SCHEDULED_MARK || priority_char(c).is_some()
}

fn in_run_exec(k: &Run, c: char) -> (r: bool)
    ensures
        r == in_run(*k, c),
{
    match k {
        Run::Spaces => c == ' ',
        Run::DateChars => ('0' <= c && c <= '9') || c == '-' || c == '/',
        Run::Text => !(is_marker_char(c) || c == '#'),
        Run::TagChars => is_alphanumeric(c) || c == '_' || c == '-' || c == '/',
    }
}

/// Where the run of kind `k` that starts at `i` ends.
fn run_end_exec(s: &Vec<char>, i: usize, k: Run) -> (r: usize)
    requires
        i <= s.len(),
    ensures
        r == run_end(s@, i as int, k),
        i <= r <= s.len(),
{
    let mut j = i;
    while j < s.len() && in_run_exec(&k, s[j])
        invariant
            i <= j <= s.len(),
            run_end(s@, i as int, k) == run_end(s@, j as int, k),
        decreases s.len() - j,
    {
        j += 1;
    }
    j
}

/// The date that a run of date chars writes.
fn date_value_exec(t: &Vec<char>) -> (r: Option<Date>)
    ensures
        r == date_value(t@),
{
    let s = text::string_of(t);
    match date::parse_from_str(s.as_str(), "%Y-%m-%d") {
        Some(d) => Some(d),
        None => date::parse_from_str(s.as_str(), "%Y/%m/%d"),
    }
}

/// The scan state held in vectors.
struct LineState {
    desc: Vec<char>,
    cur: Vec<char>,
    priority: Priority,
    due: Option<Date>,
    scheduled: Option<Date>,
    start: Option<Date>,
    done: Option<Date>,
    recurrence: Option<Vec<char>>,
    tags: Vec<Vec<char>>,
}

impl View for LineState {
    type V = ScanState;

    closed spec fn view(&self) -> ScanState {
        ScanState {
            desc: self.desc@,
            cur: self.cur@,
            priority: self.priority,
            due: self.due,
            scheduled: self.scheduled,
            start: self.start,
            done: self.done,
            recurrence: match self.recurrence {
                Some(r) => Some(r@),
                None => None,
            },
            tags: char_texts(self.tags@),
        }
    }
}

impl LineState {
    fn flush(&mut self)
        ensures
            final(self)@ == flush(old(self)@),
    {
        let tc = text::trim_chars(&self.cur);
        text::append_chars(&mut self.desc, &tc);
        self.cur = Vec::new();
        assert(self@ =~= flush(old(self)@));
    }
}

/// One step of the scan at `i`; returns where the next step starts.
fn scan_step(r: &Vec<char>, i: usize, st: &mut LineState) -> (next: usize)
    requires
        i < r.len(),
    ensures
        i < next <= r.len(),
        scan(r@, i as int, old(st)@) == scan(r@, next as int, final(st)@),
{
    let c = r[i];
    let ghost s = r@;
    if c == DUE_MARK || c == START_MARK || c == DONE_MARK || c == SCHEDULED_MARK {
        st.flush();
        let j = run_end_exec(r, i + 1, Run::Spaces);
        let k = run_end_exec(r, j, Run::DateChars);
        let t = text::copy_range(r, j, k);
        let d = date_value_exec(&t);
        if c == DUE_MARK {
            st.due = d;
        } else if c == START_MARK {
            st.start = d;
        } else if c == DONE_MARK {
            st.done = d;
        } else {
            st.scheduled = d;
        }
        assert(st@ =~= set_date(flush(old(st)@), c, date_value(s.subrange(j as int, k as int))));
        k
    } else if c == RECURRENCE_MARK {
        st.flush();
        let j = run_end_exec(r, i + 1, Run::Spaces);
        let k = run_end_exec(r, j, Run::Text);
        let t = text::copy_range(r, j, k);
        let rec = text::trim_chars(&t);
        st.recurrence = Some(rec);
        assert(st@ =~= ScanState {
            recurrence: Some(trim(s.subrange(j as int, k as int))),
            ..flush(old(st)@)
        });
        k
    } else if let Some(p) = priority_char(c) {
        st.flush();
        st.priority = p;
        assert(st@ =~= ScanState { priority: priority_of_char(c)->0, ..flush(old(st)@) });
        i + 1
    } else if c == '#' {
        st.flush();
        let ghost f = st@;
        let k = run_end_exec(r, i + 1, Run::TagChars);
        let tag = text::copy_range(r, i + 1, k);
        if tag.len() > 0 {
            st.tags.push(tag);
        }
        assert(st@ =~= ScanState {
            tags: if s.subrange(i + 1, k as int).len() > 0 {
                f.tags.push(s.subrange(i + 1, k as int))
            } else {
                f.tags
            },
            ..f
        });
        k
    } else {
        st.cur.push(c);
        assert(st@ =~= ScanState { cur: old(st)@.cur.push(c), ..old(st)@ });
        i + 1
    }
}

/// The text of the last word joined to the description, trimmed.
fn finish_description(st: &LineState) -> (r: Vec<char>)
    ensures
        r@ == final_description(st@),
{
    let tc = text::trim_chars(&st.cur);
    let mut d: Vec<char> = Vec::new();
    text::append_chars(&mut d, &st.desc);
    assert(d@ =~= st@.desc);
    if tc.len() > 0 {
        if st.desc.len() > 0 {
            d.push(' ');
            text::append_chars(&mut d, &tc);
            assert(d@ =~= st@.desc + seq![' '] + trim(st@.cur));
        } else {
            d = tc;
        }
    }
    text::trim_chars(&d)
}

/// The strings of a list of char vectors.
fn strings_of(v: &Vec<Vec<char>>) -> (r: Vec<String>)
    ensures
        texts(r@) == char_texts(v@),
{
    let mut out: Vec<String> = Vec::new();
    let mut i: usize = 0;
    while i < v.len()
        invariant
            i <= v.len(),
            out@.len() == i,
            texts(out@) == char_texts(v@.subrange(0, i as int)),
        decreases v.len() - i,
    {
        let sv = text::string_of(&v[i]);
        let ghost prev = out@;
        out.push(sv);
        assert(out@ == prev.push(sv));
        assert forall|j: int| 0 <= j < i + 1 implies #[trigger] texts(out@)[j] == char_texts(
            v@.subrange(0, i + 1),
        )[j] by {
            if j < i {
                assert(texts(prev)[j] == char_texts(v@.subrange(0, i as int))[j]);
            }
        }
        i += 1;
        assert(texts(out@) =~= char_texts(v@.subrange(0, i as int)));
    }
    assert(v@.subrange(0, v@.len() as int) =~= v@);
    out
}

/// Whether `line[lo..]` opens with the checkbox `b`.
fn opens_with(line: &Vec<char>, lo: usize, hi: usize, b: &Vec<char>) -> (r: bool)
    requires
        lo <= hi <= line.len(),
        b.len() == 5,
    ensures
        r == starts_with(line@.subrange(lo as int, hi as int), b@),
{
    if hi - lo < 5 {
        return false;
    }
    let m = text::matches_at(line, b, lo);
    assert(line@.subrange(lo as int, hi as int).subrange(0, 5) =~= line@.subrange(
        lo as int,
        lo + 5,
    ));
    m
}

/// The task that a line writes, if it is a task line with some text after
/// its checkbox.
fn parse_line(line: &Vec<char>, line_number: usize, source_file: &str) -> (r: Option<Task>)
    ensures
        match r {
            Some(t) => parse_line_spec(line@, line_number as nat, source_file@) == Some(t@),
            None => parse_line_spec(line@, line_number as nat, source_file@) is None,
        },
{
    let (lo, hi) = text::trim_bounds(line, 0, line.len());
    assert(line@.subrange(0, line@.len() as int) =~= line@);
    let ghost t = trim(line@);
    let todo: Vec<char> = vec!['-', ' ', '[', ' ', ']'];
    let done: Vec<char> = vec!['-', ' ', '[', 'x', ']'];
    let done_upper: Vec<char> = vec!['-', ' ', '[', 'X', ']'];
    assert(todo@ =~= todo_box());
    assert(done@ =~= done_box());
    assert(done_upper@ =~= done_box_upper());
    let status = if opens_with(line, lo, hi, &todo) {
        TaskStatus::Todo
    } else if opens_with(line, lo, hi, &done) || opens_with(line, lo, hi, &done_upper) {
        TaskStatus::Done
    } else {
        return None;
    };
    assert(line_status(t) == Some(status));
    let (a, b) = text::trim_bounds(line, lo + 5, hi);
    assert(t.subrange(5, t.len() as int) =~= line@.subrange(lo + 5, hi as int));
    if a == b {
        return None;
    }
    let rest = text::copy_range(line, a, b);
    let mut st = LineState {
        desc: Vec::new(),
        cur: Vec::new(),
        priority: Priority::Unset,
        due: None,
        scheduled: None,
        start: None,
        done: None,
        recurrence: None,
        tags: Vec::new(),
    };
    assert(st@ =~= initial_scan());
    let mut i: usize = 0;
    while i < rest.len()
        invariant
            i <= rest.len(),
            scan(rest@, 0, initial_scan()) == scan(rest@, i as int, st@),
        decreases rest.len() - i,
    {
        i = scan_step(&rest, i, &mut st);
    }
    assert(scan(rest@, i as int, st@) == st@);
    let description = finish_description(&st);
    let task = Task {
        description: text::string_of(&description),
        status,
        priority: st.priority,
        due_date: st.due,
        scheduled_date: st.scheduled,
        recurrence: match &st.recurrence {
            Some(v) => Some(text::string_of(v)),
            None => None,
        },
        done_date: st.done,
        start_date: st.start,
        tags: strings_of(&st.tags),
        source_file: source_file.to_owned(),
        line_number,
    };
    assert(task@ =~= parse_line_spec(line@, line_number as nat, source_file@)->0);
    Some(task)
}

/// The tasks of a markdown file's content, in line order, each with the
/// given source and its 1-based line number.
pub fn parse_file(content: &str, source_file: &str) -> (r: Vec<Task>)
    ensures
        views(r@) == parse_file_spec(content@, source_file@),
{
    let chars = text::chars_of(content);
    let ls = text::lines_of(&chars);
    let ghost all = text::lines(chars@);
    let mut tasks: Vec<Task> = Vec::new();
    let mut k: usize = 0;
    while k < ls.len()
        invariant
            k <= ls.len(),
            ls@.len() == all.len(),
            forall|j: int| 0 <= j < ls@.len() ==> #[trigger] ls@[j]@ == all[j],
            views(tasks@) == tasks_of_lines(all.subrange(0, k as int), source_file@),
        decreases ls.len() - k,
    {
        let parsed = parse_line(&ls[k], k + 1, source_file);
        proof {
            let pre = all.subrange(0, k + 1);
            assert(pre.drop_last() =~= all.subrange(0, k as int));
            assert(pre.last() == ls@[k as int]@);
        }
        if let Some(t) = parsed {
            tasks.push(t);
            assert(views(tasks@) =~= tasks_of_lines(all.subrange(0, k + 1), source_file@));
        } else {
            assert(views(tasks@) =~= tasks_of_lines(all.subrange(0, k + 1), source_file@));
        }
        k += 1;
    }
    assert(all.subrange(0, all.len() as int) =~= all);
    tasks
}

} // verus!
