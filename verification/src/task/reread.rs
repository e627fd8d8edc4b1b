//! Reading back a written task: the line that `Task::to_markdown` writes
//! parses to the same task, whenever the task's texts can stand in a line.
use super::date::{is_digit, iso_text, lemma_iso_canonical, lemma_iso_text_chars, Date};
use super::parser::{
    date_value, final_description, flush, in_run, initial_scan, is_date_mark, is_marker,
    is_tag_char, lemma_run_end_at, line_status, parse_line_spec, run_end, scan, set_date,
    parse_file_spec, starts_with, tasks_of_lines, todo_box, Run, ScanState,
};
use super::{
    date_part, join_words, markdown, markdown_parts, priority_mark, priority_of_char,
    priority_part, recurrence_part, status_box, tag_parts, Priority, TaskStatus, TaskView,
    DONE_MARK, DUE_MARK, RECURRENCE_MARK, SCHEDULED_MARK, START_MARK,
};
use crate::text::{is_ws, lemma_trim_id, lemma_trim_lead_space, lemma_trim_push_ws, trim};
use vstd::prelude::*;

verus! {

/// Text that a line holds as it is: no marker emoji and no `#`.
pub open spec fn plain(s: Seq<char>) -> bool {
    forall|i: int| 0 <= i < s.len() ==> !is_marker(#[trigger] s[i]) && s[i] != '#'
}

/// Some text that neither starts nor ends with whitespace.
pub open spec fn trimmed(s: Seq<char>) -> bool {
    s.len() > 0 && !is_ws(s[0]) && !is_ws(s.last())
}

/// A tag that a line holds: one or more tag chars.
pub open spec fn tag_text(g: Seq<char>) -> bool {
    g.len() > 0 && forall|i: int| 0 <= i < g.len() ==> is_tag_char(#[trigger] g[i])
}

/// No tag char is whitespace.
proof fn lemma_tag_char_not_ws(c: char)
    requires
        is_tag_char(c),
    ensures
        !is_ws(c),
{
}

/// A date that a line can hold: a valid one, of a year from 0 to 9999
/// (written in four digits).
pub open spec fn writable_date(d: Option<Date>) -> bool {
    d matches Some(x) ==> x.wf() && 0 <= x.ymd().0 <= 9999
}

/// `NaiveDate::parse_from_str` reads the `%Y-%m-%d` text of the date back
/// as the date.
pub open spec fn reads_back(d: Option<Date>) -> bool {
    d matches Some(x) ==> date_value(iso_text(x)) == Some(x)
}

/// A recurrence text that a line holds: empty, or plain trimmed text.
pub open spec fn rec_text(r: Seq<char>) -> bool {
    (r.len() == 0 || trimmed(r)) && plain(r)
}

/// A task that its markdown line holds in full: a description of plain
/// trimmed text, a recurrence that is empty or plain trimmed text, tags of
/// tag chars, dates of four-digit years.
pub open spec fn writable(t: TaskView) -> bool {
    &&& trimmed(t.description)
    &&& plain(t.description)
    &&& (t.recurrence matches Some(r) ==> rec_text(r))
    &&& forall|k: int| 0 <= k < t.tags.len() ==> tag_text(#[trigger] t.tags[k])
    &&& writable_date(t.due_date)
    &&& writable_date(t.scheduled_date)
    &&& writable_date(t.start_date)
    &&& writable_date(t.done_date)
}

/// Each date of the task reads back as itself.
pub open spec fn dates_read_back(t: TaskView) -> bool {
    &&& reads_back(t.due_date)
    &&& reads_back(t.scheduled_date)
    &&& reads_back(t.start_date)
    &&& reads_back(t.done_date)
}

proof fn lemma_date_reads_back(d: Option<Date>)
    requires
        writable_date(d),
    ensures
        reads_back(d),
{
    if let Some(x) = d {
        lemma_iso_canonical(x);
    }
}

/// The dates of a task that a line can hold read back as themselves.
proof fn lemma_dates_read_back(t: TaskView)
    requires
        writable(t),
    ensures
        dates_read_back(t),
{
    lemma_date_reads_back(t.due_date);
    lemma_date_reads_back(t.scheduled_date);
    lemma_date_reads_back(t.start_date);
    lemma_date_reads_back(t.done_date);
}

/// A word of the metadata that follows the description.
pub enum Word {
    Prio(Priority),
    Dated(char, Date),
    Rec(Seq<char>),
    Tag(Seq<char>),
}

pub open spec fn word_text(w: Word) -> Seq<char> {
    match w {
        Word::Prio(p) => seq![priority_mark(p)],
        Word::Dated(m, d) => seq![m, ' '] + iso_text(d),
        Word::Rec(r) => seq![RECURRENCE_MARK, ' '] + r,
        Word::Tag(g) => seq!['#'] + g,
    }
}

pub open spec fn word_texts(ws: Seq<Word>) -> Seq<Seq<char>> {
    ws.map_values(|w: Word| word_text(w))
}

pub open spec fn good_word(w: Word) -> bool {
    match w {
        Word::Prio(p) => p != Priority::Unset,
        Word::Dated(m, d) => is_date_mark(m) && writable_date(Some(d)) && reads_back(Some(d)),
        Word::Rec(r) => rec_text(r),
        Word::Tag(g) => tag_text(g),
    }
}

/// What reading a word sets in the scan state.
pub open spec fn set_field(st: ScanState, w: Word) -> ScanState {
    match w {
        Word::Prio(p) => ScanState { priority: p, ..st },
        Word::Dated(m, d) => set_date(st, m, Some(d)),
        Word::Rec(r) => ScanState { recurrence: Some(r), ..st },
        Word::Tag(g) => ScanState { tags: st.tags.push(g), ..st },
    }
}

/// The words, each after one space.
pub open spec fn spaced(ws: Seq<Word>) -> Seq<char>
    decreases ws.len(),
{
    if ws.len() == 0 {
        seq![]
    } else {
        seq![' '] + word_text(ws[0]) + spaced(ws.drop_first())
    }
}

/// The scan state after reading the words: each word first moves the text
/// read so far to the description, then sets its field.
pub open spec fn scan_words(st: ScanState, ws: Seq<Word>) -> ScanState
    decreases ws.len(),
{
    if ws.len() == 0 {
        st
    } else {
        scan_words(set_field(flush(st), ws[0]), ws.drop_first())
    }
}

/// The scan state without its description and pending text.
pub open spec fn without_text(st: ScanState) -> ScanState {
    ScanState { desc: seq![], cur: seq![], ..st }
}

pub open spec fn apply_fields(st: ScanState, ws: Seq<Word>) -> ScanState
    decreases ws.len(),
{
    if ws.len() == 0 {
        st
    } else {
        apply_fields(set_field(st, ws[0]), ws.drop_first())
    }
}

pub open spec fn date_words(m: char, d: Option<Date>) -> Seq<Word> {
    match d {
        Some(x) => seq![Word::Dated(m, x)],
        None => seq![],
    }
}

pub open spec fn prio_words(p: Priority) -> Seq<Word> {
    if p == Priority::Unset {
        seq![]
    } else {
        seq![Word::Prio(p)]
    }
}

pub open spec fn rec_words(r: Option<Seq<char>>) -> Seq<Word> {
    match r {
        Some(x) => seq![Word::Rec(x)],
        None => seq![],
    }
}

pub open spec fn tag_words(tags: Seq<Seq<char>>) -> Seq<Word> {
    tags.map_values(|g: Seq<char>| Word::Tag(g))
}

/// The metadata words of a task, in the order the markdown writes them.
pub open spec fn words(t: TaskView) -> Seq<Word> {
    prio_words(t.priority) + date_words(DUE_MARK, t.due_date) + date_words(
        SCHEDULED_MARK,
        t.scheduled_date,
    ) + date_words(START_MARK, t.start_date) + rec_words(t.recurrence) + date_words(
        DONE_MARK,
        t.done_date,
    ) + tag_words(t.tags)
}

proof fn lemma_good_append(a: Seq<Word>, b: Seq<Word>)
    requires
        forall|k: int| 0 <= k < a.len() ==> good_word(#[trigger] a[k]),
        forall|k: int| 0 <= k < b.len() ==> good_word(#[trigger] b[k]),
    ensures
        forall|k: int| 0 <= k < (a + b).len() ==> good_word(#[trigger] (a + b)[k]),
{
    assert forall|k: int| 0 <= k < (a + b).len() implies good_word(#[trigger] (a + b)[k]) by {
        if k < a.len() {
            assert((a + b)[k] == a[k]);
        } else {
            assert((a + b)[k] == b[k - a.len()]);
        }
    }
}

proof fn lemma_words_good(t: TaskView)
    requires
        writable(t),
        dates_read_back(t),
    ensures
        forall|k: int| 0 <= k < words(t).len() ==> good_word(#[trigger] words(t)[k]),
{
    let p = prio_words(t.priority);
    let r = rec_words(t.recurrence);
    let du = date_words(DUE_MARK, t.due_date);
    let sc = date_words(SCHEDULED_MARK, t.scheduled_date);
    let stt = date_words(START_MARK, t.start_date);
    let dn = date_words(DONE_MARK, t.done_date);
    let tg = tag_words(t.tags);
    assert forall|k: int| 0 <= k < tg.len() implies good_word(#[trigger] tg[k]) by {
        assert(tag_text(t.tags[k]));
    }
    lemma_good_append(p, du);
    lemma_good_append(p + du, sc);
    lemma_good_append(p + du + sc, stt);
    lemma_good_append(p + du + sc + stt, r);
    lemma_good_append(p + du + sc + stt + r, dn);
    lemma_good_append(p + du + sc + stt + r + dn, tg);
    assert(words(t) == p + du + sc + stt + r + dn + tg);
}

proof fn lemma_word_texts_append(a: Seq<Word>, b: Seq<Word>)
    ensures
        word_texts(a + b) == word_texts(a) + word_texts(b),
{
    assert(word_texts(a + b) =~= word_texts(a) + word_texts(b));
}

/// The markdown words of a task are its checkbox, its description and the
/// texts of its metadata words.
proof fn lemma_chunk_texts(t: TaskView)
    ensures
        word_texts(prio_words(t.priority)) == priority_part(t.priority),
        word_texts(date_words(DUE_MARK, t.due_date)) == date_part(DUE_MARK, t.due_date),
        word_texts(date_words(SCHEDULED_MARK, t.scheduled_date)) == date_part(
            SCHEDULED_MARK,
            t.scheduled_date,
        ),
        word_texts(date_words(START_MARK, t.start_date)) == date_part(START_MARK, t.start_date),
        word_texts(rec_words(t.recurrence)) == recurrence_part(t.recurrence),
        word_texts(date_words(DONE_MARK, t.done_date)) == date_part(DONE_MARK, t.done_date),
        word_texts(tag_words(t.tags)) == tag_parts(t.tags),
{
    assert(word_texts(prio_words(t.priority)) =~= priority_part(t.priority));
    assert(word_texts(date_words(DUE_MARK, t.due_date)) =~= date_part(DUE_MARK, t.due_date));
    assert(word_texts(date_words(SCHEDULED_MARK, t.scheduled_date)) =~= date_part(
        SCHEDULED_MARK,
        t.scheduled_date,
    ));
    assert(word_texts(date_words(START_MARK, t.start_date)) =~= date_part(
        START_MARK,
        t.start_date,
    ));
    assert(word_texts(rec_words(t.recurrence)) =~= recurrence_part(t.recurrence));
    assert(word_texts(date_words(DONE_MARK, t.done_date)) =~= date_part(DONE_MARK, t.done_date));
    assert(word_texts(tag_words(t.tags)) =~= tag_parts(t.tags));
}

/// The markdown words of a task are its checkbox, its description and the
/// texts of its metadata words.
proof fn lemma_markdown_parts(t: TaskView)
    ensures
        markdown_parts(t) == seq![status_box(t.status), t.description] + word_texts(words(t)),
{
    let p = prio_words(t.priority);
    let du = date_words(DUE_MARK, t.due_date);
    let sc = date_words(SCHEDULED_MARK, t.scheduled_date);
    let stt = date_words(START_MARK, t.start_date);
    let r = rec_words(t.recurrence);
    let dn = date_words(DONE_MARK, t.done_date);
    let tg = tag_words(t.tags);
    lemma_chunk_texts(t);
    lemma_word_texts_append(p, du);
    lemma_word_texts_append(p + du, sc);
    lemma_word_texts_append(p + du + sc, stt);
    lemma_word_texts_append(p + du + sc + stt, r);
    lemma_word_texts_append(p + du + sc + stt + r, dn);
    lemma_word_texts_append(p + du + sc + stt + r + dn, tg);
    let p0 = seq![status_box(t.status), t.description];
    let a1 = word_texts(p);
    let a2 = word_texts(du);
    let a3 = word_texts(sc);
    let a4 = word_texts(stt);
    let a5 = word_texts(r);
    let a6 = word_texts(dn);
    let a7 = word_texts(tg);
    vstd::seq_lib::lemma_concat_associative(p0, a1, a2);
    vstd::seq_lib::lemma_concat_associative(p0, a1 + a2, a3);
    vstd::seq_lib::lemma_concat_associative(p0, a1 + a2 + a3, a4);
    vstd::seq_lib::lemma_concat_associative(p0, a1 + a2 + a3 + a4, a5);
    vstd::seq_lib::lemma_concat_associative(p0, a1 + a2 + a3 + a4 + a5, a6);
    vstd::seq_lib::lemma_concat_associative(p0, a1 + a2 + a3 + a4 + a5 + a6, a7);
}

proof fn lemma_spaced_last(ws: Seq<Word>)
    requires
        ws.len() > 0,
    ensures
        spaced(ws) == spaced(ws.drop_last()) + (seq![' '] + word_text(ws.last())),
    decreases ws.len(),
{
    if ws.len() == 1 {
        assert(ws.drop_first() =~= seq![]);
        assert(ws.drop_last() =~= seq![]);
        assert(spaced(ws) =~= seq![' '] + word_text(ws[0]));
    } else {
        let r = ws.drop_first();
        lemma_spaced_last(r);
        assert(r.drop_last() =~= ws.drop_last().drop_first());
        assert(ws.drop_last()[0] == ws[0]);
        assert(r.last() == ws.last());
        assert(spaced(ws) =~= spaced(ws.drop_last()) + (seq![' '] + word_text(ws.last())));
    }
}

/// Joining words after others puts each after one space.
proof fn lemma_join_spaced(a: Seq<Seq<char>>, ws: Seq<Word>)
    requires
        a.len() >= 1,
    ensures
        join_words(a + word_texts(ws)) == join_words(a) + spaced(ws),
    decreases ws.len(),
{
    if ws.len() == 0 {
        assert(a + word_texts(ws) =~= a);
        assert(join_words(a) + spaced(ws) =~= join_words(a));
    } else {
        let b = a + word_texts(ws);
        lemma_join_spaced(a, ws.drop_last());
        lemma_spaced_last(ws);
        assert(b.drop_last() =~= a + word_texts(ws.drop_last()));
        assert(b.last() == word_text(ws.last()));
        assert(join_words(b) =~= join_words(a) + spaced(ws));
    }
}

/// A space before a marker does not change what the flush gives.
proof fn lemma_flush_space(st: ScanState)
    ensures
        flush(ScanState { cur: st.cur.push(' '), ..st }) == flush(st),
{
    lemma_trim_push_ws(st.cur, ' ');
}

/// Free text is read into the current word.
proof fn lemma_scan_text(s: Seq<char>, i: int, e: int, st: ScanState)
    requires
        0 <= i <= e <= s.len(),
        forall|j: int| i <= j < e ==> !is_marker(#[trigger] s[j]) && s[j] != '#',
    ensures
        scan(s, i, st) == scan(s, e, ScanState { cur: st.cur + s.subrange(i, e), ..st }),
    decreases e - i,
{
    if i < e {
        let st1 = ScanState { cur: st.cur.push(s[i]), ..st };
        lemma_scan_text(s, i + 1, e, st1);
        assert(st.cur.push(s[i]) + s.subrange(i + 1, e) =~= st.cur + s.subrange(i, e));
    } else {
        assert(st.cur + s.subrange(i, e) =~= st.cur);
    }
}

proof fn lemma_word_ends(w: Word)
    requires
        good_word(w),
    ensures
        word_text(w).len() > 0,
        is_marker(word_text(w)[0]) || word_text(w)[0] == '#',
        w != Word::Rec(seq![]) ==> !is_ws(word_text(w).last()),
        w == Word::Rec(seq![]) ==> word_text(w) == seq![RECURRENCE_MARK, ' '],
{
    match w {
        Word::Dated(m, d) => {
            lemma_iso_text_chars(d);
            assert(word_text(w).last() == iso_text(d).last());
        },
        Word::Rec(r) => {
            if r.len() > 0 {
                assert(word_text(w).last() == r.last());
            } else {
                assert(r =~= Seq::<char>::empty());
                assert(word_text(w) =~= seq![RECURRENCE_MARK, ' ']);
            }
        },
        Word::Tag(g) => {
            assert(word_text(w).last() == g.last());
            lemma_tag_char_not_ws(g.last());
        },
        Word::Prio(p) => {},
    }
}

/// What comes after a word that ends at `e`: the end of the line, or a
/// space and then the marker (or `#`) of the next word.
pub open spec fn word_follows(s: Seq<char>, e: int) -> bool {
    e < s.len() ==> {
        &&& s[e] == ' '
        &&& e + 1 < s.len()
        &&& (is_marker(s[e + 1]) || s[e + 1] == '#')
    }
}

/// `s` holds `wt` from `i`.
pub open spec fn holds_at(s: Seq<char>, i: int, wt: Seq<char>) -> bool {
    0 <= i && i + wt.len() <= s.len() && s.subrange(i, i + wt.len()) == wt
}

proof fn lemma_holds_at(s: Seq<char>, i: int, wt: Seq<char>)
    requires
        holds_at(s, i, wt),
    ensures
        forall|k: int| 0 <= k < wt.len() ==> s[i + k] == #[trigger] wt[k],
{
    assert forall|k: int| 0 <= k < wt.len() implies s[i + k] == #[trigger] wt[k] by {
        assert(s.subrange(i, i + wt.len())[k] == s[i + k]);
    }
}

proof fn lemma_scan_prio(s: Seq<char>, i: int, p: Priority, st: ScanState)
    requires
        p != Priority::Unset,
        holds_at(s, i, seq![priority_mark(p)]),
    ensures
        scan(s, i, st) == scan(s, i + 1, set_field(flush(st), Word::Prio(p))),
{
    lemma_holds_at(s, i, seq![priority_mark(p)]);
    assert(seq![priority_mark(p)][0] == priority_mark(p));
    assert(s[i] == priority_mark(p));
    assert(priority_of_char(priority_mark(p)) == Some(p));
}

proof fn lemma_scan_dated(s: Seq<char>, i: int, m: char, d: Date, st: ScanState)
    requires
        good_word(Word::Dated(m, d)),
        holds_at(s, i, word_text(Word::Dated(m, d))),
        word_follows(s, i + word_text(Word::Dated(m, d)).len()),
    ensures
        scan(s, i, st) == scan(
            s,
            i + word_text(Word::Dated(m, d)).len(),
            set_field(flush(st), Word::Dated(m, d)),
        ),
{
    let wt = word_text(Word::Dated(m, d));
    let e = i + wt.len();
    lemma_holds_at(s, i, wt);
    lemma_iso_text_chars(d);
    let iso = iso_text(d);
    assert(wt[0] == m && wt[1] == ' ' && wt[2] == iso[0]);
    assert(s[i] == m);
    assert(s[i + 1] == ' ');
    assert(s[i + 2] == iso[0]);
    lemma_run_end_at(s, i + 1, Run::Spaces, i + 2);
    assert forall|j: int| i + 2 <= j < e implies in_run(Run::DateChars, #[trigger] s[j]) by {
        assert(wt[j - i] == iso[j - i - 2]);
        assert(s[i + (j - i)] == wt[j - i]);
    }
    lemma_run_end_at(s, i + 2, Run::DateChars, e);
    assert(s.subrange(i + 2, e) =~= iso) by {
        assert forall|k: int| 0 <= k < iso.len() implies s.subrange(i + 2, e)[k] == iso[k] by {
            assert(wt[k + 2] == iso[k]);
            assert(s[i + (k + 2)] == wt[k + 2]);
        }
    }
}

proof fn lemma_scan_rec(s: Seq<char>, i: int, r: Seq<char>, st: ScanState)
    requires
        good_word(Word::Rec(r)),
        holds_at(s, i, word_text(Word::Rec(r))),
        word_follows(s, i + word_text(Word::Rec(r)).len()),
    ensures
        ({
            let e = i + word_text(Word::Rec(r)).len();
            scan(s, i, st) == scan(
                s,
                if e < s.len() {
                    e + 1
                } else {
                    e
                },
                set_field(flush(st), Word::Rec(r)),
            )
        }),
{
    let wt = word_text(Word::Rec(r));
    let e = i + wt.len();
    lemma_holds_at(s, i, wt);
    if r.len() == 0 {
        assert(wt[0] == RECURRENCE_MARK && wt[1] == ' ');
        assert(s[i] == RECURRENCE_MARK && s[i + 1] == ' ');
        if e < s.len() {
            assert(s[e] == ' ');
            lemma_run_end_at(s, i + 1, Run::Spaces, e + 1);
            lemma_run_end_at(s, e + 1, Run::Text, e + 1);
            assert(s.subrange(e + 1, e + 1) =~= r);
        } else {
            lemma_run_end_at(s, i + 1, Run::Spaces, e);
            lemma_run_end_at(s, e, Run::Text, e);
            assert(s.subrange(e, e) =~= r);
        }
        assert(trim(r) =~= r);
    } else {
        assert(wt[0] == RECURRENCE_MARK && wt[1] == ' ' && wt[2] == r[0]);
        assert(s[i] == RECURRENCE_MARK);
        assert(s[i + 1] == ' ');
        assert(s[i + 2] == r[0]);
        lemma_run_end_at(s, i + 1, Run::Spaces, i + 2);
        let k = if e < s.len() {
            e + 1
        } else {
            e
        };
        assert forall|j: int| i + 2 <= j < k implies in_run(Run::Text, #[trigger] s[j]) by {
            if j < e {
                assert(wt[j - i] == r[j - i - 2]);
                assert(s[i + (j - i)] == wt[j - i]);
            }
        }
        lemma_run_end_at(s, i + 2, Run::Text, k);
        lemma_trim_id(r);
        let got = s.subrange(i + 2, k);
        assert forall|q: int| 0 <= q < r.len() implies got[q] == r[q] by {
            assert(wt[q + 2] == r[q]);
            assert(s[i + (q + 2)] == wt[q + 2]);
        }
        if e < s.len() {
            assert(got =~= r.push(' '));
            lemma_trim_push_ws(r, ' ');
        } else {
            assert(got =~= r);
        }
    }
}

proof fn lemma_scan_tag(s: Seq<char>, i: int, g: Seq<char>, st: ScanState)
    requires
        good_word(Word::Tag(g)),
        holds_at(s, i, word_text(Word::Tag(g))),
        word_follows(s, i + word_text(Word::Tag(g)).len()),
    ensures
        scan(s, i, st) == scan(
            s,
            i + word_text(Word::Tag(g)).len(),
            set_field(flush(st), Word::Tag(g)),
        ),
{
    let wt = word_text(Word::Tag(g));
    let e = i + wt.len();
    lemma_holds_at(s, i, wt);
    assert(wt[0] == '#');
    assert(s[i] == '#');
    assert forall|j: int| i + 1 <= j < e implies in_run(Run::TagChars, #[trigger] s[j]) by {
        assert(wt[j - i] == g[j - i - 1]);
        assert(s[i + (j - i)] == wt[j - i]);
    }
    lemma_run_end_at(s, i + 1, Run::TagChars, e);
    assert(s.subrange(i + 1, e) =~= g) by {
        assert forall|q: int| 0 <= q < g.len() implies s.subrange(i + 1, e)[q] == g[q] by {
            assert(wt[q + 1] == g[q]);
            assert(s[i + (q + 1)] == wt[q + 1]);
        }
    }
}

/// Reading one word that starts at `i` (at its marker): the scan moves to
/// its end (past the space after a recurrence, which its text run takes)
/// with the word's field set.
proof fn lemma_scan_word_at(s: Seq<char>, i: int, w: Word, st: ScanState)
    requires
        good_word(w),
        holds_at(s, i, word_text(w)),
        word_follows(s, i + word_text(w).len()),
    ensures
        scan(s, i, st) == scan(
            s,
            if w is Rec && i + word_text(w).len() < s.len() {
                i + word_text(w).len() + 1
            } else {
                i + word_text(w).len()
            },
            set_field(flush(st), w),
        ),
{
    match w {
        Word::Prio(p) => lemma_scan_prio(s, i, p, st),
        Word::Dated(m, d) => lemma_scan_dated(s, i, m, d, st),
        Word::Rec(r) => lemma_scan_rec(s, i, r, st),
        Word::Tag(g) => lemma_scan_tag(s, i, g, st),
    }
}

/// The text of the words from the space before the first (`lead`) or from
/// its marker, without the last char when `cut` (the space after an empty
/// recurrence that ends the line, which the line's trim takes off).
pub open spec fn trail(ws: Seq<Word>, lead: bool, cut: bool) -> Seq<char> {
    let x = if lead {
        spaced(ws)
    } else {
        spaced(ws).drop_first()
    };
    if cut {
        x.drop_last()
    } else {
        x
    }
}

/// An empty recurrence that ends the text is read as an empty one.
proof fn lemma_scan_rec_at_end(s: Seq<char>, i: int, st: ScanState)
    requires
        0 <= i,
        i + 1 == s.len(),
        s[i] == RECURRENCE_MARK,
    ensures
        scan(s, i, st) == set_field(flush(st), Word::Rec(seq![])),
{
    lemma_run_end_at(s, i + 1, Run::Spaces, i + 1);
    lemma_run_end_at(s, i + 1, Run::Text, i + 1);
    assert(s.subrange(i + 1, i + 1) =~= Seq::<char>::empty());
    assert(trim(Seq::<char>::empty()) =~= Seq::<char>::empty());
    assert(!is_date_mark(RECURRENCE_MARK));
    let x = ScanState { recurrence: Some(seq![]), ..flush(st) };
    assert(scan(s, i + 1, x) == x);
    assert(x == set_field(flush(st), Word::Rec(seq![])));
}

/// Reading the words from `i` (at the space before the first word, or at
/// its marker when `lead` is false) gives `scan_words`.
#[verifier::rlimit(40)]
proof fn lemma_scan_words(s: Seq<char>, i: int, ws: Seq<Word>, st: ScanState, lead: bool, cut: bool)
    requires
        forall|k: int| 0 <= k < ws.len() ==> good_word(#[trigger] ws[k]),
        0 <= i <= s.len(),
        !lead ==> ws.len() > 0,
        cut ==> ws.len() > 0 && ws.last() == Word::Rec(seq![]),
        s.subrange(i, s.len() as int) == trail(ws, lead, cut),
    ensures
        scan(s, i, st) == scan_words(st, ws),
    decreases ws.len(),
{
    if ws.len() == 0 {
        assert(s.subrange(i, s.len() as int).len() == 0);
    } else {
        let w = ws[0];
        let rest = ws.drop_first();
        let wt = word_text(w);
        assert(good_word(w));
        lemma_word_ends(w);
        let start = if lead {
            i + 1
        } else {
            i
        };
        let tail = s.subrange(i, s.len() as int);
        let y = wt + spaced(rest);
        assert(spaced(ws) == seq![' '] + wt + spaced(rest));
        assert(spaced(ws) =~= seq![' '] + y);
        assert(spaced(ws).drop_first() =~= y);
        let full = if lead {
            seq![' '] + y
        } else {
            y
        };
        let n: int = if cut {
            y.len() - 1
        } else {
            y.len() as int
        };
        assert(tail =~= if cut {
            full.drop_last()
        } else {
            full
        });
        assert(s.len() == start + n);
        assert forall|k: int| 0 <= k < n implies s[start + k] == #[trigger] y[k] by {
            assert(tail[start - i + k] == s[start + k]);
            if lead {
                assert(tail[start - i + k] == (seq![' '] + y)[1 + k]);
            }
        }
        let st0 = if lead {
            ScanState { cur: st.cur.push(' '), ..st }
        } else {
            st
        };
        if lead {
            assert(tail[0] == s[i]);
            assert(s[i] == ' ');
            assert(!is_date_mark(' ') && ' ' != RECURRENCE_MARK && priority_of_char(' ') is None);
            assert(scan(s, i, st) == scan(s, i + 1, st0));
            lemma_flush_space(st);
        }
        assert(flush(st0) == flush(st));
        if rest.len() == 0 && cut {
            assert(w == ws.last());
            assert(spaced(rest) =~= Seq::<char>::empty());
            assert(y =~= wt);
            assert(s[start] == y[0]);
            lemma_scan_rec_at_end(s, start, st0);
            assert(rest =~= Seq::<Word>::empty());
            assert(scan_words(set_field(flush(st), w), rest) == set_field(flush(st), w));
        } else {
            let e = start + wt.len();
            if rest.len() > 0 {
                assert(good_word(rest[0]));
                lemma_word_ends(rest[0]);
                assert(spaced(rest) == seq![' '] + word_text(rest[0]) + spaced(rest.drop_first()));
                if cut {
                    lemma_spaced_last(rest);
                    assert(rest.last() == ws.last());
                    assert(word_text(rest.last()).len() == 2);
                    assert(spaced(rest).len() >= 3);
                }
                assert(s[e] == y[wt.len() as int]);
                assert(s[e + 1] == y[wt.len() + 1int]);
                assert(y[wt.len() as int] == spaced(rest)[0]);
                assert(y[wt.len() + 1int] == spaced(rest)[1]);
            }
            assert(s.subrange(start, e) =~= wt) by {
                assert forall|k: int| 0 <= k < wt.len() implies s.subrange(start, e)[k] == wt[k] by {
                    assert(y[k] == wt[k]);
                }
            }
            let rtail = if cut {
                spaced(rest).drop_last()
            } else {
                spaced(rest)
            };
            assert(s.subrange(e, s.len() as int) =~= rtail) by {
                assert forall|k: int| 0 <= k < s.len() - e implies s.subrange(e, s.len() as int)[k]
                    == rtail[k] by {
                    assert(y[wt.len() + k] == spaced(rest)[k]);
                }
            }
            assert(holds_at(s, start, wt));
            assert(word_follows(s, e));
            lemma_scan_word_at(s, start, w, st0);
            if rest.len() > 0 {
                assert(rest.last() == ws.last());
            }
            if w is Rec && e < s.len() {
                assert(s.subrange(e + 1, s.len() as int) =~= rtail.drop_first());
                assert(rtail.drop_first() =~= trail(rest, false, cut));
                lemma_scan_words(s, e + 1, rest, set_field(flush(st), w), false, cut);
            } else {
                assert(s.subrange(e, s.len() as int) =~= trail(rest, true, cut));
                lemma_scan_words(s, e, rest, set_field(flush(st), w), true, cut);
            }
        }
    }
}

/// Two scan states with the same fields, description and pending text are
/// the same.
proof fn lemma_state_eq(a: ScanState, b: ScanState)
    requires
        without_text(a) == without_text(b),
        a.desc == b.desc,
        a.cur == b.cur,
    ensures
        a == b,
{
    assert(a.priority == without_text(a).priority);
    assert(b.priority == without_text(b).priority);
    assert(a.tags == without_text(a).tags);
    assert(b.tags == without_text(b).tags);
    assert(a =~= b);
}

proof fn lemma_set_field_frame(a: ScanState, w: Word)
    ensures
        set_field(a, w).desc == a.desc,
        set_field(a, w).cur == a.cur,
        without_text(set_field(a, w)) == set_field(without_text(a), w),
{
    assert(without_text(set_field(a, w)) =~= set_field(without_text(a), w));
}

/// The fields that words set do not depend on the description and the
/// pending text.
proof fn lemma_apply_fields_frame(a: ScanState, b: ScanState, ws: Seq<Word>)
    requires
        without_text(a) == without_text(b),
    ensures
        without_text(apply_fields(a, ws)) == without_text(apply_fields(b, ws)),
        apply_fields(a, ws).desc == a.desc,
        apply_fields(a, ws).cur == a.cur,
    decreases ws.len(),
{
    if ws.len() > 0 {
        lemma_set_field_frame(a, ws[0]);
        lemma_set_field_frame(b, ws[0]);
        lemma_apply_fields_frame(set_field(a, ws[0]), set_field(b, ws[0]), ws.drop_first());
    }
}

/// After one or more words the description holds what was read before
/// them, no text is pending, and the fields are those the words set.
proof fn lemma_scan_words_shape(st: ScanState, ws: Seq<Word>)
    requires
        ws.len() > 0,
    ensures
        scan_words(st, ws) == (ScanState {
            desc: st.desc + trim(st.cur),
            cur: seq![],
            ..apply_fields(st, ws)
        }),
    decreases ws.len(),
{
    let w = ws[0];
    let rest = ws.drop_first();
    let st2 = set_field(flush(st), w);
    let target = ScanState { desc: st.desc + trim(st.cur), cur: seq![], ..apply_fields(st, ws) };
    lemma_set_field_frame(flush(st), w);
    lemma_set_field_frame(st, w);
    assert(without_text(flush(st)) =~= without_text(st));
    lemma_apply_fields_frame(st2, set_field(st, w), rest);
    assert(apply_fields(st, ws) == apply_fields(set_field(st, w), rest));
    assert(without_text(target) =~= without_text(apply_fields(st, ws)));
    if rest.len() > 0 {
        lemma_scan_words_shape(st2, rest);
        lemma_trim_id(seq![]);
        let got = scan_words(st2, rest);
        assert(got.desc =~= target.desc);
        assert(without_text(got) =~= without_text(apply_fields(st2, rest)));
        lemma_state_eq(got, target);
    } else {
        assert(scan_words(st, ws) == scan_words(st2, rest));
        assert(scan_words(st2, rest) == st2);
        assert(apply_fields(set_field(st, w), rest) == set_field(st, w));
        lemma_state_eq(st2, target);
    }
}

proof fn lemma_apply_fields_append(st: ScanState, a: Seq<Word>, b: Seq<Word>)
    ensures
        apply_fields(st, a + b) == apply_fields(apply_fields(st, a), b),
    decreases a.len(),
{
    if a.len() == 0 {
        assert(a + b =~= b);
    } else {
        assert((a + b).drop_first() =~= a.drop_first() + b);
        assert((a + b)[0] == a[0]);
        lemma_apply_fields_append(set_field(st, a[0]), a.drop_first(), b);
    }
}

proof fn lemma_apply_tags(st: ScanState, g: Seq<Seq<char>>)
    ensures
        apply_fields(st, tag_words(g)) == (ScanState { tags: st.tags + g, ..st }),
    decreases g.len(),
{
    if g.len() == 0 {
        assert(st.tags + g =~= st.tags);
    } else {
        assert(tag_words(g).drop_first() =~= tag_words(g.drop_first()));
        lemma_apply_tags(set_field(st, Word::Tag(g[0])), g.drop_first());
        assert(st.tags.push(g[0]) + g.drop_first() =~= st.tags + g);
    }
}

proof fn lemma_apply_one(st: ScanState, ws: Seq<Word>)
    requires
        ws.len() <= 1,
    ensures
        apply_fields(st, ws) == if ws.len() == 1 {
            set_field(st, ws[0])
        } else {
            st
        },
{
    if ws.len() == 1 {
        assert(ws.drop_first() =~= seq![]);
        assert(apply_fields(set_field(st, ws[0]), ws.drop_first()) == set_field(st, ws[0]));
    }
}

/// The fields that the words of a task set, from the initial state, are
/// the task's.
proof fn lemma_apply_words(t: TaskView)
    ensures
        ({
            let f = apply_fields(initial_scan(), words(t));
            &&& f.priority == t.priority
            &&& f.due == t.due_date
            &&& f.scheduled == t.scheduled_date
            &&& f.start == t.start_date
            &&& f.done == t.done_date
            &&& f.recurrence == t.recurrence
            &&& f.tags == t.tags
        }),
{
    let p = prio_words(t.priority);
    let r = rec_words(t.recurrence);
    let du = date_words(DUE_MARK, t.due_date);
    let sc = date_words(SCHEDULED_MARK, t.scheduled_date);
    let stt = date_words(START_MARK, t.start_date);
    let dn = date_words(DONE_MARK, t.done_date);
    let tg = tag_words(t.tags);
    let s0 = initial_scan();
    lemma_apply_fields_append(s0, p, du);
    lemma_apply_fields_append(s0, p + du, sc);
    lemma_apply_fields_append(s0, p + du + sc, stt);
    lemma_apply_fields_append(s0, p + du + sc + stt, r);
    lemma_apply_fields_append(s0, p + du + sc + stt + r, dn);
    lemma_apply_fields_append(s0, p + du + sc + stt + r + dn, tg);
    let a = apply_fields(s0, p);
    let b = apply_fields(a, du);
    let c = apply_fields(b, sc);
    let d = apply_fields(c, stt);
    let e = apply_fields(d, r);
    let f = apply_fields(e, dn);
    lemma_apply_one(s0, p);
    lemma_apply_one(a, du);
    lemma_apply_one(b, sc);
    lemma_apply_one(c, stt);
    lemma_apply_one(d, r);
    lemma_apply_one(e, dn);
    assert(a.priority == t.priority && a.due is None && a.scheduled is None && a.start is None
        && a.done is None && a.recurrence is None && a.tags == Seq::<Seq<char>>::empty());
    assert(b.priority == t.priority && b.due == t.due_date && b.scheduled is None && b.start is None
        && b.done is None && b.recurrence is None && b.tags == Seq::<Seq<char>>::empty());
    assert(c.priority == t.priority && c.due == t.due_date && c.scheduled == t.scheduled_date
        && c.start is None && c.done is None && c.recurrence is None && c.tags == Seq::<
        Seq<char>,
    >::empty());
    assert(d.priority == t.priority && d.due == t.due_date && d.scheduled == t.scheduled_date
        && d.start == t.start_date && d.done is None && d.recurrence is None && d.tags == Seq::<
        Seq<char>,
    >::empty());
    assert(e.priority == t.priority && e.due == t.due_date && e.scheduled == t.scheduled_date
        && e.start == t.start_date && e.done is None && e.recurrence == t.recurrence && e.tags
        == Seq::<Seq<char>>::empty());
    assert(f.priority == t.priority && f.due == t.due_date && f.scheduled == t.scheduled_date
        && f.start == t.start_date && f.done == t.done_date && f.recurrence == t.recurrence
        && f.tags == Seq::<Seq<char>>::empty());
    lemma_apply_tags(f, t.tags);
    assert(words(t) == p + du + sc + stt + r + dn + tg);
    assert(f.tags + t.tags =~= t.tags);
}

/// The text after the checkbox and its space: the description and the
/// metadata words.
pub open spec fn body(t: TaskView) -> Seq<char> {
    t.description + spaced(words(t))
}

/// The words end with an empty recurrence: the body then ends with the
/// space after its marker.
pub open spec fn cut_end(t: TaskView) -> bool {
    words(t).len() > 0 && words(t).last() == Word::Rec(seq![])
}

/// The body as the line's trim leaves it.
pub open spec fn body_text(t: TaskView) -> Seq<char> {
    if cut_end(t) {
        body(t).drop_last()
    } else {
        body(t)
    }
}

/// The line is the checkbox, a space and the body; the body starts with a
/// non-blank, and ends with one or (after an empty recurrence) with a
/// single space.
proof fn lemma_line_shape(t: TaskView)
    requires
        writable(t),
        dates_read_back(t),
    ensures
        markdown(t) == status_box(t.status) + (seq![' '] + body(t)),
        trimmed(body_text(t)),
        cut_end(t) ==> body(t).len() > 0 && body(t).last() == ' ',
{
    let ws = words(t);
    let d = t.description;
    let bx = status_box(t.status);
    lemma_words_good(t);
    lemma_markdown_parts(t);
    lemma_join_spaced(seq![bx, d], ws);
    let pre = seq![bx, d];
    assert(pre.drop_last() =~= seq![bx]);
    assert(join_words(seq![bx]) == bx);
    assert(pre.last() == d);
    assert(join_words(pre) == join_words(pre.drop_last()) + seq![' '] + pre.last());
    assert(join_words(pre) =~= bx + seq![' '] + d);
    let b = body(t);
    assert(markdown(t) =~= bx + (seq![' '] + b));
    assert(d.len() > 0);
    assert(b == d + spaced(ws));
    assert(b[0] == d[0]);
    if ws.len() > 0 {
        lemma_spaced_last(ws);
        assert(good_word(ws.last()));
        lemma_word_ends(ws.last());
        if cut_end(t) {
            let w2 = seq![RECURRENCE_MARK, ' '];
            assert(b =~= d + spaced(ws.drop_last()) + seq![' '] + w2);
            assert(b.drop_last() =~= d + spaced(ws.drop_last()) + seq![' ', RECURRENCE_MARK]);
            assert(b.drop_last()[0] == d[0]);
            assert(b.drop_last().last() == RECURRENCE_MARK);
            assert(b.last() == ' ');
        } else {
            assert(b.last() == word_text(ws.last()).last());
        }
    } else {
        assert(b =~= d);
    }
}

/// The scan of the body gives back the description and the fields.
proof fn lemma_body_scan(t: TaskView)
    requires
        writable(t),
        dates_read_back(t),
    ensures
        ({
            let st = scan(body_text(t), 0, initial_scan());
            &&& final_description(st) == t.description
            &&& st.priority == t.priority
            &&& st.due == t.due_date
            &&& st.scheduled == t.scheduled_date
            &&& st.start == t.start_date
            &&& st.done == t.done_date
            &&& st.recurrence == t.recurrence
            &&& st.tags == t.tags
        }),
{
    let ws = words(t);
    let d = t.description;
    let b = body_text(t);
    let cut = cut_end(t);
    lemma_words_good(t);
    lemma_line_shape(t);
    let st0 = ScanState { cur: d, ..initial_scan() };
    if ws.len() > 0 {
        lemma_spaced_last(ws);
        lemma_word_ends(ws.last());
    }
    assert(body(t) == d + spaced(ws));
    assert(b.len() >= d.len());
    assert forall|j: int| 0 <= j < d.len() implies !is_marker(#[trigger] b[j]) && b[j] != '#' by {
        assert(body(t)[j] == d[j]);
        assert(b[j] == body(t)[j]);
    }
    lemma_scan_text(b, 0, d.len() as int, initial_scan());
    assert(seq![] + b.subrange(0, d.len() as int) =~= d) by {
        assert forall|j: int| 0 <= j < d.len() implies b[j] == d[j] by {
            assert(body(t)[j] == d[j]);
        }
    }
    let st = scan(b, 0, initial_scan());
    assert(st == scan(b, d.len() as int, st0));
    lemma_trim_id(d);
    lemma_apply_words(t);
    if ws.len() > 0 {
        assert(b.subrange(d.len() as int, b.len() as int) =~= trail(ws, true, cut)) by {
            assert(body(t).subrange(d.len() as int, body(t).len() as int) =~= spaced(ws));
        }
        lemma_scan_words(b, d.len() as int, ws, st0, true, cut);
        lemma_scan_words_shape(st0, ws);
        lemma_apply_fields_frame(st0, initial_scan(), ws);
        assert(without_text(st0) =~= without_text(initial_scan()));
        assert(seq![] + trim(d) =~= d);
        assert(st.desc == d && st.cur.len() == 0);
        assert(final_description(st) == d);
    } else {
        assert(b =~= d);
        assert(d.len() == b.len());
        assert(st == st0);
        assert(final_description(st) == d);
        assert(apply_fields(initial_scan(), ws) == initial_scan());
    }
}

/// Writing a task as a markdown line and reading that line back gives the
/// task again (with the file and line it was read from), for every task
/// whose texts can stand in a line.
pub proof fn lemma_markdown_reads_back(t: TaskView, line_number: nat, source: Seq<char>)
    requires
        writable(t),
    ensures
        parse_line_spec(markdown(t), line_number, source) == Some(
            TaskView { source_file: source, line_number, ..t },
        ),
{
    lemma_dates_read_back(t);
    let bx = status_box(t.status);
    let b = body_text(t);
    let line = markdown(t);
    lemma_line_shape(t);
    lemma_body_scan(t);
    lemma_trim_lead_space(b);
    let l2 = bx + (seq![' '] + b);
    if cut_end(t) {
        assert(line =~= l2.push(' '));
        lemma_trim_push_ws(l2, ' ');
    } else {
        assert(line =~= l2);
    }
    assert(l2[0] == '-');
    assert(l2.last() == b.last());
    lemma_trim_id(l2);
    assert(trim(line) == l2);
    assert(l2.subrange(5, l2.len() as int) =~= seq![' '] + b);
    assert(l2.subrange(0, 5) =~= bx);
    assert(line_status(l2) == Some(t.status)) by {
        if t.status == TaskStatus::Done {
            assert(l2.subrange(0, 5)[3] != todo_box()[3]);
            assert(!starts_with(l2, todo_box()));
        }
    }
}

/// A task line written after any indentation reads back as the task.
pub proof fn lemma_indented_line_reads_back(
    t: TaskView,
    indent: Seq<char>,
    line_number: nat,
    source: Seq<char>,
)
    requires
        writable(t),
        forall|i: int| 0 <= i < indent.len() ==> is_ws(#[trigger] indent[i]),
    ensures
        parse_line_spec(indent + markdown(t), line_number, source) == Some(
            TaskView { source_file: source, line_number, ..t },
        ),
{
    crate::text::lemma_trim_start_skip(indent, markdown(t));
    lemma_markdown_reads_back(t, line_number, source);
}

/// The line that `Task::rewrite_line` writes into a file, read back, gives
/// the task again.
pub proof fn lemma_rewritten_line_reads_back(t: TaskView, content: Seq<char>, source: Seq<char>)
    requires
        writable(t),
        1 <= t.line_number <= crate::text::lines(content).len(),
    ensures
        parse_line_spec(
            crate::text::leading_ws(crate::text::lines(content)[t.line_number - 1]) + markdown(t),
            t.line_number,
            source,
        ) == Some(TaskView { source_file: source, ..t }),
{
    let old_line = crate::text::lines(content)[t.line_number - 1];
    crate::text::lemma_leading_ws(old_line);
    lemma_indented_line_reads_back(t, crate::text::leading_ws(old_line), t.line_number, source);
    assert((TaskView { source_file: source, line_number: t.line_number, ..t }) == (TaskView {
        source_file: source,
        ..t
    }));
}

/// No char of `s` is a line break.
pub open spec fn no_break(s: Seq<char>) -> bool {
    forall|i: int| 0 <= i < s.len() ==> s[i] != '\n'
}

/// The texts of the task hold no line break, so its markdown is one line.
pub open spec fn one_line(t: TaskView) -> bool {
    &&& no_break(t.description)
    &&& (t.recurrence matches Some(r) ==> no_break(r))
}

proof fn lemma_no_break_add(a: Seq<char>, b: Seq<char>)
    requires
        no_break(a),
        no_break(b),
    ensures
        no_break(a + b),
{
    assert forall|i: int| 0 <= i < (a + b).len() implies (a + b)[i] != '\n' by {
        if i < a.len() {
            assert((a + b)[i] == a[i]);
        } else {
            assert((a + b)[i] == b[i - a.len()]);
        }
    }
}

proof fn lemma_all_append(a: Seq<Word>, b: Seq<Word>, p: spec_fn(Word) -> bool)
    requires
        forall|k: int| 0 <= k < a.len() ==> p(#[trigger] a[k]),
        forall|k: int| 0 <= k < b.len() ==> p(#[trigger] b[k]),
    ensures
        forall|k: int| 0 <= k < (a + b).len() ==> p(#[trigger] (a + b)[k]),
{
    assert forall|k: int| 0 <= k < (a + b).len() implies p(#[trigger] (a + b)[k]) by {
        if k < a.len() {
            assert((a + b)[k] == a[k]);
        } else {
            assert((a + b)[k] == b[k - a.len()]);
        }
    }
}

/// The recurrence word of a task holds its recurrence.
proof fn lemma_words_rec(t: TaskView)
    ensures
        forall|k: int|
            0 <= k < words(t).len() ==> (#[trigger] words(t)[k] matches Word::Rec(r)
                ==> t.recurrence == Some(r)),
{
    let p = |w: Word| (w matches Word::Rec(r) ==> t.recurrence == Some(r));
    let pw = prio_words(t.priority);
    let r = rec_words(t.recurrence);
    let du = date_words(DUE_MARK, t.due_date);
    let sc = date_words(SCHEDULED_MARK, t.scheduled_date);
    let stt = date_words(START_MARK, t.start_date);
    let dn = date_words(DONE_MARK, t.done_date);
    let tg = tag_words(t.tags);
    assert forall|k: int| 0 <= k < tg.len() implies p(#[trigger] tg[k]) by {
        assert(tg[k] == Word::Tag(t.tags[k]));
    }
    assert forall|k: int| 0 <= k < pw.len() implies p(#[trigger] pw[k]) by {}
    assert forall|k: int| 0 <= k < r.len() implies p(#[trigger] r[k]) by {}
    assert forall|k: int| 0 <= k < du.len() implies p(#[trigger] du[k]) by {}
    assert forall|k: int| 0 <= k < sc.len() implies p(#[trigger] sc[k]) by {}
    assert forall|k: int| 0 <= k < stt.len() implies p(#[trigger] stt[k]) by {}
    assert forall|k: int| 0 <= k < dn.len() implies p(#[trigger] dn[k]) by {}
    lemma_all_append(pw, du, p);
    lemma_all_append(pw + du, sc, p);
    lemma_all_append(pw + du + sc, stt, p);
    lemma_all_append(pw + du + sc + stt, r, p);
    lemma_all_append(pw + du + sc + stt + r, dn, p);
    lemma_all_append(pw + du + sc + stt + r + dn, tg, p);
    assert(words(t) == pw + du + sc + stt + r + dn + tg);
    assert forall|k: int| 0 <= k < words(t).len() implies (#[trigger] words(t)[k] matches Word::Rec(
        x,
    ) ==> t.recurrence == Some(x)) by {
        assert(p(words(t)[k]));
    }
}

proof fn lemma_spaced_no_break(ws: Seq<Word>)
    requires
        forall|k: int|
            0 <= k < ws.len() ==> good_word(#[trigger] ws[k]) && (ws[k] matches Word::Rec(r)
                ==> no_break(r)),
    ensures
        no_break(spaced(ws)),
    decreases ws.len(),
{
    if ws.len() > 0 {
        let rest = ws.drop_first();
        assert forall|k: int|
            0 <= k < rest.len() implies good_word(#[trigger] rest[k]) && (rest[k] matches Word::Rec(
            r,
        ) ==> no_break(r)) by {
            assert(rest[k] == ws[k + 1]);
        }
        lemma_spaced_no_break(rest);
        let w = ws[0];
        assert(good_word(w));
        assert(no_break(word_text(w))) by {
            match w {
                Word::Prio(p) => {},
                Word::Dated(m, d) => {
                    lemma_iso_text_chars(d);
                    let s = word_text(w);
                    assert forall|i: int| 0 <= i < s.len() implies s[i] != '\n' by {
                        if i >= 2 {
                            assert(s[i] == iso_text(d)[i - 2]);
                        }
                    }
                },
                Word::Rec(r) => {
                    let s = word_text(w);
                    assert forall|i: int| 0 <= i < s.len() implies s[i] != '\n' by {
                        if i >= 2 {
                            assert(s[i] == r[i - 2]);
                        }
                    }
                },
                Word::Tag(g) => {
                    let s = word_text(w);
                    assert forall|i: int| 0 <= i < s.len() implies s[i] != '\n' by {
                        if i >= 1 {
                            assert(s[i] == g[i - 1]);
                            lemma_tag_char_not_ws(g[i - 1]);
                        }
                    }
                },
            }
        }
        lemma_no_break_add(seq![' '], word_text(w));
        lemma_no_break_add(seq![' '] + word_text(w), spaced(rest));
    }
}

proof fn lemma_lines_one(s: Seq<char>, i: int, cur: Seq<char>)
    requires
        0 <= i <= s.len(),
        forall|j: int| i <= j < s.len() ==> s[j] != '\n',
        cur.len() + (s.len() - i) > 0,
    ensures
        crate::text::lines_from(s, i, cur) == seq![cur + s.subrange(i, s.len() as int)],
    decreases s.len() - i,
{
    if i < s.len() {
        lemma_lines_one(s, i + 1, cur.push(s[i]));
        assert(cur.push(s[i]) + s.subrange(i + 1, s.len() as int) =~= cur + s.subrange(
            i,
            s.len() as int,
        ));
    } else {
        assert(cur + s.subrange(i, s.len() as int) =~= cur);
    }
}

/// A file whose content is the markdown line of one task (whose texts hold
/// no line break) reads back as that task, on line 1 of the file.
pub proof fn lemma_task_file_reads_back(t: TaskView, source: Seq<char>)
    requires
        writable(t),
        one_line(t),
    ensures
        parse_file_spec(markdown(t), source) == seq![
            TaskView { source_file: source, line_number: 1, ..t },
        ],
{
    lemma_dates_read_back(t);
    lemma_line_shape(t);
    lemma_words_good(t);
    lemma_words_rec(t);
    let ws = words(t);
    assert forall|k: int|
        0 <= k < ws.len() implies good_word(#[trigger] ws[k]) && (ws[k] matches Word::Rec(r)
        ==> no_break(r)) by {
        assert(good_word(ws[k]));
    }
    lemma_spaced_no_break(ws);
    lemma_no_break_add(t.description, spaced(ws));
    let m = markdown(t);
    let bx = status_box(t.status);
    assert(no_break(bx));
    lemma_no_break_add(seq![' '], body(t));
    lemma_no_break_add(bx, seq![' '] + body(t));
    assert(no_break(m));
    lemma_lines_one(m, 0, seq![]);
    assert(seq![] + m.subrange(0, m.len() as int) =~= m);
    assert(crate::text::lines(m) == seq![m]);
    lemma_markdown_reads_back(t, 1, source);
    let ls = seq![m];
    assert(ls.drop_last() =~= Seq::<Seq<char>>::empty());
    assert(tasks_of_lines(Seq::<Seq<char>>::empty(), source) == Seq::<TaskView>::empty());
}

} // verus!
