//! The query language: a query holds one filter phrase after another, over
//! one or more lines, with optional `sort by` and `group by` phrases.
use super::date::{self, next_day, parsed_date, prev_day, Date};
use super::parser::views;
use super::select::{lemma_opposite_filters_split, select, select_spec, single};
use super::join_words;
use super::{Priority, Task, TaskStatus, TaskView};
use crate::text::{self, char_texts, trim};
use vstd::prelude::*;

verus! {

/// A filter phrase of a query.
#[derive(Debug)]
pub enum Filter {
    Done,
    NotDone,
    Includes(String),
    NotIncludes(String),
    DescriptionIncludes(String),
    Tag(String),
    NotTag(String),
    Folder(String),
    NotFolder(String),
    PathIncludes(String),
    PathNotIncludes(String),
    DueBefore(Date),
    DueAfter(Date),
    DueOn(Date),
    ScheduledBefore(Date),
    ScheduledAfter(Date),
    ScheduledOn(Date),
    HappensBefore(Date),
    HappensAfter(Date),
    HappensOn(Date),
    PriorityAbove(Priority),
    PriorityBelow(Priority),
    PriorityIs(Priority),
    HasRecurrence,
    NoRecurrence,
    RecurrenceIncludes(String),
    HasDueDate,
    NoDueDate,
    HasScheduledDate,
    NoScheduledDate,
    Limit(usize),
}

/// A filter as plain values.
pub enum FilterView {
    Done,
    NotDone,
    Includes(Seq<char>),
    NotIncludes(Seq<char>),
    DescriptionIncludes(Seq<char>),
    Tag(Seq<char>),
    NotTag(Seq<char>),
    Folder(Seq<char>),
    NotFolder(Seq<char>),
    PathIncludes(Seq<char>),
    PathNotIncludes(Seq<char>),
    DueBefore(Date),
    DueAfter(Date),
    DueOn(Date),
    ScheduledBefore(Date),
    ScheduledAfter(Date),
    ScheduledOn(Date),
    HappensBefore(Date),
    HappensAfter(Date),
    HappensOn(Date),
    PriorityAbove(Priority),
    PriorityBelow(Priority),
    PriorityIs(Priority),
    HasRecurrence,
    NoRecurrence,
    RecurrenceIncludes(Seq<char>),
    HasDueDate,
    NoDueDate,
    HasScheduledDate,
    NoScheduledDate,
    Limit(nat),
}

impl View for Filter {
    type V = FilterView;

    open spec fn view(&self) -> FilterView {
        match self {
            Filter::Done => FilterView::Done,
            Filter::NotDone => FilterView::NotDone,
            Filter::Includes(s) => FilterView::Includes(s@),
            Filter::NotIncludes(s) => FilterView::NotIncludes(s@),
            Filter::DescriptionIncludes(s) => FilterView::DescriptionIncludes(s@),
            Filter::Tag(s) => FilterView::Tag(s@),
            Filter::NotTag(s) => FilterView::NotTag(s@),
            Filter::Folder(s) => FilterView::Folder(s@),
            Filter::NotFolder(s) => FilterView::NotFolder(s@),
            Filter::PathIncludes(s) => FilterView::PathIncludes(s@),
            Filter::PathNotIncludes(s) => FilterView::PathNotIncludes(s@),
            Filter::DueBefore(d) => FilterView::DueBefore(*d),
            Filter::DueAfter(d) => FilterView::DueAfter(*d),
            Filter::DueOn(d) => FilterView::DueOn(*d),
            Filter::ScheduledBefore(d) => FilterView::ScheduledBefore(*d),
            Filter::ScheduledAfter(d) => FilterView::ScheduledAfter(*d),
            Filter::ScheduledOn(d) => FilterView::ScheduledOn(*d),
            Filter::HappensBefore(d) => FilterView::HappensBefore(*d),
            Filter::HappensAfter(d) => FilterView::HappensAfter(*d),
            Filter::HappensOn(d) => FilterView::HappensOn(*d),
            Filter::PriorityAbove(p) => FilterView::PriorityAbove(*p),
            Filter::PriorityBelow(p) => FilterView::PriorityBelow(*p),
            Filter::PriorityIs(p) => FilterView::PriorityIs(*p),
            Filter::HasRecurrence => FilterView::HasRecurrence,
            Filter::NoRecurrence => FilterView::NoRecurrence,
            Filter::RecurrenceIncludes(s) => FilterView::RecurrenceIncludes(s@),
            Filter::HasDueDate => FilterView::HasDueDate,
            Filter::NoDueDate => FilterView::NoDueDate,
            Filter::HasScheduledDate => FilterView::HasScheduledDate,
            Filter::NoScheduledDate => FilterView::NoScheduledDate,
            Filter::Limit(n) => FilterView::Limit(*n as nat),
        }
    }
}

/// The field that `sort by` or `group by` names.
#[derive(Clone, Copy, Debug, PartialEq, Eq, Structural)]
pub enum SortField {
    Due,
    Scheduled,
    Priority,
    Description,
    Tag,
    Folder,
    Done,
    Created,
}

/// A parsed query.
#[derive(Debug)]
pub struct Query {
    pub filters: Vec<Filter>,
    pub sort_by: Option<SortField>,
    pub group_by: Option<SortField>,
}

/// A query as plain values.
#[verifier::ext_equal]
pub struct QueryView {
    pub filters: Seq<FilterView>,
    pub sort_by: Option<SortField>,
    pub group_by: Option<SortField>,
}

pub open spec fn filter_views(fs: Seq<Filter>) -> Seq<FilterView> {
    fs.map_values(|f: Filter| f@)
}

impl View for Query {
    type V = QueryView;

    open spec fn view(&self) -> QueryView {
        QueryView {
            filters: filter_views(self.filters@),
            sort_by: self.sort_by,
            group_by: self.group_by,
        }
    }
}

// ---------------------------------------------------------------- tokens

#[verifier::ext_equal]
/// The tokenizer's state: tokens so far, the token being read, and whether
/// a quote is open.
pub struct TokState {
    pub tokens: Seq<Seq<char>>,
    pub cur: Seq<char>,
    pub quoted: bool,
}

/// The token being read ends (if it holds anything).
pub open spec fn cut(st: TokState) -> Seq<Seq<char>> {
    if st.cur.len() > 0 {
        st.tokens.push(st.cur)
    } else {
        st.tokens
    }
}

/// One char of the tokenizer: a quote (`"` or `'`) ends the current token
/// and opens or closes quoting; a space or tab outside quotes ends the
/// current token; any other char joins it.
pub open spec fn tok_step(st: TokState, c: char) -> TokState {
    if c == '"' || c == '\'' {
        TokState { tokens: cut(st), cur: seq![], quoted: !st.quoted }
    } else if (c == ' ' || c == '\t') && !st.quoted {
        TokState { tokens: cut(st), cur: seq![], quoted: st.quoted }
    } else {
        TokState { tokens: st.tokens, cur: st.cur.push(c), quoted: st.quoted }
    }
}

pub open spec fn tok_run(s: Seq<char>) -> TokState
    decreases s.len(),
{
    if s.len() == 0 {
        TokState { tokens: seq![], cur: seq![], quoted: false }
    } else {
        tok_step(tok_run(s.drop_last()), s.last())
    }
}

/// The tokens of a query line.
pub open spec fn tokens(s: Seq<char>) -> Seq<Seq<char>> {
    cut(tok_run(s))
}

fn push_token(toks: &mut Vec<Vec<char>>, cur: Vec<char>)
    ensures
        char_texts(final(toks)@) == if cur@.len() > 0 {
            char_texts(old(toks)@).push(cur@)
        } else {
            char_texts(old(toks)@)
        },
{
    if cur.len() > 0 {
        toks.push(cur);
        assert(char_texts(toks@) =~= char_texts(old(toks)@).push(cur@));
    }
}

/// The tokens of a query line: words split at spaces and tabs, with quoted
/// text (in `"` or `'`) read as one token.
pub fn tokenize_line(line: &Vec<char>) -> (r: Vec<Vec<char>>)
    ensures
        char_texts(r@) == tokens(line@),
{
    let mut toks: Vec<Vec<char>> = Vec::new();
    let mut cur: Vec<char> = Vec::new();
    let mut quoted = false;
    let mut i: usize = 0;
    assert(char_texts(toks@) =~= seq![]);
    assert(line@.subrange(0, 0) =~= seq![]);
    assert(cur@ =~= seq![]);
    while i < line.len()
        invariant
            i <= line.len(),
            tok_run(line@.subrange(0, i as int)) == (TokState {
                tokens: char_texts(toks@),
                cur: cur@,
                quoted,
            }),
        decreases line.len() - i,
    {
        let c = line[i];
        let ghost before = TokState { tokens: char_texts(toks@), cur: cur@, quoted };
        assert(line@.subrange(0, i + 1).drop_last() =~= line@.subrange(0, i as int));
        if c == '"' || c == '\'' {
            push_token(&mut toks, cur);
            cur = Vec::new();
            quoted = !quoted;
        } else if (c == ' ' || c == '\t') && !quoted {
            push_token(&mut toks, cur);
            cur = Vec::new();
        } else {
            cur.push(c);
        }
        assert((TokState { tokens: char_texts(toks@), cur: cur@, quoted }) =~= tok_step(
            before,
            c,
        ));
        i += 1;
    }
    assert(line@.subrange(0, line@.len() as int) =~= line@);
    push_token(&mut toks, cur);
    toks
}

// ---------------------------------------------------------------- words

/// `tok` is the word `w`.
pub fn is_word(tok: &Vec<char>, w: &str) -> (r: bool)
    ensures
        r == (tok@ == w@),
{
    let wc = text::chars_of(w);
    if tok.len() != wc.len() {
        return false;
    }
    let r = text::matches_at(tok, &wc, 0);
    assert(tok@.subrange(0, wc@.len() as int) =~= tok@);
    r
}

/// The text `prefix` followed by `tok`.
fn message(prefix: &str, tok: &Vec<char>) -> (r: String)
    ensures
        r@ == prefix@ + tok@,
{
    let mut m = text::chars_of(prefix);
    text::append_chars(&mut m, tok);
    text::string_of(&m)
}

pub open spec fn is_relative_date_spec(s: Seq<char>) -> bool {
    s == "today"@ || s == "tomorrow"@ || s == "yesterday"@
}

/// Whether a token names a day relative to today.
pub fn is_relative_date(s: &Vec<char>) -> (r: bool)
    ensures
        r == is_relative_date_spec(s@),
{
    is_word(s, "today") || is_word(s, "tomorrow") || is_word(s, "yesterday")
}

/// The day that a query token names: `today`, `tomorrow`, `yesterday`, or
/// a `%Y-%m-%d` date.
pub open spec fn parse_date_spec(s: Seq<char>, today: Date) -> Result<Date, Seq<char>> {
    if s == "today"@ {
        Ok(today)
    } else if s == "tomorrow"@ {
        match next_day(today) {
            Some(d) => Ok(d),
            None => Err("Invalid date: tomorrow"@),
        }
    } else if s == "yesterday"@ {
        match prev_day(today) {
            Some(d) => Ok(d),
            None => Err("Invalid date: yesterday"@),
        }
    } else {
        match parsed_date(s, "%Y-%m-%d"@) {
            Some(d) => Ok(d),
            None => Err("Invalid date: "@ + s),
        }
    }
}

pub fn parse_date(s: &Vec<char>, today: Date) -> (r: Result<Date, String>)
    ensures
        match r {
            Ok(d) => parse_date_spec(s@, today) == Ok::<Date, Seq<char>>(d),
            Err(e) => parse_date_spec(s@, today) == Err::<Date, Seq<char>>(e@),
        },
{
    if is_word(s, "today") {
        Ok(today)
    } else if is_word(s, "tomorrow") {
        match date::succ_date(today) {
            Some(d) => Ok(d),
            None => Err("Invalid date: tomorrow".to_owned()),
        }
    } else if is_word(s, "yesterday") {
        match date::pred_date(today) {
            Some(d) => Ok(d),
            None => Err("Invalid date: yesterday".to_owned()),
        }
    } else {
        let st = text::string_of(s);
        match date::parse_from_str(st.as_str(), "%Y-%m-%d") {
            Some(d) => Ok(d),
            None => Err(message("Invalid date: ", s)),
        }
    }
}

pub open spec fn parse_priority_spec(s: Seq<char>) -> Result<Priority, Seq<char>> {
    if s == "high"@ {
        Ok(Priority::High)
    } else if s == "medium"@ {
        Ok(Priority::Medium)
    } else if s == "low"@ {
        Ok(Priority::Low)
    } else if s == "none"@ {
        Ok(Priority::Unset)
    } else {
        Err("Unknown priority: "@ + s)
    }
}

/// The priority that a query names: `high`, `medium`, `low` or `none`.
pub fn parse_priority(s: &Vec<char>) -> (r: Result<Priority, String>)
    ensures
        match r {
            Ok(p) => parse_priority_spec(s@) == Ok::<Priority, Seq<char>>(p),
            Err(e) => parse_priority_spec(s@) == Err::<Priority, Seq<char>>(e@),
        },
{
    if is_word(s, "high") {
        Ok(Priority::High)
    } else if is_word(s, "medium") {
        Ok(Priority::Medium)
    } else if is_word(s, "low") {
        Ok(Priority::Low)
    } else if is_word(s, "none") {
        Ok(Priority::Unset)
    } else {
        Err(message("Unknown priority: ", s))
    }
}

pub open spec fn parse_sort_field_spec(s: Seq<char>) -> Result<SortField, Seq<char>> {
    if s == "due"@ {
        Ok(SortField::Due)
    } else if s == "scheduled"@ {
        Ok(SortField::Scheduled)
    } else if s == "priority"@ {
        Ok(SortField::Priority)
    } else if s == "description"@ {
        Ok(SortField::Description)
    } else if s == "tag"@ {
        Ok(SortField::Tag)
    } else if s == "folder"@ {
        Ok(SortField::Folder)
    } else if s == "done"@ {
        Ok(SortField::Done)
    } else if s == "created"@ {
        Ok(SortField::Created)
    } else {
        Err("Unknown sort field: "@ + s)
    }
}

/// The field that `sort by` or `group by` names.
pub fn parse_sort_field(s: &Vec<char>) -> (r: Result<SortField, String>)
    ensures
        match r {
            Ok(f) => parse_sort_field_spec(s@) == Ok::<SortField, Seq<char>>(f),
            Err(e) => parse_sort_field_spec(s@) == Err::<SortField, Seq<char>>(e@),
        },
{
    if is_word(s, "due") {
        Ok(SortField::Due)
    } else if is_word(s, "scheduled") {
        Ok(SortField::Scheduled)
    } else if is_word(s, "priority") {
        Ok(SortField::Priority)
    } else if is_word(s, "description") {
        Ok(SortField::Description)
    } else if is_word(s, "tag") {
        Ok(SortField::Tag)
    } else if is_word(s, "folder") {
        Ok(SortField::Folder)
    } else if is_word(s, "done") {
        Ok(SortField::Done)
    } else if is_word(s, "created") {
        Ok(SortField::Created)
    } else {
        Err(message("Unknown sort field: ", s))
    }
}

/// The value of a run of ASCII digits.
pub open spec fn digits_value(s: Seq<char>) -> nat
    decreases s.len(),
{
    if s.len() == 0 {
        0
    } else {
        digits_value(s.drop_last()) * 10 + ((s.last() as int) - 48) as nat
    }
}

pub open spec fn all_digits(s: Seq<char>) -> bool {
    forall|k: int| 0 <= k < s.len() ==> date::is_digit(#[trigger] s[k])
}

/// What `str::parse::<usize>` accepts: an optional `+`, then one or more
/// ASCII digits, of a value that fits in `usize`.
pub open spec fn parse_usize_spec(s: Seq<char>) -> Option<nat> {
    let d = if s.len() > 0 && s[0] == '+' {
        s.subrange(1, s.len() as int)
    } else {
        s
    };
    if d.len() > 0 && all_digits(d) && digits_value(d) <= usize::MAX {
        Some(digits_value(d))
    } else {
        None
    }
}

pub fn parse_usize(s: &Vec<char>) -> (r: Option<usize>)
    ensures
        match r {
            Some(n) => parse_usize_spec(s@) == Some(n as nat),
            None => parse_usize_spec(s@) is None,
        },
{
    let start: usize = if s.len() > 0 && s[0] == '+' {
        1
    } else {
        0
    };
    let ghost d = if s@.len() > 0 && s@[0] == '+' {
        s@.subrange(1, s@.len() as int)
    } else {
        s@
    };
    assert(d =~= s@.subrange(start as int, s@.len() as int));
    if start >= s.len() {
        return None;
    }
    let mut v: usize = 0;
    let mut i = start;
    while i < s.len()
        invariant
            start <= i <= s.len(),
            d == s@.subrange(start as int, s@.len() as int),
            d == (if s@.len() > 0 && s@[0] == '+' {
                s@.subrange(1, s@.len() as int)
            } else {
                s@
            }),
            all_digits(s@.subrange(start as int, i as int)),
            v as nat == digits_value(s@.subrange(start as int, i as int)),
        decreases s.len() - i,
    {
        let c = s[i];
        let ghost pre = s@.subrange(start as int, i as int);
        let ghost next = s@.subrange(start as int, i + 1);
        assert(next.drop_last() =~= pre);
        assert(next.last() == c);
        if !('0' <= c && c <= '9') {
            assert(!all_digits(d)) by {
                assert(d[i - start] == c);
                assert(!date::is_digit(d[i - start]));
            }
            return None;
        }
        let dv = (c as u32 - 48) as usize;
        if v > (usize::MAX - dv) / 10 {
            proof {
                if all_digits(d) {
                    lemma_digits_value_prefix(d, i - start + 1);
                }
                assert(d.subrange(0, i - start + 1) =~= next);
                assert(v * 10 + dv > usize::MAX) by (nonlinear_arith)
                    requires
                        v > (usize::MAX - dv) / 10,
                        dv <= 9,
                ;
            }
            return None;
        }
        assert(v * 10 + dv <= usize::MAX) by (nonlinear_arith)
            requires
                v <= (usize::MAX - dv) / 10,
                dv <= 9,
        ;
        v = v * 10 + dv;
        i += 1;
        assert(all_digits(next));
    }
    Some(v)
}

/// The value of a prefix of a digit run is at most that of the run.
pub proof fn lemma_digits_value_prefix(d: Seq<char>, k: int)
    requires
        0 <= k <= d.len(),
        all_digits(d),
    ensures
        digits_value(d.subrange(0, k)) <= digits_value(d),
    decreases d.len() - k,
{
    if k == d.len() {
        assert(d.subrange(0, k) =~= d);
    } else {
        lemma_digits_value_prefix(d, k + 1);
        let a = d.subrange(0, k + 1);
        assert(a.drop_last() =~= d.subrange(0, k));
        assert(date::is_digit(a.last()));
    }
}

// ---------------------------------------------------------------- phrases

/// What one phrase of a query does.
pub enum Phrase {
    Add(Filter),
    SortBy(SortField),
    GroupBy(SortField),
}

pub enum PhraseView {
    Add(FilterView),
    SortBy(SortField),
    GroupBy(SortField),
}

impl View for Phrase {
    type V = PhraseView;

    open spec fn view(&self) -> PhraseView {
        match self {
            Phrase::Add(f) => PhraseView::Add(f@),
            Phrase::SortBy(f) => PhraseView::SortBy(*f),
            Phrase::GroupBy(f) => PhraseView::GroupBy(*f),
        }
    }
}

pub open spec fn filter_step(f: FilterView, j: int) -> Result<(PhraseView, int), Seq<char>> {
    Ok((PhraseView::Add(f), j))
}

/// A `due ...` or `scheduled ...` phrase at `i` (`due` when `is_due`).
pub open spec fn dated_phrase(toks: Seq<Seq<char>>, i: int, today: Date, is_due: bool) -> Result<
    (PhraseView, int),
    Seq<char>,
> {
    let n = toks.len();
    if is_relative_date_spec(toks[i + 1]) {
        match parse_date_spec(toks[i + 1], today) {
            Err(e) => Err(e),
            Ok(d) => filter_step(
                if is_due {
                    FilterView::DueOn(d)
                } else {
                    FilterView::ScheduledOn(d)
                },
                i + 2,
            ),
        }
    } else if i + 2 < n {
        match parse_date_spec(toks[i + 2], today) {
            Err(e) => Err(e),
            Ok(d) => if toks[i + 1] == "before"@ {
                filter_step(
                    if is_due {
                        FilterView::DueBefore(d)
                    } else {
                        FilterView::ScheduledBefore(d)
                    },
                    i + 3,
                )
            } else if toks[i + 1] == "after"@ {
                filter_step(
                    if is_due {
                        FilterView::DueAfter(d)
                    } else {
                        FilterView::ScheduledAfter(d)
                    },
                    i + 3,
                )
            } else if toks[i + 1] == "on"@ {
                filter_step(
                    if is_due {
                        FilterView::DueOn(d)
                    } else {
                        FilterView::ScheduledOn(d)
                    },
                    i + 3,
                )
            } else {
                Err(
                    if is_due {
                        "Unknown due filter: "@
                    } else {
                        "Unknown scheduled filter: "@
                    } + toks[i + 1],
                )
            },
        }
    } else {
        Err(
            if is_due {
                "Incomplete due filter"@
            } else {
                "Incomplete scheduled filter"@
            },
        )
    }
}

/// The phrases that start with `happens`, `priority`, `has`, `no`,
/// `recurrence`, `limit`, `sort` or `group`.
pub open spec fn phrase_rest(toks: Seq<Seq<char>>, i: int, today: Date) -> Result<
    (PhraseView, int),
    Seq<char>,
> {
    let n = toks.len();
    let t = toks[i];
    if t == "happens"@ && i + 2 < n {
        match parse_date_spec(toks[i + 2], today) {
            Err(e) => Err(e),
            Ok(d) => if toks[i + 1] == "before"@ {
                filter_step(FilterView::HappensBefore(d), i + 3)
            } else if toks[i + 1] == "after"@ {
                filter_step(FilterView::HappensAfter(d), i + 3)
            } else if toks[i + 1] == "on"@ {
                filter_step(FilterView::HappensOn(d), i + 3)
            } else {
                Err("Unknown happens filter: "@ + toks[i + 1])
            },
        }
    } else if t == "priority"@ && i + 2 < n && (toks[i + 1] == "is"@ || toks[i + 1] == "above"@
        || toks[i + 1] == "below"@) {
        match parse_priority_spec(toks[i + 2]) {
            Err(e) => Err(e),
            Ok(p) => filter_step(
                if toks[i + 1] == "is"@ {
                    FilterView::PriorityIs(p)
                } else if toks[i + 1] == "above"@ {
                    FilterView::PriorityAbove(p)
                } else {
                    FilterView::PriorityBelow(p)
                },
                i + 3,
            ),
        }
    } else if t == "has"@ && i + 1 < n && toks[i + 1] == "recurrence"@ {
        filter_step(FilterView::HasRecurrence, i + 2)
    } else if t == "has"@ && i + 2 < n && toks[i + 1] == "due"@ && toks[i + 2] == "date"@ {
        filter_step(FilterView::HasDueDate, i + 3)
    } else if t == "has"@ && i + 2 < n && toks[i + 1] == "scheduled"@ && toks[i + 2] == "date"@ {
        filter_step(FilterView::HasScheduledDate, i + 3)
    } else if t == "no"@ && i + 1 < n && toks[i + 1] == "recurrence"@ {
        filter_step(FilterView::NoRecurrence, i + 2)
    } else if t == "no"@ && i + 2 < n && toks[i + 1] == "due"@ && toks[i + 2] == "date"@ {
        filter_step(FilterView::NoDueDate, i + 3)
    } else if t == "no"@ && i + 2 < n && toks[i + 1] == "scheduled"@ && toks[i + 2] == "date"@ {
        filter_step(FilterView::NoScheduledDate, i + 3)
    } else if t == "recurrence"@ && i + 2 < n && toks[i + 1] == "includes"@ {
        filter_step(FilterView::RecurrenceIncludes(toks[i + 2]), i + 3)
    } else if t == "limit"@ && i + 1 < n {
        match parse_usize_spec(toks[i + 1]) {
            None => Err("Invalid limit"@),
            Some(v) => filter_step(FilterView::Limit(v), i + 2),
        }
    } else if t == "sort"@ && i + 2 < n && toks[i + 1] == "by"@ {
        match parse_sort_field_spec(toks[i + 2]) {
            Err(e) => Err(e),
            Ok(f) => Ok((PhraseView::SortBy(f), i + 3)),
        }
    } else if t == "group"@ && i + 2 < n && toks[i + 1] == "by"@ {
        match parse_sort_field_spec(toks[i + 2]) {
            Err(e) => Err(e),
            Ok(f) => Ok((PhraseView::GroupBy(f), i + 3)),
        }
    } else {
        Err("Unknown query token: "@ + t)
    }
}

/// The phrase that starts at token `i`, and where the next one starts.
pub open spec fn phrase(toks: Seq<Seq<char>>, i: int, today: Date) -> Result<
    (PhraseView, int),
    Seq<char>,
> {
    let n = toks.len();
    let t = toks[i];
    if t == "done"@ {
        filter_step(FilterView::Done, i + 1)
    } else if t == "not"@ && i + 1 < n && toks[i + 1] == "done"@ {
        filter_step(FilterView::NotDone, i + 2)
    } else if t == "not"@ && i + 2 < n && toks[i + 1] == "includes"@ {
        filter_step(FilterView::NotIncludes(toks[i + 2]), i + 3)
    } else if t == "not"@ && i + 2 < n && toks[i + 1] == "tag"@ {
        filter_step(FilterView::NotTag(toks[i + 2]), i + 3)
    } else if t == "not"@ && i + 2 < n && toks[i + 1] == "folder"@ {
        filter_step(FilterView::NotFolder(toks[i + 2]), i + 3)
    } else if t == "does"@ && i + 3 < n && toks[i + 1] == "not"@ && toks[i + 2] == "include"@ {
        filter_step(FilterView::NotIncludes(toks[i + 3]), i + 4)
    } else if t == "path"@ && i + 2 < n && toks[i + 1] == "includes"@ {
        filter_step(FilterView::PathIncludes(toks[i + 2]), i + 3)
    } else if t == "path"@ && i + 4 < n && toks[i + 1] == "does"@ && toks[i + 2] == "not"@
        && toks[i + 3] == "include"@ {
        filter_step(FilterView::PathNotIncludes(toks[i + 4]), i + 5)
    } else if t == "path"@ && i + 3 < n && toks[i + 1] == "does"@ && toks[i + 2] == "include"@ {
        filter_step(FilterView::PathIncludes(toks[i + 3]), i + 4)
    } else if t == "includes"@ && i + 1 < n {
        filter_step(FilterView::Includes(toks[i + 1]), i + 2)
    } else if t == "description"@ && i + 2 < n && toks[i + 1] == "includes"@ {
        filter_step(FilterView::DescriptionIncludes(toks[i + 2]), i + 3)
    } else if t == "tag"@ && i + 1 < n {
        filter_step(FilterView::Tag(toks[i + 1]), i + 2)
    } else if t == "folder"@ && i + 1 < n {
        filter_step(FilterView::Folder(toks[i + 1]), i + 2)
    } else if t == "due"@ && i + 1 < n {
        dated_phrase(toks, i, today, true)
    } else if t == "scheduled"@ && i + 1 < n {
        dated_phrase(toks, i, today, false)
    } else {
        phrase_rest(toks, i, today)
    }
}

/// A phrase moves past at least one token and not past the end.
pub proof fn lemma_phrase_advances(toks: Seq<Seq<char>>, i: int, today: Date)
    requires
        0 <= i < toks.len(),
    ensures
        phrase(toks, i, today) matches Ok((_, j)) ==> i < j <= toks.len(),
{
}

pub open spec fn apply_phrase(acc: QueryView, p: PhraseView) -> QueryView {
    match p {
        PhraseView::Add(f) => QueryView { filters: acc.filters.push(f), ..acc },
        PhraseView::SortBy(f) => QueryView { sort_by: Some(f), ..acc },
        PhraseView::GroupBy(f) => QueryView { group_by: Some(f), ..acc },
    }
}

/// The phrases of a line's tokens from `i`, added to `acc`.
pub open spec fn parse_phrases(toks: Seq<Seq<char>>, i: int, acc: QueryView, today: Date) -> Result<
    QueryView,
    Seq<char>,
>
    decreases toks.len() - i,
{
    if i < 0 || i >= toks.len() {
        Ok(acc)
    } else {
        proof {
            lemma_phrase_advances(toks, i, today);
        }
        match phrase(toks, i, today) {
            Err(e) => Err(e),
            Ok((p, j)) => parse_phrases(toks, j, apply_phrase(acc, p), today),
        }
    }
}

/// The phrases of the query lines from `k`: each line is trimmed, blank
/// lines are skipped, and the first error ends the parse.
pub open spec fn parse_lines(ls: Seq<Seq<char>>, k: int, acc: QueryView, today: Date) -> Result<
    QueryView,
    Seq<char>,
>
    decreases ls.len() - k,
{
    if k < 0 || k >= ls.len() {
        Ok(acc)
    } else {
        let tl = trim(ls[k]);
        if tl.len() == 0 {
            parse_lines(ls, k + 1, acc, today)
        } else {
            match parse_phrases(tokens(tl), 0, acc, today) {
                Err(e) => Err(e),
                Ok(a) => parse_lines(ls, k + 1, a, today),
            }
        }
    }
}

pub open spec fn empty_query() -> QueryView {
    QueryView { filters: seq![], sort_by: None, group_by: None }
}

/// The query that a query text writes, or the error that ends its parse.
pub open spec fn parse_query_spec(q: Seq<char>, today: Date) -> Result<QueryView, Seq<char>> {
    parse_lines(text::lines(q), 0, empty_query(), today)
}

pub open spec fn phrase_result_view(r: Result<(Phrase, usize), String>) -> Result<
    (PhraseView, int),
    Seq<char>,
> {
    match r {
        Ok((p, j)) => Ok((p@, j as int)),
        Err(e) => Err(e@),
    }
}

fn add_filter(f: Filter, j: usize) -> (r: Result<(Phrase, usize), String>)
    ensures
        phrase_result_view(r) == filter_step(f@, j as int),
{
    Ok((Phrase::Add(f), j))
}

fn dated_phrase_exec(toks: &Vec<Vec<char>>, i: usize, today: Date, is_due: bool) -> (r: Result<
    (Phrase, usize),
    String,
>)
    requires
        toks.len() - i > 1,
    ensures
        phrase_result_view(r) == dated_phrase(char_texts(toks@), i as int, today, is_due),
{
    let ghost t = char_texts(toks@);
    assert(t[i + 1] == toks@[i + 1]@);
    if is_relative_date(&toks[i + 1]) {
        match parse_date(&toks[i + 1], today) {
            Err(e) => Err(e),
            Ok(d) => add_filter(
                if is_due {
                    Filter::DueOn(d)
                } else {
                    Filter::ScheduledOn(d)
                },
                i + 2,
            ),
        }
    } else if toks.len() - i > 2 {
        assert(t[i + 2] == toks@[i + 2]@);
        match parse_date(&toks[i + 2], today) {
            Err(e) => Err(e),
            Ok(d) => if is_word(&toks[i + 1], "before") {
                add_filter(
                    if is_due {
                        Filter::DueBefore(d)
                    } else {
                        Filter::ScheduledBefore(d)
                    },
                    i + 3,
                )
            } else if is_word(&toks[i + 1], "after") {
                add_filter(
                    if is_due {
                        Filter::DueAfter(d)
                    } else {
                        Filter::ScheduledAfter(d)
                    },
                    i + 3,
                )
            } else if is_word(&toks[i + 1], "on") {
                add_filter(
                    if is_due {
                        Filter::DueOn(d)
                    } else {
                        Filter::ScheduledOn(d)
                    },
                    i + 3,
                )
            } else {
                Err(
                    message(
                        if is_due {
                            "Unknown due filter: "
                        } else {
                            "Unknown scheduled filter: "
                        },
                        &toks[i + 1],
                    ),
                )
            },
        }
    } else {
        Err(
            if is_due {
                "Incomplete due filter".to_owned()
            } else {
                "Incomplete scheduled filter".to_owned()
            },
        )
    }
}

fn phrase_rest_exec(toks: &Vec<Vec<char>>, i: usize, today: Date) -> (r: Result<
    (Phrase, usize),
    String,
>)
    requires
        i < toks.len(),
    ensures
        phrase_result_view(r) == phrase_rest(char_texts(toks@), i as int, today),
{
    let ghost t = char_texts(toks@);
    let n = toks.len();
    let w = &toks[i];
    assert(t[i as int] == w@);
    assert(forall|k: int| 0 <= k < n ==> #[trigger] t[k] == toks@[k]@);
    if is_word(w, "happens") && n - i > 2 {
        match parse_date(&toks[i + 2], today) {
            Err(e) => Err(e),
            Ok(d) => if is_word(&toks[i + 1], "before") {
                add_filter(Filter::HappensBefore(d), i + 3)
            } else if is_word(&toks[i + 1], "after") {
                add_filter(Filter::HappensAfter(d), i + 3)
            } else if is_word(&toks[i + 1], "on") {
                add_filter(Filter::HappensOn(d), i + 3)
            } else {
                Err(message("Unknown happens filter: ", &toks[i + 1]))
            },
        }
    } else if is_word(w, "priority") && n - i > 2 && (is_word(&toks[i + 1], "is") || is_word(
        &toks[i + 1],
        "above",
    ) || is_word(&toks[i + 1], "below")) {
        match parse_priority(&toks[i + 2]) {
            Err(e) => Err(e),
            Ok(p) => add_filter(
                if is_word(&toks[i + 1], "is") {
                    Filter::PriorityIs(p)
                } else if is_word(&toks[i + 1], "above") {
                    Filter::PriorityAbove(p)
                } else {
                    Filter::PriorityBelow(p)
                },
                i + 3,
            ),
        }
    } else if is_word(w, "has") && n - i > 1 && is_word(&toks[i + 1], "recurrence") {
        add_filter(Filter::HasRecurrence, i + 2)
    } else if is_word(w, "has") && n - i > 2 && is_word(&toks[i + 1], "due") && is_word(
        &toks[i + 2],
        "date",
    ) {
        add_filter(Filter::HasDueDate, i + 3)
    } else if is_word(w, "has") && n - i > 2 && is_word(&toks[i + 1], "scheduled") && is_word(
        &toks[i + 2],
        "date",
    ) {
        add_filter(Filter::HasScheduledDate, i + 3)
    } else if is_word(w, "no") && n - i > 1 && is_word(&toks[i + 1], "recurrence") {
        add_filter(Filter::NoRecurrence, i + 2)
    } else if is_word(w, "no") && n - i > 2 && is_word(&toks[i + 1], "due") && is_word(
        &toks[i + 2],
        "date",
    ) {
        add_filter(Filter::NoDueDate, i + 3)
    } else if is_word(w, "no") && n - i > 2 && is_word(&toks[i + 1], "scheduled") && is_word(
        &toks[i + 2],
        "date",
    ) {
        add_filter(Filter::NoScheduledDate, i + 3)
    } else if is_word(w, "recurrence") && n - i > 2 && is_word(&toks[i + 1], "includes") {
        add_filter(Filter::RecurrenceIncludes(text::string_of(&toks[i + 2])), i + 3)
    } else if is_word(w, "limit") && n - i > 1 {
        match parse_usize(&toks[i + 1]) {
            None => Err("Invalid limit".to_owned()),
            Some(v) => add_filter(Filter::Limit(v), i + 2),
        }
    } else if is_word(w, "sort") && n - i > 2 && is_word(&toks[i + 1], "by") {
        match parse_sort_field(&toks[i + 2]) {
            Err(e) => Err(e),
            Ok(f) => Ok((Phrase::SortBy(f), i + 3)),
        }
    } else if is_word(w, "group") && n - i > 2 && is_word(&toks[i + 1], "by") {
        match parse_sort_field(&toks[i + 2]) {
            Err(e) => Err(e),
            Ok(f) => Ok((Phrase::GroupBy(f), i + 3)),
        }
    } else {
        Err(message("Unknown query token: ", w))
    }
}

/// The phrase that starts at token `i`, and where the next one starts.
fn phrase_exec(toks: &Vec<Vec<char>>, i: usize, today: Date) -> (r: Result<
    (Phrase, usize),
    String,
>)
    requires
        i < toks.len(),
    ensures
        phrase_result_view(r) == phrase(char_texts(toks@), i as int, today),
{
    let ghost t = char_texts(toks@);
    let n = toks.len();
    let w = &toks[i];
    assert(t[i as int] == w@);
    assert(forall|k: int| 0 <= k < n ==> #[trigger] t[k] == toks@[k]@);
    if is_word(w, "done") {
        add_filter(Filter::Done, i + 1)
    } else if is_word(w, "not") && n - i > 1 && is_word(&toks[i + 1], "done") {
        add_filter(Filter::NotDone, i + 2)
    } else if is_word(w, "not") && n - i > 2 && is_word(&toks[i + 1], "includes") {
        add_filter(Filter::NotIncludes(text::string_of(&toks[i + 2])), i + 3)
    } else if is_word(w, "not") && n - i > 2 && is_word(&toks[i + 1], "tag") {
        add_filter(Filter::NotTag(text::string_of(&toks[i + 2])), i + 3)
    } else if is_word(w, "not") && n - i > 2 && is_word(&toks[i + 1], "folder") {
        add_filter(Filter::NotFolder(text::string_of(&toks[i + 2])), i + 3)
    } else if is_word(w, "does") && n - i > 3 && is_word(&toks[i + 1], "not") && is_word(
        &toks[i + 2],
        "include",
    ) {
        add_filter(Filter::NotIncludes(text::string_of(&toks[i + 3])), i + 4)
    } else if is_word(w, "path") && n - i > 2 && is_word(&toks[i + 1], "includes") {
        add_filter(Filter::PathIncludes(text::string_of(&toks[i + 2])), i + 3)
    } else if is_word(w, "path") && n - i > 4 && is_word(&toks[i + 1], "does") && is_word(
        &toks[i + 2],
        "not",
    ) && is_word(&toks[i + 3], "include") {
        add_filter(Filter::PathNotIncludes(text::string_of(&toks[i + 4])), i + 5)
    } else if is_word(w, "path") && n - i > 3 && is_word(&toks[i + 1], "does") && is_word(
        &toks[i + 2],
        "include",
    ) {
        add_filter(Filter::PathIncludes(text::string_of(&toks[i + 3])), i + 4)
    } else if is_word(w, "includes") && n - i > 1 {
        add_filter(Filter::Includes(text::string_of(&toks[i + 1])), i + 2)
    } else if is_word(w, "description") && n - i > 2 && is_word(&toks[i + 1], "includes") {
        add_filter(Filter::DescriptionIncludes(text::string_of(&toks[i + 2])), i + 3)
    } else if is_word(w, "tag") && n - i > 1 {
        add_filter(Filter::Tag(text::string_of(&toks[i + 1])), i + 2)
    } else if is_word(w, "folder") && n - i > 1 {
        add_filter(Filter::Folder(text::string_of(&toks[i + 1])), i + 2)
    } else if is_word(w, "due") && n - i > 1 {
        dated_phrase_exec(toks, i, today, true)
    } else if is_word(w, "scheduled") && n - i > 1 {
        dated_phrase_exec(toks, i, today, false)
    } else {
        phrase_rest_exec(toks, i, today)
    }
}

fn apply_phrase_exec(q: &mut Query, p: Phrase)
    ensures
        final(q)@ == apply_phrase(old(q)@, p@),
{
    match p {
        Phrase::Add(f) => {
            let ghost fv = f@;
            q.filters.push(f);
            assert(filter_views(q.filters@) =~= filter_views(old(q).filters@).push(fv));
        },
        Phrase::SortBy(f) => {
            q.sort_by = Some(f);
        },
        Phrase::GroupBy(f) => {
            q.group_by = Some(f);
        },
    }
}

/// Adds the phrases of one line's tokens to `q`.
fn parse_line_phrases(toks: &Vec<Vec<char>>, q: &mut Query, today: Date) -> (r: Result<(), String>)
    ensures
        match r {
            Ok(_) => parse_phrases(char_texts(toks@), 0, old(q)@, today) == Ok::<
                QueryView,
                Seq<char>,
            >(final(q)@),
            Err(e) => parse_phrases(char_texts(toks@), 0, old(q)@, today) == Err::<
                QueryView,
                Seq<char>,
            >(e@),
        },
{
    let ghost t = char_texts(toks@);
    let mut i: usize = 0;
    while i < toks.len()
        invariant
            i <= toks.len(),
            t == char_texts(toks@),
            parse_phrases(t, 0, old(q)@, today) == parse_phrases(t, i as int, q@, today),
        decreases toks.len() - i,
    {
        proof {
            lemma_phrase_advances(t, i as int, today);
        }
        match phrase_exec(toks, i, today) {
            Err(e) => {
                return Err(e);
            },
            Ok((p, j)) => {
                apply_phrase_exec(q, p);
                i = j;
            },
        }
    }
    Ok(())
}

/// The query that a query text writes: one or more lines of phrases; the
/// error of the first phrase that does not parse.
pub fn parse_query(query_str: &str, today: Date) -> (r: Result<Query, String>)
    ensures
        match r {
            Ok(q) => parse_query_spec(query_str@, today) == Ok::<QueryView, Seq<char>>(q@),
            Err(e) => parse_query_spec(query_str@, today) == Err::<QueryView, Seq<char>>(e@),
        },
{
    let chars = text::chars_of(query_str);
    let ls = text::lines_of(&chars);
    let ghost all = text::lines(chars@);
    let mut q = Query { filters: Vec::new(), sort_by: None, group_by: None };
    assert(q@ =~= empty_query());
    let mut k: usize = 0;
    while k < ls.len()
        invariant
            k <= ls.len(),
            all == text::lines(query_str@),
            ls@.len() == all.len(),
            forall|j: int| 0 <= j < ls@.len() ==> #[trigger] ls@[j]@ == all[j],
            parse_lines(all, 0, empty_query(), today) == parse_lines(all, k as int, q@, today),
        decreases ls.len() - k,
    {
        let tl = text::trim_chars(&ls[k]);
        assert(tl@ == trim(all[k as int]));
        if tl.len() > 0 {
            let toks = tokenize_line(&tl);
            let ghost before = q@;
            match parse_line_phrases(&toks, &mut q, today) {
                Err(e) => {
                    assert(parse_lines(all, k as int, before, today) == Err::<
                        QueryView,
                        Seq<char>,
                    >(e@));
                    return Err(e);
                },
                Ok(_) => {},
            }
        }
        k += 1;
    }
    assert(parse_lines(all, k as int, q@, today) == Ok::<QueryView, Seq<char>>(q@));
    Ok(q)
}

} // verus!

verus! {

/// What a query text selects from the tasks, with `today`, `tomorrow` and
/// `yesterday` read against `today`; or the error of its parse.
pub open spec fn execute_query_spec(query: Seq<char>, ts: Seq<TaskView>, today: Date) -> Result<
    Seq<TaskView>,
    Seq<char>,
> {
    match parse_query_spec(query, today) {
        Ok(q) => Ok(select_spec(q, ts)),
        Err(e) => Err(e),
    }
}

pub open spec fn tasks_result_view(r: Result<Vec<Task>, String>) -> Result<
    Seq<TaskView>,
    Seq<char>,
> {
    match r {
        Ok(v) => Ok(views(v@)),
        Err(e) => Err(e@),
    }
}

/// Runs a query text on the tasks, reading relative dates against `today`.
pub fn execute_query_on(query_str: &str, tasks: &[Task], today: Date) -> (r: Result<
    Vec<Task>,
    String,
>)
    ensures
        tasks_result_view(r) == execute_query_spec(query_str@, views(tasks@), today),
{
    match parse_query(query_str, today) {
        Ok(q) => Ok(select(&q, tasks)),
        Err(e) => Err(e),
    }
}

/// Runs a query text on the tasks, reading relative dates against the day
/// that the machine's clock gives.
pub fn execute_query(query_str: &str, tasks: &[Task]) -> (r: Result<Vec<Task>, String>)
    ensures
        exists|d: Date| tasks_result_view(r) == #[trigger] execute_query_spec(
            query_str@,
            views(tasks@),
            d,
        ),
{
    let today = date::today();
    execute_query_on(query_str, tasks, today)
}

/// A query text with nothing but blank lines.
pub open spec fn blank_query(q: Seq<char>) -> bool {
    forall|k: int| 0 <= k < text::lines(q).len() ==> #[trigger] trim(text::lines(q)[k]).len() == 0
}

proof fn lemma_blank_lines_parse(ls: Seq<Seq<char>>, k: int, today: Date)
    requires
        0 <= k,
        forall|j: int| 0 <= j < ls.len() ==> #[trigger] trim(ls[j]).len() == 0,
    ensures
        parse_lines(ls, k, empty_query(), today) == Ok::<QueryView, Seq<char>>(empty_query()),
    decreases ls.len() - k,
{
    if k < ls.len() {
        assert(trim(ls[k]).len() == 0);
        lemma_blank_lines_parse(ls, k + 1, today);
    }
}

proof fn lemma_filter_keeps_all(s: Seq<TaskView>, p: spec_fn(TaskView) -> bool)
    requires
        forall|t: TaskView| #[trigger] p(t),
    ensures
        s.filter(p) == s,
    decreases s.len(),
{
    reveal(Seq::filter);
    if s.len() > 0 {
        lemma_filter_keeps_all(s.drop_last(), p);
        assert(p(s.last()));
        assert(s.drop_last().push(s.last()) =~= s);
    }
}

/// A query with nothing in it (the empty text, or blank lines only) shows
/// every task, in the order of the list.
pub proof fn lemma_blank_query_shows_all(q: Seq<char>, ts: Seq<TaskView>, today: Date)
    requires
        blank_query(q),
    ensures
        execute_query_spec(q, ts, today) == Ok::<Seq<TaskView>, Seq<char>>(ts),
{
    lemma_blank_lines_parse(text::lines(q), 0, today);
    let p = super::select::passes_all(empty_query().filters);
    assert forall|t: TaskView| #[trigger] p(t) by {
        assert(super::select::passes(t, seq![]));
    }
    lemma_filter_keeps_all(ts, p);
}

/// The query of `first`'s phrases followed by `second`'s: the filters of
/// both in order, and the sort and group of `second` where it has them.
pub open spec fn combine(first: QueryView, second: QueryView) -> QueryView {
    QueryView {
        filters: first.filters + second.filters,
        sort_by: if second.sort_by is Some {
            second.sort_by
        } else {
            first.sort_by
        },
        group_by: if second.group_by is Some {
            second.group_by
        } else {
            first.group_by
        },
    }
}

/// A parse result put after the query `first`.
pub open spec fn after_query(first: QueryView, r: Result<QueryView, Seq<char>>) -> Result<
    QueryView,
    Seq<char>,
> {
    match r {
        Ok(q) => Ok(combine(first, q)),
        Err(e) => Err(e),
    }
}

proof fn lemma_combine_apply(first: QueryView, x: QueryView, p: PhraseView)
    ensures
        apply_phrase(combine(first, x), p) == combine(first, apply_phrase(x, p)),
{
    if let PhraseView::Add(f) = p {
        assert((first.filters + x.filters).push(f) =~= first.filters + x.filters.push(f));
    }
}

proof fn lemma_phrases_after(toks: Seq<Seq<char>>, i: int, first: QueryView, x: QueryView, today: Date)
    ensures
        parse_phrases(toks, i, combine(first, x), today) == after_query(
            first,
            parse_phrases(toks, i, x, today),
        ),
    decreases toks.len() - i,
{
    if !(i < 0 || i >= toks.len()) {
        lemma_phrase_advances(toks, i, today);
        match phrase(toks, i, today) {
            Err(e) => {},
            Ok((p, j)) => {
                lemma_combine_apply(first, x, p);
                lemma_phrases_after(toks, j, first, apply_phrase(x, p), today);
            },
        }
    }
}

proof fn lemma_lines_after(ls: Seq<Seq<char>>, k: int, first: QueryView, x: QueryView, today: Date)
    ensures
        parse_lines(ls, k, combine(first, x), today) == after_query(
            first,
            parse_lines(ls, k, x, today),
        ),
    decreases ls.len() - k,
{
    if !(k < 0 || k >= ls.len()) {
        let tl = trim(ls[k]);
        if tl.len() == 0 {
            lemma_lines_after(ls, k + 1, first, x, today);
        } else {
            lemma_phrases_after(tokens(tl), 0, first, x, today);
            match parse_phrases(tokens(tl), 0, x, today) {
                Err(e) => {},
                Ok(a) => {
                    lemma_lines_after(ls, k + 1, first, a, today);
                },
            }
        }
    }
}

proof fn lemma_lines_shift(x: Seq<Seq<char>>, y: Seq<Seq<char>>, j: int, acc: QueryView, today: Date)
    requires
        0 <= j,
    ensures
        parse_lines(x + y, x.len() + j, acc, today) == parse_lines(y, j, acc, today),
    decreases y.len() - j,
{
    if j < y.len() {
        assert((x + y)[x.len() + j] == y[j]);
        let tl = trim(y[j]);
        if tl.len() == 0 {
            lemma_lines_shift(x, y, j + 1, acc, today);
        } else {
            match parse_phrases(tokens(tl), 0, acc, today) {
                Err(e) => {},
                Ok(a) => {
                    lemma_lines_shift(x, y, j + 1, a, today);
                },
            }
        }
    }
}

/// Parsing the lines `x` and then `y` is parsing `x` and going on with `y`.
proof fn lemma_lines_concat(x: Seq<Seq<char>>, y: Seq<Seq<char>>, k: int, acc: QueryView, today: Date)
    requires
        0 <= k <= x.len(),
    ensures
        parse_lines(x + y, k, acc, today) == match parse_lines(x, k, acc, today) {
            Ok(q) => parse_lines(y, 0, q, today),
            Err(e) => Err(e),
        },
    decreases x.len() - k,
{
    if k == x.len() {
        lemma_lines_shift(x, y, 0, acc, today);
    } else {
        assert((x + y)[k] == x[k]);
        let tl = trim(x[k]);
        if tl.len() == 0 {
            lemma_lines_concat(x, y, k + 1, acc, today);
        } else {
            match parse_phrases(tokens(tl), 0, acc, today) {
                Err(e) => {},
                Ok(a) => {
                    lemma_lines_concat(x, y, k + 1, a, today);
                },
            }
        }
    }
}

/// The lines of `s[i..]` (with `cur` read so far) where a final line is
/// always given, even an empty one: the lines of `s` when a line break
/// follows it.
pub open spec fn closed_lines(s: Seq<char>, i: int, cur: Seq<char>) -> Seq<Seq<char>>
    decreases s.len() - i,
{
    if i < 0 || i >= s.len() {
        seq![text::strip_cr(cur)]
    } else if s[i] == '\n' {
        seq![text::strip_cr(cur)] + closed_lines(s, i + 1, seq![])
    } else {
        closed_lines(s, i + 1, cur.push(s[i]))
    }
}

proof fn lemma_text_lines_shift(a: Seq<char>, b: Seq<char>, j: int, cur: Seq<char>)
    requires
        0 <= j <= b.len(),
    ensures
        text::lines_from(a + seq!['\n'] + b, a.len() + 1 + j, cur) == text::lines_from(b, j, cur),
    decreases b.len() - j,
{
    let s = a + seq!['\n'] + b;
    if j < b.len() {
        assert(s[a.len() + 1 + j] == b[j]);
        if b[j] == '\n' {
            lemma_text_lines_shift(a, b, j + 1, seq![]);
        } else {
            lemma_text_lines_shift(a, b, j + 1, cur.push(b[j]));
        }
    }
}

proof fn lemma_text_lines_join(a: Seq<char>, b: Seq<char>, i: int, cur: Seq<char>)
    requires
        0 <= i <= a.len(),
    ensures
        text::lines_from(a + seq!['\n'] + b, i, cur) == closed_lines(a, i, cur) + text::lines(b),
    decreases a.len() - i,
{
    let s = a + seq!['\n'] + b;
    if i == a.len() {
        assert(s[i] == '\n');
        lemma_text_lines_shift(a, b, 0, seq![]);
    } else {
        assert(s[i] == a[i]);
        if a[i] == '\n' {
            lemma_text_lines_join(a, b, i + 1, seq![]);
            assert(seq![text::strip_cr(cur)] + closed_lines(a, i + 1, seq![]) + text::lines(b)
                =~= seq![text::strip_cr(cur)] + (closed_lines(a, i + 1, seq![]) + text::lines(b)));
        } else {
            lemma_text_lines_join(a, b, i + 1, cur.push(a[i]));
        }
    }
}

/// A final line without its carriage return is read alike.
proof fn lemma_strip_cr_trim(c: Seq<char>)
    ensures
        trim(text::strip_cr(c)) == trim(c),
{
    if c.len() > 0 && c.last() == '\r' {
        text::lemma_trim_push_ws(c.drop_last(), '\r');
        assert(c.drop_last().push('\r') =~= c);
    }
}

proof fn lemma_one_line(l: Seq<char>, acc: QueryView, today: Date)
    ensures
        parse_lines(seq![l], 0, acc, today) == (if trim(l).len() == 0 {
            Ok(acc)
        } else {
            parse_phrases(tokens(trim(l)), 0, acc, today)
        }),
{
    let tl = trim(l);
    assert(parse_lines(seq![l], 1, acc, today) == Ok::<QueryView, Seq<char>>(acc));
    if tl.len() != 0 {
        match parse_phrases(tokens(tl), 0, acc, today) {
            Err(e) => {},
            Ok(a) => {
                assert(parse_lines(seq![l], 1, a, today) == Ok::<QueryView, Seq<char>>(a));
            },
        }
    }
}

/// The closed lines of a text parse as its lines do.
proof fn lemma_closed_lines_parse(s: Seq<char>, i: int, cur: Seq<char>, acc: QueryView, today: Date)
    requires
        0 <= i <= s.len(),
    ensures
        parse_lines(closed_lines(s, i, cur), 0, acc, today) == parse_lines(
            text::lines_from(s, i, cur),
            0,
            acc,
            today,
        ),
    decreases s.len() - i,
{
    if i == s.len() {
        lemma_strip_cr_trim(cur);
        lemma_one_line(text::strip_cr(cur), acc, today);
        if cur.len() > 0 {
            lemma_one_line(cur, acc, today);
        } else {
            assert(trim(text::strip_cr(cur)).len() == 0);
        }
    } else if s[i] == '\n' {
        let h = seq![text::strip_cr(cur)];
        lemma_lines_concat(h, closed_lines(s, i + 1, seq![]), 0, acc, today);
        lemma_lines_concat(h, text::lines_from(s, i + 1, seq![]), 0, acc, today);
        lemma_one_line(text::strip_cr(cur), acc, today);
        match parse_lines(h, 0, acc, today) {
            Err(e) => {},
            Ok(q) => {
                lemma_closed_lines_parse(s, i + 1, seq![], q, today);
            },
        }
    } else {
        lemma_closed_lines_parse(s, i + 1, cur.push(s[i]), acc, today);
    }
}

/// Two query texts joined by a line break parse as the first followed by
/// the second: the filters of both in order, and the second's sort and
/// group where it has them; the first error of either ends the parse.
pub proof fn lemma_joined_query(a: Seq<char>, b: Seq<char>, today: Date)
    ensures
        parse_query_spec(a + seq!['\n'] + b, today) == match parse_query_spec(a, today) {
            Ok(qa) => after_query(qa, parse_query_spec(b, today)),
            Err(e) => Err(e),
        },
{
    let ca = closed_lines(a, 0, seq![]);
    lemma_text_lines_join(a, b, 0, seq![]);
    lemma_lines_concat(ca, text::lines(b), 0, empty_query(), today);
    lemma_closed_lines_parse(a, 0, seq![], empty_query(), today);
    match parse_query_spec(a, today) {
        Err(e) => {},
        Ok(qa) => {
            assert(combine(qa, empty_query()) =~= qa);
            lemma_lines_after(text::lines(b), 0, qa, empty_query(), today);
        },
    }
}

/// A char that stands in a word of a query as it is: no blank and no
/// quote.
pub open spec fn word_char(c: char) -> bool {
    !text::is_ws(c) && c != '"' && c != '\''
}

proof fn lemma_lines_alone(s: Seq<char>, i: int)
    requires
        0 <= i <= s.len(),
        s.len() > 0,
        forall|j: int| 0 <= j < s.len() ==> #[trigger] s[j] != '\n',
    ensures
        text::lines_from(s, i, s.take(i)) == seq![s],
    decreases s.len() - i,
{
    if i < s.len() {
        assert(s.take(i).push(s[i]) =~= s.take(i + 1));
        lemma_lines_alone(s, i + 1);
    } else {
        assert(s.take(i) =~= s);
    }
}

/// Word chars run on the token being read.
proof fn lemma_tok_word(p: Seq<char>, w: Seq<char>)
    requires
        forall|j: int| 0 <= j < w.len() ==> word_char(#[trigger] w[j]),
    ensures
        tok_run(p + w) == (TokState { cur: tok_run(p).cur + w, ..tok_run(p) }),
    decreases w.len(),
{
    if w.len() == 0 {
        assert(p + w =~= p);
        assert(tok_run(p).cur + w =~= tok_run(p).cur);
    } else {
        let v = w.drop_last();
        assert forall|j: int| 0 <= j < v.len() implies word_char(#[trigger] v[j]) by {
            assert(v[j] == w[j]);
        }
        lemma_tok_word(p, v);
        assert((p + w).drop_last() =~= p + v);
        assert((p + w).last() == w.last());
        assert(word_char(w[w.len() - 1]));
        assert(tok_run(p).cur + v + seq![w.last()] =~= tok_run(p).cur + w);
    }
}

/// Words of word chars joined by single spaces tokenize to those words.
proof fn lemma_tok_words(ws: Seq<Seq<char>>)
    requires
        ws.len() > 0,
        forall|k: int| 0 <= k < ws.len() ==> (#[trigger] ws[k]).len() > 0,
        forall|k: int, j: int| 0 <= k < ws.len() && 0 <= j < ws[k].len() ==> word_char(#[trigger] ws[k][j]),
    ensures
        tok_run(join_words(ws)) == (TokState { tokens: ws.drop_last(), cur: ws.last(), quoted: false }),
        tokens(join_words(ws)) == ws,
    decreases ws.len(),
{
    let w = ws.last();
    assert forall|j: int| 0 <= j < w.len() implies word_char(#[trigger] w[j]) by {
        assert(ws[ws.len() - 1][j] == w[j]);
    }
    assert(w.len() > 0);
    if ws.len() == 1 {
        assert(join_words(ws) == ws[0]);
        lemma_tok_word(seq![], w);
        assert(Seq::<char>::empty() + w =~= w);
        assert(ws.drop_last() =~= Seq::<Seq<char>>::empty());
        assert(tok_run(Seq::<char>::empty()).cur + w =~= w);
    } else {
        let prev = ws.drop_last();
        assert forall|k: int| 0 <= k < prev.len() implies (#[trigger] prev[k]).len() > 0 by {
            assert(prev[k] == ws[k]);
        }
        assert forall|k: int, j: int| 0 <= k < prev.len() && 0 <= j < prev[k].len() implies word_char(
            #[trigger] prev[k][j],
        ) by {
            assert(prev[k] == ws[k]);
        }
        lemma_tok_words(prev);
        let jp = join_words(prev);
        let q = jp + seq![' '];
        assert(q.drop_last() =~= jp);
        assert(tok_run(q) == (TokState { tokens: prev, cur: seq![], quoted: false })) by {
            assert(prev.drop_last().push(prev.last()) =~= prev);
        }
        lemma_tok_word(q, w);
        assert(join_words(ws) == q + w);
        assert(Seq::<char>::empty() + w =~= w);
    }
    assert(ws.drop_last().push(ws.last()) =~= ws);
}

/// A query text of one line of words, each of word chars, joined by single
/// spaces reads as the phrases of those words.
proof fn lemma_words_query(ws: Seq<Seq<char>>, today: Date)
    requires
        ws.len() > 0,
        forall|k: int| 0 <= k < ws.len() ==> (#[trigger] ws[k]).len() > 0,
        forall|k: int, j: int| 0 <= k < ws.len() && 0 <= j < ws[k].len() ==> word_char(#[trigger] ws[k][j]),
        forall|j: int|
            0 <= j < join_words(ws).len() ==> #[trigger] join_words(ws)[j] != '\n',
        !text::is_ws(join_words(ws)[0]),
        !text::is_ws(join_words(ws).last()),
    ensures
        parse_query_spec(join_words(ws), today) == parse_phrases(ws, 0, empty_query(), today),
{
    let s = join_words(ws);
    lemma_tok_words(ws);
    assert(s.len() > 0) by {
        if ws.len() > 1 {
            assert(s == join_words(ws.drop_last()) + seq![' '] + ws.last());
        }
    }
    lemma_lines_alone(s, 0);
    assert(s.take(0) =~= Seq::<char>::empty());
    assert(trim(s) == s) by {
        assert(text::trim_start(s) == s);
        assert(text::trim_end(s) == s);
    }
    lemma_one_line(s, empty_query(), today);
}

/// A query text of words that reads as one filter.
proof fn lemma_one_filter_query(ws: Seq<Seq<char>>, f: FilterView, ts: Seq<TaskView>, today: Date)
    requires
        ws.len() > 0,
        forall|k: int| 0 <= k < ws.len() ==> (#[trigger] ws[k]).len() > 0,
        forall|k: int, j: int| 0 <= k < ws.len() && 0 <= j < ws[k].len() ==> word_char(#[trigger] ws[k][j]),
        forall|j: int|
            0 <= j < join_words(ws).len() ==> #[trigger] join_words(ws)[j] != '\n',
        !text::is_ws(join_words(ws)[0]),
        !text::is_ws(join_words(ws).last()),
        phrase(ws, 0, today) == filter_step(f, ws.len() as int),
    ensures
        execute_query_spec(join_words(ws), ts, today) == Ok::<Seq<TaskView>, Seq<char>>(
            select_spec(single(f), ts),
        ),
{
    lemma_words_query(ws, today);
    let a = apply_phrase(empty_query(), PhraseView::Add(f));
    assert(parse_phrases(ws, ws.len() as int, a, today) == Ok::<QueryView, Seq<char>>(a));
    assert(a =~= single(f));
}

/// The phrase words that `phrase` tries before `phrase_rest`, and those
/// that `phrase_rest` tries before `has` and `no`, are none of `has` and
/// `no`; and the words after them differ.
proof fn lemma_has_no_words()
    ensures
        ({
            let before = seq![
                "done"@, "not"@, "does"@, "path"@, "includes"@, "description"@, "tag"@, "folder"@,
                "due"@, "scheduled"@, "happens"@, "priority"@,
            ];
            forall|k: int| 0 <= k < before.len() ==> before[k] != "has"@ && before[k] != "no"@
        }),
        "due"@ != "recurrence"@,
        "has"@ != "no"@,
{
    reveal_strlit("has");
    reveal_strlit("no");
    reveal_strlit("done");
    reveal_strlit("not");
    reveal_strlit("does");
    reveal_strlit("path");
    reveal_strlit("includes");
    reveal_strlit("description");
    reveal_strlit("tag");
    reveal_strlit("folder");
    reveal_strlit("due");
    reveal_strlit("scheduled");
    reveal_strlit("happens");
    reveal_strlit("priority");
    reveal_strlit("recurrence");
    let before = seq![
        "done"@, "not"@, "does"@, "path"@, "includes"@, "description"@, "tag"@, "folder"@,
        "due"@, "scheduled"@, "happens"@, "priority"@,
    ];
    assert forall|k: int| 0 <= k < before.len() implies before[k] != "has"@ && before[k] != "no"@ by {
        assert(before[k].len() != 3 || before[k][0] != 'h');
        assert(before[k].len() != 2);
    }
    assert("due"@.len() != "recurrence"@.len());
    assert("has"@.len() != "no"@.len());
}

proof fn lemma_done_queries(ts: Seq<TaskView>, today: Date)
    ensures
        execute_query_spec("done"@, ts, today) == Ok::<Seq<TaskView>, Seq<char>>(
            select_spec(single(FilterView::Done), ts),
        ),
        execute_query_spec("not done"@, ts, today) == Ok::<Seq<TaskView>, Seq<char>>(
            select_spec(single(FilterView::NotDone), ts),
        ),
{
    reveal_strlit("done");
    reveal_strlit("not");
    reveal_strlit("not done");
    let w_done = seq!["done"@];
    assert(join_words(w_done) == "done"@);
    lemma_one_filter_query(w_done, FilterView::Done, ts, today);
    let w_not = seq!["not"@, "done"@];
    assert(join_words(w_not) =~= "not done"@) by {
        assert(w_not.drop_last() =~= seq!["not"@]);
        assert(join_words(seq!["not"@]) == "not"@);
    }
    lemma_one_filter_query(w_not, FilterView::NotDone, ts, today);
}

proof fn lemma_due_queries(ts: Seq<TaskView>, today: Date)
    ensures
        execute_query_spec("has due date"@, ts, today) == Ok::<Seq<TaskView>, Seq<char>>(
            select_spec(single(FilterView::HasDueDate), ts),
        ),
        execute_query_spec("no due date"@, ts, today) == Ok::<Seq<TaskView>, Seq<char>>(
            select_spec(single(FilterView::NoDueDate), ts),
        ),
{
    lemma_has_no_words();
    let before = seq![
        "done"@, "not"@, "does"@, "path"@, "includes"@, "description"@, "tag"@, "folder"@,
        "due"@, "scheduled"@, "happens"@, "priority"@,
    ];
    assert(forall|k: int| 0 <= k < before.len() ==> before[k] != "has"@ && before[k] != "no"@);
    assert(before[0] == "done"@ && before[1] == "not"@ && before[2] == "does"@ && before[3]
        == "path"@ && before[4] == "includes"@ && before[5] == "description"@ && before[6] == "tag"@
        && before[7] == "folder"@ && before[8] == "due"@ && before[9] == "scheduled"@ && before[10]
        == "happens"@ && before[11] == "priority"@);
    let w_has = seq!["has"@, "due"@, "date"@];
    let w_no = seq!["no"@, "due"@, "date"@];
    assert(phrase(w_has, 0, today) == filter_step(FilterView::HasDueDate, 3));
    assert(phrase(w_no, 0, today) == filter_step(FilterView::NoDueDate, 3));
    reveal_strlit("has");
    reveal_strlit("no");
    reveal_strlit("due");
    reveal_strlit("date");
    reveal_strlit("has due date");
    reveal_strlit("no due date");
    assert(join_words(w_has) =~= "has due date"@) by {
        assert(w_has.drop_last() =~= seq!["has"@, "due"@]);
        assert(w_has.drop_last().drop_last() =~= seq!["has"@]);
        assert(join_words(seq!["has"@]) == "has"@);
        assert(join_words(seq!["has"@, "due"@]) =~= "has"@ + seq![' '] + "due"@);
    }
    lemma_one_filter_query(w_has, FilterView::HasDueDate, ts, today);
    assert(join_words(w_no) =~= "no due date"@) by {
        assert(w_no.drop_last() =~= seq!["no"@, "due"@]);
        assert(w_no.drop_last().drop_last() =~= seq!["no"@]);
        assert(join_words(seq!["no"@]) == "no"@);
        assert(join_words(seq!["no"@, "due"@]) =~= "no"@ + seq![' '] + "due"@);
    }
    lemma_one_filter_query(w_no, FilterView::NoDueDate, ts, today);
}

/// `done` and `not done` split every task list: both queries succeed, and
/// each task is shown by exactly one of them, the done ones by the first
/// and the open ones by the second, so the counts add up to the whole list.
/// `has due date` and `no due date` split it in the same way.
pub proof fn lemma_done_due_split(ts: Seq<TaskView>, today: Date)
    ensures
        ({
            let d = execute_query_spec("done"@, ts, today);
            let n = execute_query_spec("not done"@, ts, today);
            &&& d matches Ok(ds)
            &&& n matches Ok(ns)
            &&& ds.len() + ns.len() == ts.len()
            &&& forall|k: int|
                0 <= k < ds.len() ==> ts.contains(#[trigger] ds[k]) && ds[k].status == TaskStatus::Done
            &&& forall|k: int|
                0 <= k < ns.len() ==> ts.contains(#[trigger] ns[k]) && ns[k].status == TaskStatus::Todo
        }),
        ({
            let d = execute_query_spec("has due date"@, ts, today);
            let n = execute_query_spec("no due date"@, ts, today);
            &&& d matches Ok(ds)
            &&& n matches Ok(ns)
            &&& ds.len() + ns.len() == ts.len()
            &&& forall|k: int| 0 <= k < ds.len() ==> ts.contains(#[trigger] ds[k]) && ds[k].due_date is Some
            &&& forall|k: int| 0 <= k < ns.len() ==> ts.contains(#[trigger] ns[k]) && ns[k].due_date is None
        }),
{
    lemma_done_queries(ts, today);
    lemma_due_queries(ts, today);
    lemma_opposite_filters_split(FilterView::Done, FilterView::NotDone, ts);
    lemma_opposite_filters_split(FilterView::HasDueDate, FilterView::NoDueDate, ts);
}

} // verus!
