//! The task model: status, priority, dates and the markdown line of a task.
use vstd::prelude::*;

pub mod date;
pub mod order;
pub mod path;
pub mod select;
pub mod sort;
pub mod parser;
pub mod query;
pub mod reread;

pub use date::Date;

verus! {

/// Whether a task is open or done.
#[derive(Clone, Copy, Debug, PartialEq, Eq, Structural)]
pub enum TaskStatus {
    Todo,
    Done,
}

/// The other status.
pub open spec fn flip_status(s: TaskStatus) -> TaskStatus {
    match s {
        TaskStatus::Todo => TaskStatus::Done,
        TaskStatus::Done => TaskStatus::Todo,
    }
}

impl TaskStatus {
    /// Todo becomes Done and Done becomes Todo.
    pub fn cycle(&mut self)
        ensures
            *final(self) == flip_status(*old(self)),
    {
        *self = match *self {
            TaskStatus::Todo => TaskStatus::Done,
            TaskStatus::Done => TaskStatus::Todo,
        };
    }
}

} // verus!

verus! {

/// Task priority, from unset to highest (the derived order follows the variants).
#[derive(Clone, Copy, Debug, PartialEq, Eq, Structural, PartialOrd, Ord)]
pub enum Priority {
    Unset,
    Lowest,
    Low,
    Medium,
    High,
    Highest,
}

/// The place of a priority in the order `Unset < Lowest < ... < Highest`.
pub open spec fn rank(p: Priority) -> int {
    match p {
        Priority::Unset => 0,
        Priority::Lowest => 1,
        Priority::Low => 2,
        Priority::Medium => 3,
        Priority::High => 4,
        Priority::Highest => 5,
    }
}

pub fn priority_rank(p: Priority) -> (r: u8)
    ensures
        r == rank(p),
{
    match p {
        Priority::Unset => 0,
        Priority::Lowest => 1,
        Priority::Low => 2,
        Priority::Medium => 3,
        Priority::High => 4,
        Priority::Highest => 5,
    }
}

/// The due-date marker.
pub const DUE_MARK: char = '\u{1F4C5}';

/// The scheduled-date marker.
pub const SCHEDULED_MARK: char = '\u{23F3}';

/// The start-date marker.
pub const START_MARK: char = '\u{1F6EB}';

/// The recurrence marker.
pub const RECURRENCE_MARK: char = '\u{1F501}';

/// The done-date marker.
pub const DONE_MARK: char = '\u{2705}';

/// The emoji that writes a priority (none for `Priority::Unset`).
pub open spec fn priority_mark(p: Priority) -> char {
    match p {
        Priority::Highest => '\u{1F53A}',
        Priority::High => '\u{23EB}',
        Priority::Medium => '\u{1F53C}',
        Priority::Low => '\u{1F53D}',
        _ => '\u{23EC}',
    }
}

/// The priority that a single emoji names.
pub open spec fn priority_of_char(c: char) -> Option<Priority> {
    if c == '\u{1F53A}' {
        Some(Priority::Highest)
    } else if c == '\u{23EB}' {
        Some(Priority::High)
    } else if c == '\u{1F53C}' {
        Some(Priority::Medium)
    } else if c == '\u{1F53D}' {
        Some(Priority::Low)
    } else if c == '\u{23EC}' {
        Some(Priority::Lowest)
    } else {
        None
    }
}

/// The text that writes a priority.
pub open spec fn priority_text(p: Priority) -> Seq<char> {
    if p == Priority::Unset {
        seq![]
    } else {
        seq![priority_mark(p)]
    }
}

/// The priority that a text names.
pub open spec fn priority_of_text(s: Seq<char>) -> Option<Priority> {
    if s.len() == 1 {
        priority_of_char(s[0])
    } else {
        None
    }
}

pub fn priority_char(c: char) -> (r: Option<Priority>)
    ensures
        r == priority_of_char(c),
{
    if c == '\u{1F53A}' {
        Some(Priority::Highest)
    } else if c == '\u{23EB}' {
        Some(Priority::High)
    } else if c == '\u{1F53C}' {
        Some(Priority::Medium)
    } else if c == '\u{1F53D}' {
        Some(Priority::Low)
    } else if c == '\u{23EC}' {
        Some(Priority::Lowest)
    } else {
        None
    }
}

/// The priority that comes next when cycling: unset, then highest down to
/// lowest, then unset again.
pub open spec fn next_priority(p: Priority) -> Priority {
    match p {
        Priority::Unset => Priority::Highest,
        Priority::Highest => Priority::High,
        Priority::High => Priority::Medium,
        Priority::Medium => Priority::Low,
        Priority::Low => Priority::Lowest,
        Priority::Lowest => Priority::Unset,
    }
}

impl Priority {
    /// None -> Highest -> High -> Medium -> Low -> Lowest -> None.
    pub fn cycle(&mut self)
        ensures
            *final(self) == next_priority(*old(self)),
    {
        *self = match *self {
            Priority::Unset => Priority::Highest,
            Priority::Highest => Priority::High,
            Priority::High => Priority::Medium,
            Priority::Medium => Priority::Low,
            Priority::Low => Priority::Lowest,
            Priority::Lowest => Priority::Unset,
        };
    }

    /// The priority that the emoji `s` writes, if it is one of the five.
    pub fn from_emoji(s: &str) -> (r: Option<Priority>)
        ensures
            r == priority_of_text(s@),
    {
        let v = crate::text::chars_of(s);
        if v.len() == 1 {
            priority_char(v[0])
        } else {
            None
        }
    }

    /// The emoji that writes this priority, empty for `Unset`.
    pub fn to_emoji(self) -> (r: &'static str)
        ensures
            r@ == priority_text(self),
    {
        match self {
            Priority::Highest => {
                proof {
                    reveal_strlit("\u{1F53A}");
                }
                "\u{1F53A}"
            },
            Priority::High => {
                proof {
                    reveal_strlit("\u{23EB}");
                }
                "\u{23EB}"
            },
            Priority::Medium => {
                proof {
                    reveal_strlit("\u{1F53C}");
                }
                "\u{1F53C}"
            },
            Priority::Low => {
                proof {
                    reveal_strlit("\u{1F53D}");
                }
                "\u{1F53D}"
            },
            Priority::Lowest => {
                proof {
                    reveal_strlit("\u{23EC}");
                }
                "\u{23EC}"
            },
            Priority::Unset => {
                proof {
                    reveal_strlit("");
                }
                ""
            },
        }
    }
}

} // verus!

verus! {

/// A task line of a markdown file, with its metadata.
#[derive(Debug)]
pub struct Task {
    pub description: String,
    pub status: TaskStatus,
    pub priority: Priority,
    pub due_date: Option<Date>,
    pub scheduled_date: Option<Date>,
    pub recurrence: Option<String>,
    pub done_date: Option<Date>,
    pub start_date: Option<Date>,
    pub tags: Vec<String>,
    pub source_file: String,
    pub line_number: usize,
}

/// A task as plain values.
pub struct TaskView {
    pub description: Seq<char>,
    pub status: TaskStatus,
    pub priority: Priority,
    pub due_date: Option<Date>,
    pub scheduled_date: Option<Date>,
    pub recurrence: Option<Seq<char>>,
    pub done_date: Option<Date>,
    pub start_date: Option<Date>,
    pub tags: Seq<Seq<char>>,
    pub source_file: Seq<char>,
    pub line_number: nat,
}

pub open spec fn opt_text(s: Option<String>) -> Option<Seq<char>> {
    match s {
        Some(t) => Some(t@),
        None => None,
    }
}

pub open spec fn texts(v: Seq<String>) -> Seq<Seq<char>> {
    v.map_values(|t: String| t@)
}

impl View for Task {
    type V = TaskView;

    open spec fn view(&self) -> TaskView {
        TaskView {
            description: self.description@,
            status: self.status,
            priority: self.priority,
            due_date: self.due_date,
            scheduled_date: self.scheduled_date,
            recurrence: opt_text(self.recurrence),
            done_date: self.done_date,
            start_date: self.start_date,
            tags: texts(self.tags@),
            source_file: self.source_file@,
            line_number: self.line_number as nat,
        }
    }
}

/// A copy of each string.
pub fn clone_strings(v: &Vec<String>) -> (r: Vec<String>)
    ensures
        r@ == v@,
{
    let mut r: Vec<String> = Vec::new();
    let mut i: usize = 0;
    while i < v.len()
        invariant
            i <= v.len(),
            r@ == v@.subrange(0, i as int),
        decreases v.len() - i,
    {
        let c = v[i].clone();
        r.push(c);
        i += 1;
        assert(r@ =~= v@.subrange(0, i as int));
    }
    assert(v@.subrange(0, v@.len() as int) =~= v@);
    r
}

pub fn clone_opt_string(s: &Option<String>) -> (r: Option<String>)
    ensures
        opt_text(r) == opt_text(*s),
{
    match s {
        Some(t) => Some(t.clone()),
        None => None,
    }
}

impl Task {
    /// A field-by-field copy.
    pub fn duplicate(&self) -> (r: Task)
        ensures
            r@ == self@,
    {
        Task {
            description: self.description.clone(),
            status: self.status,
            priority: self.priority,
            due_date: self.due_date,
            scheduled_date: self.scheduled_date,
            recurrence: clone_opt_string(&self.recurrence),
            done_date: self.done_date,
            start_date: self.start_date,
            tags: clone_strings(&self.tags),
            source_file: self.source_file.clone(),
            line_number: self.line_number,
        }
    }
}

/// The checkbox that opens a task line.
pub open spec fn status_box(s: TaskStatus) -> Seq<char> {
    match s {
        TaskStatus::Todo => seq!['-', ' ', '[', ' ', ']'],
        TaskStatus::Done => seq!['-', ' ', '[', 'x', ']'],
    }
}

/// Words joined by single spaces.
pub open spec fn join_words(parts: Seq<Seq<char>>) -> Seq<char>
    decreases parts.len(),
{
    if parts.len() == 0 {
        seq![]
    } else if parts.len() == 1 {
        parts[0]
    } else {
        join_words(parts.drop_last()) + seq![' '] + parts.last()
    }
}

/// The word that writes an optional date after its marker.
pub open spec fn date_part(mark: char, d: Option<Date>) -> Seq<Seq<char>> {
    match d {
        Some(x) => seq![seq![mark, ' '] + date::iso_text(x)],
        None => seq![],
    }
}

/// The words of a task line, in the order the markdown writes them.
pub open spec fn markdown_parts(t: TaskView) -> Seq<Seq<char>> {
    seq![status_box(t.status), t.description] + priority_part(t.priority) + date_part(
        DUE_MARK,
        t.due_date,
    ) + date_part(SCHEDULED_MARK, t.scheduled_date) + date_part(START_MARK, t.start_date)
        + recurrence_part(t.recurrence) + date_part(DONE_MARK, t.done_date) + tag_parts(t.tags)
}

/// The markdown line of a task.
pub open spec fn markdown(t: TaskView) -> Seq<char> {
    join_words(markdown_parts(t))
}

/// Appends `word` as the next word of a line whose words so far are `parts`.
fn push_word(out: &mut Vec<char>, word: &Vec<char>, first: bool, Ghost(parts): Ghost<
    Seq<Seq<char>>,
>)
    requires
        old(out)@ == join_words(parts),
        first == (parts.len() == 0),
    ensures
        final(out)@ == join_words(parts.push(word@)),
{
    assert(parts.push(word@).drop_last() =~= parts);
    if !first {
        out.push(' ');
    }
    crate::text::append_chars(out, word);
    if first {
        assert(out@ =~= word@);
    } else {
        assert(out@ =~= join_words(parts) + seq![' '] + word@);
    }
}

/// The word that writes a date after its marker.
fn date_word(mark: char, d: Date) -> (r: Vec<char>)
    ensures
        r@ == seq![mark, ' '] + date::iso_text(d),
{
    let mut w: Vec<char> = Vec::new();
    w.push(mark);
    w.push(' ');
    let text = crate::text::chars_of(date::format_date(d, "%Y-%m-%d").as_str());
    crate::text::append_chars(&mut w, &text);
    assert(w@ =~= seq![mark, ' '] + date::iso_text(d));
    w
}

/// Appends the word of an optional date.
fn push_date_part(out: &mut Vec<char>, mark: char, d: Option<Date>, Ghost(parts): Ghost<
    Seq<Seq<char>>,
>)
    requires
        old(out)@ == join_words(parts),
        parts.len() >= 2,
    ensures
        final(out)@ == join_words(parts + date_part(mark, d)),
{
    if let Some(x) = d {
        let w = date_word(mark, x);
        push_word(out, &w, false, Ghost(parts));
        assert(parts + date_part(mark, d) =~= parts.push(w@));
    } else {
        assert(parts + date_part(mark, d) =~= parts);
    }
}

/// The word of the priority, if there is one.
pub open spec fn priority_part(p: Priority) -> Seq<Seq<char>> {
    if p == Priority::Unset {
        seq![]
    } else {
        seq![seq![priority_mark(p)]]
    }
}

/// The word of the recurrence, if there is one.
pub open spec fn recurrence_part(r: Option<Seq<char>>) -> Seq<Seq<char>> {
    match r {
        Some(x) => seq![seq![RECURRENCE_MARK, ' '] + x],
        None => seq![],
    }
}

/// The words of the tags.
pub open spec fn tag_parts(tags: Seq<Seq<char>>) -> Seq<Seq<char>> {
    tags.map_values(|g: Seq<char>| seq!['#'] + g)
}

fn push_priority_part(out: &mut Vec<char>, p: Priority, Ghost(parts): Ghost<Seq<Seq<char>>>)
    requires
        old(out)@ == join_words(parts),
        parts.len() >= 2,
    ensures
        final(out)@ == join_words(parts + priority_part(p)),
{
    if p != Priority::Unset {
        let w: Vec<char> = vec![
            match p {
                Priority::Highest => '\u{1F53A}',
                Priority::High => '\u{23EB}',
                Priority::Medium => '\u{1F53C}',
                Priority::Low => '\u{1F53D}',
                _ => '\u{23EC}',
            },
        ];
        assert(w@ =~= seq![priority_mark(p)]);
        push_word(out, &w, false, Ghost(parts));
        assert(parts + priority_part(p) =~= parts.push(w@));
    } else {
        assert(parts + priority_part(p) =~= parts);
    }
}

fn push_recurrence_part(out: &mut Vec<char>, r: &Option<String>, Ghost(parts): Ghost<
    Seq<Seq<char>>,
>)
    requires
        old(out)@ == join_words(parts),
        parts.len() >= 2,
    ensures
        final(out)@ == join_words(parts + recurrence_part(opt_text(*r))),
{
    if let Some(rec) = r {
        let mut w: Vec<char> = Vec::new();
        w.push(RECURRENCE_MARK);
        w.push(' ');
        let text = crate::text::chars_of(rec.as_str());
        crate::text::append_chars(&mut w, &text);
        assert(w@ =~= seq![RECURRENCE_MARK, ' '] + rec@);
        push_word(out, &w, false, Ghost(parts));
        assert(parts + recurrence_part(opt_text(*r)) =~= parts.push(w@));
    } else {
        assert(parts + recurrence_part(opt_text(*r)) =~= parts);
    }
}

fn push_tag_parts(out: &mut Vec<char>, tags: &Vec<String>, Ghost(parts): Ghost<Seq<Seq<char>>>)
    requires
        old(out)@ == join_words(parts),
        parts.len() >= 2,
    ensures
        final(out)@ == join_words(parts + tag_parts(texts(tags@))),
{
    let mut i: usize = 0;
    let ghost mut cur = parts;
    while i < tags.len()
        invariant
            i <= tags.len(),
            parts.len() >= 2,
            cur == parts + tag_parts(texts(tags@.subrange(0, i as int))),
            out@ == join_words(cur),
        decreases tags.len() - i,
    {
        let mut w: Vec<char> = Vec::new();
        w.push('#');
        let text = crate::text::chars_of(tags[i].as_str());
        crate::text::append_chars(&mut w, &text);
        assert(cur.len() > 0);
        push_word(out, &w, false, Ghost(cur));
        proof {
            cur = cur.push(w@);
            assert(cur =~= parts + tag_parts(texts(tags@.subrange(0, i + 1))));
        }
        i += 1;
    }
    assert(tags@.subrange(0, tags@.len() as int) =~= tags@);
}

impl Task {
    /// The markdown line of the task: checkbox, description, priority, the
    /// dates, recurrence and tags, separated by single spaces.
    pub fn to_markdown(&self) -> (r: String)
        ensures
            r@ == markdown(self@),
    {
        let ghost t = self@;
        let mut out: Vec<char> = Vec::new();
        let status: Vec<char> = match self.status {
            TaskStatus::Todo => vec!['-', ' ', '[', ' ', ']'],
            TaskStatus::Done => vec!['-', ' ', '[', 'x', ']'],
        };
        assert(status@ =~= status_box(self.status));
        let ghost e: Seq<Seq<char>> = seq![];
        push_word(&mut out, &status, true, Ghost(e));
        let desc = crate::text::chars_of(self.description.as_str());
        let ghost s1 = e.push(status@);
        push_word(&mut out, &desc, false, Ghost(s1));
        let ghost p0 = s1.push(desc@);
        assert(p0 =~= seq![status_box(t.status), t.description]);
        push_priority_part(&mut out, self.priority, Ghost(p0));
        let ghost p1 = p0 + priority_part(t.priority);
        push_date_part(&mut out, DUE_MARK, self.due_date, Ghost(p1));
        let ghost p2 = p1 + date_part(DUE_MARK, t.due_date);
        push_date_part(&mut out, SCHEDULED_MARK, self.scheduled_date, Ghost(p2));
        let ghost p3 = p2 + date_part(SCHEDULED_MARK, t.scheduled_date);
        push_date_part(&mut out, START_MARK, self.start_date, Ghost(p3));
        let ghost p4 = p3 + date_part(START_MARK, t.start_date);
        push_recurrence_part(&mut out, &self.recurrence, Ghost(p4));
        let ghost p5 = p4 + recurrence_part(t.recurrence);
        push_date_part(&mut out, DONE_MARK, self.done_date, Ghost(p5));
        let ghost p6 = p5 + date_part(DONE_MARK, t.done_date);
        push_tag_parts(&mut out, &self.tags, Ghost(p6));
        assert(p6 + tag_parts(t.tags) =~= markdown_parts(t));
        crate::text::string_of(&out)
    }
}

/// The content of a file with the task's line (its 1-based line number)
/// written anew: the line keeps its indentation and takes the task's
/// markdown; the lines are joined with newlines. An error if the file has
/// no such line.
pub open spec fn rewritten(t: TaskView, content: Seq<char>) -> Result<Seq<char>, Seq<char>> {
    let ls = crate::text::lines(content);
    let n = t.line_number;
    if n == 0 || n > ls.len() {
        Err("Invalid line number "@ + date::decimal(n))
    } else {
        Ok(
            crate::text::join_lines(
                ls.update(n - 1, crate::text::leading_ws(ls[n - 1]) + markdown(t)),
            ),
        )
    }
}

impl Task {
    /// The content of the task's file with the task's line written anew
    /// (see `rewritten`); reading and writing the file is the caller's.
    pub fn rewrite_line(&self, content: &str) -> (r: Result<String, String>)
        ensures
            match r {
                Ok(s) => rewritten(self@, content@) == Ok::<Seq<char>, Seq<char>>(s@),
                Err(e) => rewritten(self@, content@) == Err::<Seq<char>, Seq<char>>(e@),
            },
    {
        let chars = crate::text::chars_of(content);
        let ls = crate::text::lines_of(&chars);
        let ghost all = crate::text::lines(content@);
        let n = self.line_number;
        if n == 0 || n > ls.len() {
            let mut m = crate::text::chars_of("Invalid line number ");
            let digits = date::decimal_chars(n as u64);
            crate::text::append_chars(&mut m, &digits);
            return Err(crate::text::string_of(&m));
        }
        let mut out: Vec<String> = Vec::new();
        let mut i: usize = 0;
        while i < ls.len()
            invariant
                i <= ls.len(),
                1 <= n <= ls.len(),
                n == self@.line_number,
                ls@.len() == all.len(),
                forall|j: int| 0 <= j < ls@.len() ==> #[trigger] ls@[j]@ == all[j],
                crate::text::string_texts(out@) == all.update(
                    n - 1,
                    crate::text::leading_ws(all[n - 1]) + markdown(self@),
                ).subrange(0, i as int),
            decreases ls.len() - i,
        {
            let ghost before = crate::text::string_texts(out@);
            let ghost upd = all.update(
                n - 1,
                crate::text::leading_ws(all[n - 1]) + markdown(self@),
            );
            assert(ls@[i as int]@ == all[i as int]);
            if i == n - 1 {
                let mut line = crate::text::leading_ws_chars(&ls[i]);
                let md_text = self.to_markdown();
                let md = crate::text::chars_of(md_text.as_str());
                crate::text::append_chars(&mut line, &md);
                assert(line@ == upd[i as int]);
                out.push(crate::text::string_of(&line));
            } else {
                assert(ls@[i as int]@ == upd[i as int]);
                out.push(crate::text::string_of(&ls[i]));
            }
            assert(crate::text::string_texts(out@) =~= before.push(upd[i as int]));
            assert(upd.subrange(0, i + 1) =~= upd.subrange(0, i as int).push(upd[i as int]));
            i += 1;
        }
        let ghost upd = all.update(n - 1, crate::text::leading_ws(all[n - 1]) + markdown(self@));
        assert(upd.subrange(0, upd.len() as int) =~= upd);
        Ok(crate::text::join_strings(&out))
    }
}

/// Cycling the status flips it, and twice gives it back.
pub proof fn lemma_status_cycle(s: TaskStatus)
    ensures
        flip_status(s) != s,
        flip_status(flip_status(s)) == s,
{
}

/// Cycling the priority six times gives it back, passing every priority
/// once.
pub proof fn lemma_priority_cycle(p: Priority)
    ensures
        next_priority(
            next_priority(next_priority(next_priority(next_priority(next_priority(p))))),
        ) == p,
        forall|q: Priority|
            #![trigger rank(q)]
            q == p || q == next_priority(p) || q == next_priority(next_priority(p)) || q
                == next_priority(next_priority(next_priority(p))) || q == next_priority(
                next_priority(next_priority(next_priority(p))),
            ) || q == next_priority(next_priority(next_priority(next_priority(next_priority(p))))),
{
}

/// The emoji of a priority names that priority again; the unset priority
/// has no emoji.
pub proof fn lemma_emoji_roundtrip(p: Priority)
    ensures
        p != Priority::Unset ==> priority_of_text(priority_text(p)) == Some(p),
        p == Priority::Unset ==> priority_text(p).len() == 0 && priority_of_text(
            priority_text(p),
        ) is None,
{
}

} // verus!
