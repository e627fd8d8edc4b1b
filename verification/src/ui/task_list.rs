//! The texts of the task list: date labels, the wrapping of descriptions,
//! and the status bar. Drawing them is left to the program around the
//! library.
use super::{indices_valid, App, AppView};
use crate::task::date::{self, decimal, iso_text, month_day_text, Date};
use crate::task::{join_words, priority_text, Task, TaskStatus, TaskView, DUE_MARK};
use crate::text::{self, is_ws, string_texts, trim};
use vstd::prelude::*;
use vstd::utf8::{decode_utf8, encode_utf8, is_ascii_chars, valid_utf8};

verus! {

/// Below this width the list is compact.
pub const COMPACT_WIDTH: usize = 80;

/// From this width on the list shows each task's file on its line.
pub const WIDE_WIDTH: usize = 120;

/// The marker that the list shows before a scheduled date.
pub const SCHEDULED_LABEL: char = '\u{1F6EB}';

/// The label of a date after its marker: ` <mark>MM-DD` when compact,
/// ` <mark> YYYY-MM-DD` otherwise.
pub open spec fn date_label(mark: char, d: Date, width: usize) -> Seq<char> {
    if width < COMPACT_WIDTH {
        seq![' ', mark] + month_day_text(d)
    } else {
        seq![' ', mark, ' '] + iso_text(d)
    }
}

fn date_label_exec(mark: char, d: Date, width: usize) -> (r: String)
    ensures
        r@ == date_label(mark, d, width),
{
    let mut out: Vec<char> = Vec::new();
    out.push(' ');
    out.push(mark);
    if width < COMPACT_WIDTH {
        let t = date::format_date(d, "%m-%d");
        text::append_chars(&mut out, &text::chars_of(t.as_str()));
    } else {
        out.push(' ');
        let t = date::format_date(d, "%Y-%m-%d");
        text::append_chars(&mut out, &text::chars_of(t.as_str()));
    }
    text::string_of(&out)
}

/// The label of a due date.
pub fn format_due_date(d: Date, width: usize) -> (r: String)
    ensures
        r@ == date_label(DUE_MARK, d, width),
{
    date_label_exec(DUE_MARK, d, width)
}

/// The label of a scheduled date.
pub fn format_scheduled_date(d: Date, width: usize) -> (r: String)
    ensures
        r@ == date_label(SCHEDULED_LABEL, d, width),
{
    date_label_exec(SCHEDULED_LABEL, d, width)
}

/// The length of a text in UTF-8 bytes, as `str::len` gives it.
pub open spec fn blen(s: Seq<char>) -> nat {
    (encode_utf8(s).len() as usize) as nat
}

/// What `String::from_utf8_lossy` makes of bytes: their text, where each
/// run of bytes that is not UTF-8 becomes a replacement char.
pub uninterp spec fn lossy_text(b: Seq<u8>) -> Seq<char>;

/// Calls `String::from_utf8_lossy`; for valid UTF-8 the text is stated.
#[verifier::external_body]
fn lossy_string(b: &[u8]) -> (r: String)
    ensures
        r@ == lossy_text(b@),
        valid_utf8(b@) ==> r@ == decode_utf8(b@),
{
    String::from_utf8_lossy(b).into_owned()
}

/// The text of a piece of bytes as the wrap shows it: what the bytes
/// decode to where they are UTF-8, else what `String::from_utf8_lossy`
/// makes of them.
pub open spec fn chunk_text(b: Seq<u8>) -> Seq<char> {
    if valid_utf8(b) {
        decode_utf8(b)
    } else {
        lossy_text(b)
    }
}

/// The texts of the bytes cut into pieces of `m` bytes (the last may be
/// shorter).
pub open spec fn byte_chunks(b: Seq<u8>, m: nat) -> Seq<Seq<char>>
    decreases b.len(),
{
    if m == 0 || b.len() == 0 {
        seq![]
    } else if b.len() <= m {
        seq![chunk_text(b)]
    } else {
        seq![chunk_text(b.subrange(0, m as int))] + byte_chunks(b.subrange(m as int, b.len() as int), m)
    }
}

/// The words of a text, as `str::split_whitespace` yields them.
pub open spec fn words(s: Seq<char>) -> Seq<Seq<char>>
    decreases s.len(),
{
    if s.len() == 0 {
        seq![]
    } else {
        let w = words(s.drop_last());
        let c = s.last();
        if is_ws(c) {
            w
        } else if s.len() >= 2 && !is_ws(s[s.len() - 2]) {
            w.update(w.len() - 1, w.last().push(c))
        } else {
            w.push(seq![c])
        }
    }
}

/// The lines so far and the line being filled.
pub struct WrapState {
    pub lines: Seq<Seq<char>>,
    pub cur: Seq<char>,
}

/// A word that does not fit in a line on its own is cut into pieces of
/// `m` bytes, each a line of its own.
pub open spec fn place_word(lines: Seq<Seq<char>>, w: Seq<char>, m: nat) -> WrapState {
    if blen(w) > m {
        WrapState { lines: lines + byte_chunks(encode_utf8(w), m), cur: seq![] }
    } else {
        WrapState { lines, cur: w }
    }
}

/// One word of the wrap: it joins the current line after a space if the
/// line stays within `m` bytes, else it starts a new one.
pub open spec fn wrap_word(st: WrapState, w: Seq<char>, m: nat) -> WrapState {
    if st.cur.len() == 0 {
        place_word(st.lines, w, m)
    } else if blen(st.cur) + 1 + blen(w) > m {
        place_word(st.lines.push(st.cur), w, m)
    } else {
        WrapState { lines: st.lines, cur: st.cur + seq![' '] + w }
    }
}

pub open spec fn wrap_words(st: WrapState, ws: Seq<Seq<char>>, m: nat) -> WrapState
    decreases ws.len(),
{
    if ws.len() == 0 {
        st
    } else {
        wrap_word(wrap_words(st, ws.drop_last(), m), ws.last(), m)
    }
}

/// The lines of a description wrapped to `m` bytes: the text as it is if it
/// fits (or `m` is 0), else its words filled into lines.
pub open spec fn wrap_spec(t: Seq<char>, m: nat) -> Seq<Seq<char>> {
    if m == 0 || blen(t) <= m {
        seq![t]
    } else {
        let st = wrap_words(WrapState { lines: seq![], cur: seq![] }, words(t), m);
        if st.cur.len() > 0 {
            st.lines.push(st.cur)
        } else {
            st.lines
        }
    }
}

proof fn lemma_encode_add(a: Seq<char>, b: Seq<char>)
    ensures
        encode_utf8(a + b) == encode_utf8(a) + encode_utf8(b),
    decreases a.len(),
{
    if a.len() == 0 {
        assert(a + b =~= b);
        assert(encode_utf8(a) + encode_utf8(b) =~= encode_utf8(b));
    } else {
        lemma_encode_add(a.drop_first(), b);
        assert((a + b)[0] == a[0]);
        assert((a + b).drop_first() =~= a.drop_first() + b);
        assert(encode_utf8(a + b) =~= encode_utf8(a) + encode_utf8(b));
    }
}

/// A line of the wrap: non-empty, neither starting nor ending with a
/// blank, at most `m` bytes long.
pub open spec fn line_fits(l: Seq<char>, m: nat) -> bool {
    l.len() > 0 && !is_ws(l[0]) && !is_ws(l.last()) && encode_utf8(l).len() <= m
}

/// Each line of `ls` fits (see `line_fits`).
pub open spec fn lines_fit(ls: Seq<Seq<char>>, m: nat) -> bool {
    forall|i: int| 0 <= i < ls.len() ==> line_fits(#[trigger] ls[i], m)
}

/// Every word is at most `m` bytes long.
pub open spec fn words_fit(ws: Seq<Seq<char>>, m: nat) -> bool {
    forall|k: int| 0 <= k < ws.len() ==> encode_utf8(#[trigger] ws[k]).len() <= m
}

proof fn lemma_wrap_fitting(ws: Seq<Seq<char>>, m: nat)
    requires
        0 < m <= usize::MAX,
        words_fit(ws, m),
        forall|k: int| 0 <= k < ws.len() ==> solid(#[trigger] ws[k]),
    ensures
        ({
            let st = wrap_words(WrapState { lines: seq![], cur: seq![] }, ws, m);
            &&& lines_fit(st.lines, m)
            &&& ws.len() == 0 ==> st.lines.len() == 0 && st.cur.len() == 0
            &&& ws.len() > 0 ==> line_fits(st.cur, m) && join_words(
                st.lines.push(st.cur),
            ) == join_words(ws)
        }),
    decreases ws.len(),
{
    if ws.len() > 0 {
        let prev = ws.drop_last();
        assert(words_fit(prev, m)) by {
            assert forall|k: int| 0 <= k < prev.len() implies encode_utf8(#[trigger] prev[k]).len()
                <= m by {
                assert(prev[k] == ws[k]);
            }
        }
        assert forall|k: int| 0 <= k < prev.len() implies solid(#[trigger] prev[k]) by {
            assert(prev[k] == ws[k]);
        }
        lemma_wrap_fitting(prev, m);
        let st = wrap_words(WrapState { lines: seq![], cur: seq![] }, prev, m);
        let w = ws.last();
        assert(encode_utf8(w).len() <= m);
        assert(solid(w));
        assert(!is_ws(w[0]) && !is_ws(w.last()));
        assert(blen(w) == encode_utf8(w).len());
        assert(blen(st.cur) == encode_utf8(st.cur).len());
        let st2 = wrap_words(WrapState { lines: seq![], cur: seq![] }, ws, m);
        assert(st2 == wrap_word(st, w, m));
        if st.cur.len() == 0 {
            assert(prev.len() == 0);
            assert(ws =~= seq![w]);
            assert(st2.lines =~= st.lines);
            assert(st2.lines.push(st2.cur) =~= seq![w]);
        } else if blen(st.cur) + 1 + blen(w) > m {
            assert(st2.lines == st.lines.push(st.cur));
            assert(st2.cur == w);
            let p = st.lines.push(st.cur).push(w);
            assert(p.drop_last() =~= st.lines.push(st.cur));
            assert(join_words(p) == join_words(st.lines.push(st.cur)) + seq![' '] + w);
            assert(ws.len() >= 2);
            assert(join_words(ws) == join_words(prev) + seq![' '] + w);
        } else {
            let c2 = st.cur + seq![' '] + w;
            assert(st2.cur == c2);
            assert(c2[0] == st.cur[0] && c2.last() == w.last());
            lemma_encode_add(st.cur, seq![' ']);
            lemma_encode_add(st.cur + seq![' '], w);
            assert(encode_utf8(seq![' ']).len() == 1) by {
                vstd::utf8::is_ascii_chars_encode_utf8(seq![' ']);
            }
            assert(ws.len() >= 2);
            assert(join_words(ws) == join_words(prev) + seq![' '] + w);
            let q = st.lines.push(c2);
            assert(q.drop_last() =~= st.lines);
            assert(st.lines.push(st.cur).drop_last() =~= st.lines);
            if st.lines.len() == 0 {
                assert(q =~= seq![c2]);
                assert(st.lines.push(st.cur) =~= seq![st.cur]);
            } else {
                assert(join_words(q) == join_words(st.lines) + seq![' '] + c2);
                assert(join_words(st.lines.push(st.cur)) == join_words(st.lines) + seq![' ']
                    + st.cur);
                assert(join_words(q) =~= join_words(st.lines.push(st.cur)) + seq![' '] + w);
            }
        }
    }
}

/// Where every word fits in `m` bytes, wrapping a text that does not fit
/// keeps its words in order (one space between words on a line) and gives
/// non-empty lines of at most `m` bytes each, none starting or ending with
/// a blank.
pub proof fn lemma_wrap_keeps_words(t: Seq<char>, m: nat)
    requires
        0 < m <= usize::MAX,
        blen(t) > m,
        words_fit(words(t), m),
    ensures
        lines_fit(wrap_spec(t, m), m),
        join_words(wrap_spec(t, m)) == join_words(words(t)),
{
    let ws = words(t);
    lemma_words_solid(t);
    lemma_wrap_fitting(ws, m);
    let st = wrap_words(WrapState { lines: seq![], cur: seq![] }, ws, m);
    if st.cur.len() > 0 {
        assert(lines_fit(st.lines.push(st.cur), m)) by {
            let ls = st.lines.push(st.cur);
            assert forall|i: int| 0 <= i < ls.len() implies line_fits(#[trigger] ls[i], m) by {
                if i < st.lines.len() {
                    assert(ls[i] == st.lines[i]);
                }
            }
        }
    } else {
        assert(ws.len() == 0);
        assert(st.lines =~= Seq::<Seq<char>>::empty());
    }
}

proof fn lemma_words_last(s: Seq<char>)
    requires
        s.len() > 0,
        !is_ws(s.last()),
    ensures
        words(s).len() > 0,
    decreases s.len(),
{
    if s.len() >= 2 && !is_ws(s[s.len() - 2]) {
        assert(s.drop_last().last() == s[s.len() - 2]);
        lemma_words_last(s.drop_last());
    }
}

/// A word of `split_whitespace`: one or more chars, none of them blank.
pub open spec fn solid(w: Seq<char>) -> bool {
    w.len() > 0 && forall|j: int| 0 <= j < w.len() ==> !is_ws(#[trigger] w[j])
}

/// The words of a text are solid.
proof fn lemma_words_solid(s: Seq<char>)
    ensures
        forall|k: int| 0 <= k < words(s).len() ==> solid(#[trigger] words(s)[k]),
    decreases s.len(),
{
    if s.len() > 0 {
        let w = words(s.drop_last());
        lemma_words_solid(s.drop_last());
        let c = s.last();
        if is_ws(c) {
        } else if s.len() >= 2 && !is_ws(s[s.len() - 2]) {
            assert(s.drop_last().last() == s[s.len() - 2]);
            lemma_words_last(s.drop_last());
            let u = w.last().push(c);
            assert(solid(w.last()));
            assert(solid(u)) by {
                assert forall|j: int| 0 <= j < u.len() implies !is_ws(#[trigger] u[j]) by {
                    if j < w.last().len() {
                        assert(u[j] == w.last()[j]);
                    }
                }
            }
            assert forall|k: int| 0 <= k < words(s).len() implies solid(#[trigger] words(s)[k]) by {
                if k < w.len() - 1 {
                    assert(words(s)[k] == w[k]);
                }
            }
        } else {
            assert(solid(seq![c]));
            assert forall|k: int| 0 <= k < words(s).len() implies solid(#[trigger] words(s)[k]) by {
                if k < w.len() {
                    assert(words(s)[k] == w[k]);
                }
            }
        }
    }
}

/// The non-blank chars of a text, in order.
pub open spec fn bare(s: Seq<char>) -> Seq<char>
    decreases s.len(),
{
    if s.len() == 0 {
        seq![]
    } else if is_ws(s.last()) {
        bare(s.drop_last())
    } else {
        bare(s.drop_last()).push(s.last())
    }
}

/// Lines run together, one after the other.
pub open spec fn glued(ls: Seq<Seq<char>>) -> Seq<char>
    decreases ls.len(),
{
    if ls.len() == 0 {
        seq![]
    } else {
        glued(ls.drop_last()) + ls.last()
    }
}

/// A text cut into pieces of `m` chars (the last may be shorter).
pub open spec fn char_chunks(w: Seq<char>, m: nat) -> Seq<Seq<char>>
    decreases w.len(),
{
    if m == 0 || w.len() == 0 {
        seq![]
    } else if w.len() <= m {
        seq![w]
    } else {
        seq![w.take(m as int)] + char_chunks(w.skip(m as int), m)
    }
}

proof fn lemma_bare_add(a: Seq<char>, b: Seq<char>)
    ensures
        bare(a + b) == bare(a) + bare(b),
    decreases b.len(),
{
    if b.len() == 0 {
        assert(a + b =~= a);
        assert(bare(a) + bare(b) =~= bare(a));
    } else {
        lemma_bare_add(a, b.drop_last());
        assert((a + b).drop_last() =~= a + b.drop_last());
        assert((a + b).last() == b.last());
        if !is_ws(b.last()) {
            assert(bare(a + b) =~= bare(a) + bare(b));
        }
    }
}

proof fn lemma_bare_blank_free(w: Seq<char>)
    requires
        forall|j: int| 0 <= j < w.len() ==> !is_ws(#[trigger] w[j]),
    ensures
        bare(w) == w,
    decreases w.len(),
{
    if w.len() > 0 {
        let p = w.drop_last();
        assert forall|j: int| 0 <= j < p.len() implies !is_ws(#[trigger] p[j]) by {
            assert(p[j] == w[j]);
        }
        lemma_bare_blank_free(p);
        assert(!is_ws(w[w.len() - 1]));
        assert(p.push(w.last()) =~= w);
    }
}

proof fn lemma_glued_add(a: Seq<Seq<char>>, b: Seq<Seq<char>>)
    ensures
        glued(a + b) == glued(a) + glued(b),
    decreases b.len(),
{
    if b.len() == 0 {
        assert(a + b =~= a);
        assert(glued(a) + glued(b) =~= glued(a));
    } else {
        lemma_glued_add(a, b.drop_last());
        assert((a + b).drop_last() =~= a + b.drop_last());
        assert((a + b).last() == b.last());
        assert(glued(a + b) =~= glued(a) + glued(b));
    }
}

/// The non-blank chars of a text are its words run together.
proof fn lemma_bare_words(s: Seq<char>)
    ensures
        bare(s) == glued(words(s)),
    decreases s.len(),
{
    if s.len() > 0 {
        let p = s.drop_last();
        let w = words(p);
        let c = s.last();
        lemma_bare_words(p);
        if is_ws(c) {
        } else if s.len() >= 2 && !is_ws(s[s.len() - 2]) {
            assert(p.last() == s[s.len() - 2]);
            lemma_words_last(p);
            let u = w.update(w.len() - 1, w.last().push(c));
            assert(u.drop_last() =~= w.drop_last());
            assert(glued(u) =~= glued(w).push(c));
        } else {
            let u = w.push(seq![c]);
            assert(u.drop_last() =~= w);
            assert(glued(u) =~= glued(w).push(c));
        }
    }
}

/// The words of an ASCII text are ASCII, and none is longer than the text.
proof fn lemma_words_ascii(s: Seq<char>)
    requires
        is_ascii_chars(s),
    ensures
        forall|k: int|
            0 <= k < words(s).len() ==> is_ascii_chars(#[trigger] words(s)[k]) && words(s)[k].len()
                <= s.len(),
    decreases s.len(),
{
    if s.len() > 0 {
        let p = s.drop_last();
        let w = words(p);
        let c = s.last();
        assert(is_ascii_chars(p)) by {
            assert forall|i: int| 0 <= i < p.len() implies '\0' <= #[trigger] p[i] <= '\u{7f}' by {
                assert(p[i] == s[i]);
            }
        }
        assert('\0' <= s[s.len() - 1] <= '\u{7f}');
        lemma_words_ascii(p);
        if is_ws(c) {
        } else if s.len() >= 2 && !is_ws(s[s.len() - 2]) {
            assert(p.last() == s[s.len() - 2]);
            lemma_words_last(p);
            let u = w.last().push(c);
            assert(is_ascii_chars(w.last()));
            assert(is_ascii_chars(u)) by {
                assert forall|j: int| 0 <= j < u.len() implies '\0' <= #[trigger] u[j] <= '\u{7f}' by {
                    if j < w.last().len() {
                        assert(u[j] == w.last()[j]);
                    }
                }
            }
            assert forall|k: int| 0 <= k < words(s).len() implies is_ascii_chars(
                #[trigger] words(s)[k],
            ) && words(s)[k].len() <= s.len() by {
                if k < w.len() - 1 {
                    assert(words(s)[k] == w[k]);
                }
            }
        } else {
            assert(is_ascii_chars(seq![c]));
            assert forall|k: int| 0 <= k < words(s).len() implies is_ascii_chars(
                #[trigger] words(s)[k],
            ) && words(s)[k].len() <= s.len() by {
                if k < w.len() {
                    assert(words(s)[k] == w[k]);
                }
            }
        }
    }
}

/// The pieces of `m` bytes of an ASCII word are its pieces of `m` chars;
/// they run together to the word, and each is a line that fits.
proof fn lemma_ascii_chunks(w: Seq<char>, m: nat)
    requires
        m > 0,
        is_ascii_chars(w),
        forall|j: int| 0 <= j < w.len() ==> !is_ws(#[trigger] w[j]),
    ensures
        byte_chunks(encode_utf8(w), m) == char_chunks(w, m),
        glued(char_chunks(w, m)) == w,
        lines_fit(char_chunks(w, m), m),
    decreases w.len(),
{
    vstd::utf8::is_ascii_chars_encode_utf8(w);
    vstd::utf8::encode_utf8_valid_utf8(w);
    vstd::utf8::encode_utf8_decode_utf8(w);
    let e = encode_utf8(w);
    if w.len() == 0 {
        assert(glued(char_chunks(w, m)) =~= w);
    } else if w.len() <= m {
        assert(seq![w].drop_last() =~= Seq::<Seq<char>>::empty());
        assert(glued(Seq::<Seq<char>>::empty()) =~= Seq::<char>::empty());
        assert(glued(seq![w]) =~= w);
        assert(!is_ws(w[0]) && !is_ws(w[w.len() - 1]));
        assert(line_fits(seq![w][0], m));
    } else {
        let a = w.take(m as int);
        let b = w.skip(m as int);
        assert(w =~= a + b);
        assert forall|j: int| 0 <= j < a.len() implies !is_ws(#[trigger] a[j]) && '\0' <= a[j]
            <= '\u{7f}' by {
            assert(a[j] == w[j]);
        }
        assert forall|j: int| 0 <= j < b.len() implies !is_ws(#[trigger] b[j]) && '\0' <= b[j]
            <= '\u{7f}' by {
            assert(b[j] == w[j + m]);
        }
        lemma_encode_add(a, b);
        vstd::utf8::is_ascii_chars_encode_utf8(a);
        vstd::utf8::encode_utf8_valid_utf8(a);
        vstd::utf8::encode_utf8_decode_utf8(a);
        assert(e.subrange(0, m as int) =~= encode_utf8(a));
        assert(e.subrange(m as int, e.len() as int) =~= encode_utf8(b));
        lemma_ascii_chunks(b, m);
        let cs = char_chunks(w, m);
        assert(cs == seq![a] + char_chunks(b, m));
        lemma_glued_add(seq![a], char_chunks(b, m));
        assert(seq![a].drop_last() =~= Seq::<Seq<char>>::empty());
        assert(glued(Seq::<Seq<char>>::empty()) =~= Seq::<char>::empty());
        assert(glued(seq![a]) =~= a);
        assert(!is_ws(a[0]) && !is_ws(a[a.len() - 1]));
        assert forall|i: int| 0 <= i < cs.len() implies line_fits(#[trigger] cs[i], m) by {
            if i > 0 {
                assert(cs[i] == char_chunks(b, m)[i - 1]);
            }
        }
    }
}

/// A word placed on a fresh line: where the lines so far fit and hold the
/// non-blank chars `g`, they still fit and hold `g` followed by the word.
proof fn lemma_place_bare(lines: Seq<Seq<char>>, w: Seq<char>, m: nat, g: Seq<char>)
    requires
        0 < m <= usize::MAX,
        lines_fit(lines, m),
        bare(glued(lines)) == g,
        solid(w),
        is_ascii_chars(w),
        w.len() <= usize::MAX,
    ensures
        ({
            let st = place_word(lines, w, m);
            &&& lines_fit(st.lines, m)
            &&& st.cur.len() > 0 ==> line_fits(st.cur, m)
            &&& bare(glued(st.lines) + st.cur) == g + w
        }),
{
    vstd::utf8::is_ascii_chars_encode_utf8(w);
    lemma_bare_blank_free(w);
    let st = place_word(lines, w, m);
    assert(blen(w) == w.len());
    if blen(w) > m {
        lemma_ascii_chunks(w, m);
        let cs = char_chunks(w, m);
        lemma_glued_add(lines, cs);
        lemma_bare_add(glued(lines), w);
        assert(st.lines == lines + cs);
        assert(glued(st.lines) + st.cur =~= glued(lines) + w);
        assert forall|i: int| 0 <= i < st.lines.len() implies line_fits(#[trigger] st.lines[i], m) by {
            if i < lines.len() {
                assert(st.lines[i] == lines[i]);
            } else {
                assert(st.lines[i] == cs[i - lines.len()]);
            }
        }
    } else {
        lemma_bare_add(glued(lines), w);
        assert(!is_ws(w[0]) && !is_ws(w[w.len() - 1]));
    }
}

/// The wrap of ASCII words, long ones too: the lines fit, and the lines
/// with the one being filled hold the words' chars in order.
proof fn lemma_wrap_bare(ws: Seq<Seq<char>>, m: nat)
    requires
        0 < m <= usize::MAX,
        forall|k: int|
            0 <= k < ws.len() ==> solid(#[trigger] ws[k]) && is_ascii_chars(ws[k]) && ws[k].len()
                <= usize::MAX,
    ensures
        ({
            let st = wrap_words(WrapState { lines: seq![], cur: seq![] }, ws, m);
            &&& lines_fit(st.lines, m)
            &&& st.cur.len() > 0 ==> line_fits(st.cur, m)
            &&& bare(glued(st.lines) + st.cur) == glued(ws)
        }),
    decreases ws.len(),
{
    let e = WrapState { lines: seq![], cur: seq![] };
    if ws.len() == 0 {
        assert(glued(e.lines) + e.cur =~= Seq::<char>::empty());
    } else {
        let prev = ws.drop_last();
        assert forall|k: int| 0 <= k < prev.len() implies solid(#[trigger] prev[k])
            && is_ascii_chars(prev[k]) && prev[k].len() <= usize::MAX by {
            assert(prev[k] == ws[k]);
        }
        lemma_wrap_bare(prev, m);
        let st = wrap_words(e, prev, m);
        let w = ws.last();
        assert(solid(w) && is_ascii_chars(w) && w.len() <= usize::MAX);
        lemma_bare_blank_free(w);
        let st2 = wrap_words(e, ws, m);
        assert(st2 == wrap_word(st, w, m));
        assert(glued(ws) == glued(prev) + w);
        if st.cur.len() == 0 {
            assert(glued(st.lines) + st.cur =~= glued(st.lines));
            lemma_place_bare(st.lines, w, m, glued(prev));
        } else {
            assert(blen(st.cur) == encode_utf8(st.cur).len());
            assert(blen(w) == encode_utf8(w).len()) by {
                vstd::utf8::is_ascii_chars_encode_utf8(w);
            }
            if blen(st.cur) + 1 + blen(w) > m {
                let ls = st.lines.push(st.cur);
                assert(ls.drop_last() =~= st.lines);
                assert(glued(ls) == glued(st.lines) + st.cur);
                assert forall|i: int| 0 <= i < ls.len() implies line_fits(#[trigger] ls[i], m) by {
                    if i < st.lines.len() {
                        assert(ls[i] == st.lines[i]);
                    }
                }
                lemma_place_bare(ls, w, m, glued(prev));
            } else {
                let c2 = st.cur + seq![' '] + w;
                assert(st2.cur == c2);
                assert(c2[0] == st.cur[0] && c2.last() == w.last());
                lemma_encode_add(st.cur, seq![' ']);
                lemma_encode_add(st.cur + seq![' '], w);
                assert(encode_utf8(seq![' ']).len() == 1) by {
                    vstd::utf8::is_ascii_chars_encode_utf8(seq![' ']);
                }
                assert(bare(seq![' ']) =~= Seq::<char>::empty()) by {
                    assert(seq![' '].drop_last() =~= Seq::<char>::empty());
                    assert(bare(Seq::<char>::empty()) =~= Seq::<char>::empty());
                    assert(is_ws(seq![' '].last()));
                }
                lemma_bare_add(glued(st.lines) + st.cur, seq![' ']);
                lemma_bare_add(glued(st.lines) + st.cur + seq![' '], w);
                assert(glued(st.lines) + c2 =~= glued(st.lines) + st.cur + seq![' '] + w);
                assert(bare(glued(st.lines) + st.cur + seq![' ']) =~= bare(glued(st.lines)
                    + st.cur));
            }
        }
    }
}

/// Wrapping an ASCII text that does not fit in `m` bytes and has a
/// non-blank char gives at least one line; each line is non-empty, at most
/// `m` bytes long and neither starts nor ends with a blank; and the lines
/// run together hold exactly the text's non-blank chars, in order. A word
/// longer than a line is cut into pieces of `m` chars, each a line.
pub proof fn lemma_wrap_ascii(t: Seq<char>, m: nat)
    requires
        0 < m <= usize::MAX,
        t.len() <= usize::MAX,
        is_ascii_chars(t),
        blen(t) > m,
        bare(t).len() > 0,
    ensures
        wrap_spec(t, m).len() > 0,
        lines_fit(wrap_spec(t, m), m),
        bare(glued(wrap_spec(t, m))) == bare(t),
{
    let ws = words(t);
    lemma_words_solid(t);
    lemma_words_ascii(t);
    lemma_bare_words(t);
    lemma_wrap_bare(ws, m);
    let st = wrap_words(WrapState { lines: seq![], cur: seq![] }, ws, m);
    if st.cur.len() > 0 {
        let ls = st.lines.push(st.cur);
        assert(ls.drop_last() =~= st.lines);
        assert(glued(ls) == glued(st.lines) + st.cur);
        assert forall|i: int| 0 <= i < ls.len() implies line_fits(#[trigger] ls[i], m) by {
            if i < st.lines.len() {
                assert(ls[i] == st.lines[i]);
            }
        }
    } else {
        assert(glued(st.lines) + st.cur =~= glued(st.lines));
        if st.lines.len() == 0 {
            assert(glued(st.lines) =~= Seq::<char>::empty());
        }
    }
}

/// The words of a text (`split_whitespace`).
pub fn split_words(s: &Vec<char>) -> (r: Vec<Vec<char>>)
    ensures
        text::char_texts(r@) == words(s@),
{
    let mut done: Vec<Vec<char>> = Vec::new();
    let mut cur: Vec<char> = Vec::new();
    let mut i: usize = 0;
    assert(s@.subrange(0, 0) =~= seq![]);
    assert(text::char_texts(done@) =~= seq![]);
    while i < s.len()
        invariant
            i <= s.len(),
            words(s@.subrange(0, i as int)) == if cur@.len() > 0 {
                text::char_texts(done@).push(cur@)
            } else {
                text::char_texts(done@)
            },
            cur@.len() > 0 <==> (i > 0 && !is_ws(s@[i - 1])),
        decreases s.len() - i,
    {
        let c = s[i];
        let ghost pre = s@.subrange(0, i + 1);
        let ghost d0 = text::char_texts(done@);
        let ghost c0 = cur@;
        assert(pre.drop_last() =~= s@.subrange(0, i as int));
        assert(pre.last() == c);
        if i > 0 {
            assert(pre[pre.len() - 2] == s@[i - 1]);
        }
        if text::is_whitespace(c) {
            if cur.len() > 0 {
                done.push(cur);
                cur = Vec::new();
                assert(text::char_texts(done@) =~= d0.push(c0));
            }
        } else {
            cur.push(c);
            proof {
                if c0.len() > 0 {
                    lemma_words_last(s@.subrange(0, i as int));
                    assert(d0.push(c0).update(d0.len() as int, c0.push(c)) =~= d0.push(cur@));
                } else {
                    assert(cur@ =~= seq![c]);
                    assert(d0.push(seq![c]) =~= d0.push(cur@));
                }
            }
        }
        i += 1;
    }
    assert(s@.subrange(0, s@.len() as int) =~= s@);
    if cur.len() > 0 {
        let ghost d0 = text::char_texts(done@);
        let ghost c0 = cur@;
        done.push(cur);
        assert(text::char_texts(done@) =~= d0.push(c0));
    }
    done
}

/// Appends the pieces of `m` bytes of a word's bytes.
fn push_chunks(out: &mut Vec<String>, b: &[u8], m: usize)
    requires
        m > 0,
    ensures
        string_texts(final(out)@) == string_texts(old(out)@) + byte_chunks(b@, m as nat),
{
    let mut start: usize = 0;
    assert(b@.subrange(0, b@.len() as int) =~= b@);
    assert(string_texts(out@) + byte_chunks(b@, m as nat) =~= string_texts(old(out)@)
        + byte_chunks(b@, m as nat));
    while start < b.len()
        invariant
            m > 0,
            start <= b.len(),
            string_texts(out@) + byte_chunks(b@.subrange(start as int, b@.len() as int), m as nat)
                == string_texts(old(out)@) + byte_chunks(b@, m as nat),
        decreases b.len() - start,
    {
        let rest_len = b.len() - start;
        let end = if rest_len <= m {
            b.len()
        } else {
            start + m
        };
        let mut piece: Vec<u8> = Vec::new();
        let mut k = start;
        while k < end
            invariant
                start <= k <= end <= b.len(),
                piece@ == b@.subrange(start as int, k as int),
            decreases end - k,
        {
            piece.push(b[k]);
            k += 1;
            assert(piece@ =~= b@.subrange(start as int, k as int));
        }
        let ghost before = string_texts(out@);
        let ghost rest = b@.subrange(start as int, b@.len() as int);
        let sp = lossy_string(piece.as_slice());
        out.push(sp);
        if rest_len <= m {
            assert(piece@ =~= rest);
            assert(byte_chunks(rest, m as nat) == seq![chunk_text(rest)]);
            assert(b@.subrange(end as int, b@.len() as int) =~= seq![]);
        } else {
            assert(piece@ =~= rest.subrange(0, m as int));
            assert(rest.subrange(m as int, rest.len() as int) =~= b@.subrange(
                end as int,
                b@.len() as int,
            ));
        }
        assert(sp@ == chunk_text(piece@));
        assert(string_texts(out@) =~= before.push(chunk_text(piece@)));
        start = end;
    }
}

/// The state of the wrap in executable values.
fn place_word_exec(lines: &mut Vec<String>, cur: &mut Vec<char>, w: &Vec<char>, m: usize)
    requires
        m > 0,
    ensures
        (WrapState { lines: string_texts(final(lines)@), cur: final(cur)@ }) == place_word(
            string_texts(old(lines)@),
            w@,
            m as nat,
        ),
{
    let ws = text::string_of(w);
    if ws.as_str().len() > m {
        push_chunks(lines, ws.as_str().as_bytes(), m);
        *cur = Vec::new();
    } else {
        *cur = text::copy_range(w, 0, w.len());
        assert(w@.subrange(0, w@.len() as int) =~= w@);
    }
}

fn byte_len(v: &Vec<char>) -> (r: usize)
    ensures
        r == blen(v@),
{
    let s = text::string_of(v);
    s.as_str().len()
}

/// Wraps a description into lines of at most `max_width` bytes where its
/// words allow (see `wrap_spec`).
pub fn wrap_text(t: &str, max_width: usize) -> (r: Vec<String>)
    ensures
        string_texts(r@) == wrap_spec(t@, max_width as nat),
{
    if max_width == 0 || t.len() <= max_width {
        let v = vec![t.to_owned()];
        assert(string_texts(v@) =~= seq![t@]);
        return v;
    }
    let chars = text::chars_of(t);
    let ws = split_words(&chars);
    let ghost wv = text::char_texts(ws@);
    let mut lines: Vec<String> = Vec::new();
    let mut cur: Vec<char> = Vec::new();
    let mut i: usize = 0;
    assert(wv.subrange(0, 0) =~= seq![]);
    assert(string_texts(lines@) =~= seq![]);
    while i < ws.len()
        invariant
            i <= ws.len(),
            max_width > 0,
            wv == text::char_texts(ws@),
            (WrapState { lines: string_texts(lines@), cur: cur@ }) == wrap_words(
                WrapState { lines: seq![], cur: seq![] },
                wv.subrange(0, i as int),
                max_width as nat,
            ),
        decreases ws.len() - i,
    {
        let w = &ws[i];
        assert(wv[i as int] == w@);
        let ghost pre = wv.subrange(0, i + 1);
        assert(pre.drop_last() =~= wv.subrange(0, i as int));
        assert(pre.last() == w@);
        let ghost st0 = WrapState { lines: string_texts(lines@), cur: cur@ };
        if cur.len() == 0 {
            assert(cur@ =~= seq![]);
            place_word_exec(&mut lines, &mut cur, w, max_width);
        } else {
            let cl = byte_len(&cur);
            let wl = byte_len(w);
            if (cl as u128) + 1 + (wl as u128) > (max_width as u128) {
                let line = text::string_of(&cur);
                lines.push(line);
                assert(string_texts(lines@) =~= st0.lines.push(st0.cur));
                place_word_exec(&mut lines, &mut cur, w, max_width);
            } else {
                cur.push(' ');
                text::append_chars(&mut cur, w);
                assert(cur@ =~= st0.cur + seq![' '] + w@);
            }
        }
        assert((WrapState { lines: string_texts(lines@), cur: cur@ }) == wrap_word(
            st0,
            w@,
            max_width as nat,
        ));
        i += 1;
    }
    assert(wv.subrange(0, wv.len() as int) =~= wv);
    if cur.len() > 0 {
        let ghost l0 = string_texts(lines@);
        lines.push(text::string_of(&cur));
        assert(string_texts(lines@) =~= l0.push(cur@));
    }
    lines
}

/// The number of shown tasks that are done.
pub open spec fn done_count(ts: Seq<TaskView>, idx: Seq<usize>) -> nat
    decreases idx.len(),
{
    if idx.len() == 0 {
        0
    } else {
        done_count(ts, idx.drop_last()) + if ts[idx.last() as int].status == TaskStatus::Done {
            1nat
        } else {
            0nat
        }
    }
}

proof fn lemma_done_count_le(ts: Seq<TaskView>, idx: Seq<usize>)
    ensures
        done_count(ts, idx) <= idx.len(),
    decreases idx.len(),
{
    if idx.len() > 0 {
        lemma_done_count_le(ts, idx.drop_last());
    }
}

/// The part of the status bar that shows an active filter (one that is
/// not blank).
pub open spec fn filter_part(filter: Seq<char>) -> Seq<char> {
    if trim(filter).len() > 0 {
        " | filter: \""@ + filter + "\""@
    } else {
        seq![]
    }
}

/// The status bar: the status message if there is one, else the count of
/// shown tasks (done and open), the view's name and the active filter;
/// then the key hints.
pub open spec fn status_bar(a: AppView) -> Seq<char> {
    let total = a.filtered_indices.len();
    let done = done_count(a.tasks, a.filtered_indices);
    match a.status_message {
        Some(m) => m + " | q:quit / /:filter / ?:help"@,
        None => decimal(total) + " tasks ("@ + decimal(done) + " done, "@ + decimal(
            (total - done) as nat,
        ) + " open) | "@ + a.current_view.name + filter_part(a.filter_text)
            + " | q:quit / /:filter / ?:help"@,
    }
}

fn push_str(out: &mut Vec<char>, s: &str)
    ensures
        final(out)@ == old(out)@ + s@,
{
    text::append_chars(out, &text::chars_of(s));
}

/// The text of the status bar (see `status_bar`).
pub fn status_bar_text(app: &App) -> (r: String)
    requires
        indices_valid(app@),
    ensures
        r@ == status_bar(app@),
{
    let mut out: Vec<char> = Vec::new();
    match &app.status_message {
        Some(m) => {
            push_str(&mut out, m.as_str());
            push_str(&mut out, " | q:quit / /:filter / ?:help");
        },
        None => {
            let ghost ts = app@.tasks;
            let ghost idx = app@.filtered_indices;
            let total = app.filtered_indices.len();
            let mut done: usize = 0;
            let mut k: usize = 0;
            assert(idx.subrange(0, 0) =~= seq![]);
            while k < total
                invariant
                    k <= total,
                    total == idx.len(),
                    ts == app@.tasks,
                    idx == app@.filtered_indices,
                    indices_valid(app@),
                    done as nat == done_count(ts, idx.subrange(0, k as int)),
                    done <= k,
                decreases total - k,
            {
                let i = app.filtered_indices[k];
                assert(ts[i as int] == app.tasks@[i as int]@);
                let ghost pre = idx.subrange(0, k + 1);
                assert(pre.drop_last() =~= idx.subrange(0, k as int));
                assert(pre.last() == i);
                if app.tasks[i].status == TaskStatus::Done {
                    done += 1;
                }
                k += 1;
            }
            assert(idx.subrange(0, total as int) =~= idx);
            text::append_chars(&mut out, &date::decimal_chars(total as u64));
            push_str(&mut out, " tasks (");
            text::append_chars(&mut out, &date::decimal_chars(done as u64));
            push_str(&mut out, " done, ");
            text::append_chars(&mut out, &date::decimal_chars((total - done) as u64));
            push_str(&mut out, " open) | ");
            push_str(&mut out, app.current_view.name.as_str());
            if text::trim_chars(&text::chars_of(app.filter_text.as_str())).len() > 0 {
                push_str(&mut out, " | filter: \"");
                push_str(&mut out, app.filter_text.as_str());
                push_str(&mut out, "\"");
            }
            push_str(&mut out, " | q:quit / /:filter / ?:help");
        },
    }
    text::string_of(&out)
}

/// What `Path::strip_prefix` leaves of `path` after the components of
/// `base`, as text, if `base` is a prefix of it.
pub uninterp spec fn stripped_path(path: Seq<char>, base: Seq<char>) -> Option<Seq<char>>;

/// Calls `Path::strip_prefix` and shows the rest with `Path::display`.
#[verifier::external_body]
fn strip_path(path: &str, base: &str) -> (r: Option<String>)
    ensures
        match r {
            Some(x) => stripped_path(path@, base@) == Some(x@),
            None => stripped_path(path@, base@) is None,
        },
{
    std::path::Path::new(path).strip_prefix(base).ok().map(|p| p.display().to_string())
}

/// The path of a task's file shown relative to the vault where it is in it.
pub open spec fn relative_text(path: Seq<char>, workspace: Option<Seq<char>>) -> Seq<char> {
    match workspace {
        Some(w) => match stripped_path(path, w) {
            Some(r) => r,
            None => path,
        },
        None => path,
    }
}

/// The path of a task's file shown relative to the vault.
pub fn relative_path(path: &str, workspace: &Option<String>) -> (r: String)
    ensures
        r@ == relative_text(path@, match workspace {
            Some(w) => Some(w@),
            None => None,
        }),
{
    match workspace {
        Some(w) => match strip_path(path, w.as_str()) {
            Some(x) => x,
            None => path.to_owned(),
        },
        None => path.to_owned(),
    }
}

/// The texts of one row of the task list.
pub struct RowText {
    pub status: String,
    pub priority: String,
    pub due: String,
    pub scheduled: String,
    pub source: String,
    pub path_below: String,
    pub show_path_below: bool,
    pub prefix_len: usize,
    pub desc_lines: Vec<String>,
}

pub open spec fn status_box_text(s: TaskStatus) -> Seq<char> {
    if s == TaskStatus::Done {
        "[x]"@
    } else {
        "[ ]"@
    }
}

pub open spec fn priority_prefix(t: TaskView) -> Seq<char> {
    if priority_text(t.priority).len() == 0 {
        seq![]
    } else {
        priority_text(t.priority) + seq![' ']
    }
}

pub open spec fn opt_label(mark: char, d: Option<Date>, width: usize) -> Seq<char> {
    match d {
        Some(x) => date_label(mark, x, width),
        None => seq![],
    }
}

/// How wide the description may be: what is left of the inner width after
/// the prefix and the metadata, but at least 20.
pub open spec fn desc_width(width: usize, prefix_len: nat, meta_len: nat) -> nat {
    let inner = if width >= 2 {
        width - 2
    } else {
        0
    };
    let left = if inner >= prefix_len + meta_len {
        inner - (prefix_len + meta_len)
    } else {
        0
    };
    if left < 20 {
        20
    } else {
        left as nat
    }
}

/// The row of a task for a list `width` columns wide, with the task's file
/// shown as `rel`.
pub open spec fn row_spec(t: TaskView, width: usize, rel: Seq<char>) -> (
    Seq<char>,
    Seq<char>,
    Seq<char>,
    Seq<char>,
    Seq<char>,
    Seq<char>,
    bool,
    nat,
    Seq<Seq<char>>,
) {
    let status = status_box_text(t.status);
    let prio = priority_prefix(t);
    let due = opt_label(DUE_MARK, t.due_date, width);
    let sched = opt_label(SCHEDULED_LABEL, t.scheduled_date, width);
    let wide = width >= WIDE_WIDTH;
    let source = if wide {
        seq![' '] + rel
    } else {
        seq![]
    };
    let below = if wide {
        seq![]
    } else {
        rel
    };
    let prefix_len = blen(status) + 1 + blen(prio);
    let meta_len = blen(due) + blen(sched) + blen(source);
    (
        status,
        prio,
        due,
        sched,
        source,
        below,
        !wide,
        prefix_len,
        wrap_spec(t.description, desc_width(width, prefix_len, meta_len)),
    )
}

pub open spec fn row_view(r: RowText) -> (
    Seq<char>,
    Seq<char>,
    Seq<char>,
    Seq<char>,
    Seq<char>,
    Seq<char>,
    bool,
    nat,
    Seq<Seq<char>>,
) {
    (
        r.status@,
        r.priority@,
        r.due@,
        r.scheduled@,
        r.source@,
        r.path_below@,
        r.show_path_below,
        r.prefix_len as nat,
        string_texts(r.desc_lines@),
    )
}

fn status_label(s: TaskStatus) -> (r: String)
    ensures
        r@ == status_box_text(s),
        blen(r@) == 3,
{
    let r = if s == TaskStatus::Done {
        "[x]".to_owned()
    } else {
        "[ ]".to_owned()
    };
    proof {
        reveal_strlit("[x]");
        reveal_strlit("[ ]");
        vstd::utf8::is_ascii_chars_encode_utf8(r@);
    }
    r
}

fn priority_label(t: &Task) -> (r: String)
    ensures
        r@ == priority_prefix(t@),
        blen(r@) <= 8,
{
    let emoji = t.priority.to_emoji();
    let priority = if emoji.is_empty() {
        String::new()
    } else {
        let mut v = text::chars_of(emoji);
        v.push(' ');
        text::string_of(&v)
    };
    proof {
        let pv = priority@;
        if pv.len() > 0 {
            assert(pv.len() == 2);
            assert(pv.drop_first().drop_first() =~= seq![]);
            assert(encode_utf8(pv.drop_first().drop_first()).len() == 0);
            assert(encode_utf8(pv.drop_first()).len() <= 4);
            assert(encode_utf8(pv).len() <= 8);
        } else {
            assert(encode_utf8(pv).len() == 0);
        }
    }
    priority
}

fn desc_width_of(width: usize, prefix_len: u128, meta_len: u128) -> (r: usize)
    requires
        prefix_len <= 12,
        meta_len <= 3 * usize::MAX,
    ensures
        r == desc_width(width, prefix_len as nat, meta_len as nat),
{
    let inner: u128 = if width >= 2 {
        (width - 2) as u128
    } else {
        0
    };
    let left: u128 = if inner >= prefix_len + meta_len {
        inner - (prefix_len + meta_len)
    } else {
        0
    };
    if left < 20 {
        20
    } else {
        left as usize
    }
}

/// The texts of one row of the task list.
pub fn row_text(t: &Task, width: usize, rel: &str) -> (r: RowText)
    ensures
        row_view(r) == row_spec(t@, width, rel@),
{
    let status = status_label(t.status);
    let priority = priority_label(t);
    let due = match t.due_date {
        Some(d) => format_due_date(d, width),
        None => String::new(),
    };
    let scheduled = match t.scheduled_date {
        Some(d) => format_scheduled_date(d, width),
        None => String::new(),
    };
    let wide = width >= WIDE_WIDTH;
    let source = if wide {
        let mut v: Vec<char> = vec![' '];
        text::append_chars(&mut v, &text::chars_of(rel));
        text::string_of(&v)
    } else {
        String::new()
    };
    let path_below = if wide {
        String::new()
    } else {
        rel.to_owned()
    };
    let prefix_len = (status.as_str().len() as u128) + 1 + (priority.as_str().len() as u128);
    let meta_len = (due.as_str().len() as u128) + (scheduled.as_str().len() as u128) + (
    source.as_str().len() as u128);
    let max_width = desc_width_of(width, prefix_len, meta_len);
    let desc_lines = wrap_text(t.description.as_str(), max_width);
    let r = RowText {
        status,
        priority,
        due,
        scheduled,
        source,
        path_below,
        show_path_below: !wide,
        prefix_len: prefix_len as usize,
        desc_lines,
    };
    let ghost want = row_spec(t@, width, rel@);
    let ghost got = row_view(r);
    assert(got.0 == want.0 && got.1 == want.1 && got.2 == want.2 && got.3 == want.3);
    assert(got.4 == want.4 && got.5 == want.5 && got.6 == want.6 && got.7 == want.7);
    assert(got.8 == want.8);
    r
}

} // verus!
