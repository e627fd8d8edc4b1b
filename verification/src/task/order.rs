//! Three-way comparison of the values that tasks are sorted by, in the
//! order that their `Ord` impls give: integers, texts (by code point, which
//! is the byte order of UTF-8), dates, and `Option`s of these (`None` first).
use super::date::{date_lt, lemma_date_lt, Date};
use vstd::prelude::*;

verus! {

/// The outcome of comparing two values.
#[derive(Clone, Copy, Debug, PartialEq, Eq, Structural)]
pub enum Order {
    Before,
    Same,
    After,
}

/// The outcome of the comparison the other way round.
pub open spec fn flip(o: Order) -> Order {
    match o {
        Order::Before => Order::After,
        Order::Same => Order::Same,
        Order::After => Order::Before,
    }
}

/// The properties of a total preorder, for the comparisons `o_ab`, `o_ba`,
/// `o_bc` and `o_ac` of three values.
pub open spec fn preorder_laws(o_ab: Order, o_ba: Order, o_bc: Order, o_ac: Order) -> bool {
    &&& o_ab == flip(o_ba)
    &&& (o_ab != Order::After && o_bc != Order::After ==> o_ac != Order::After)
}

pub open spec fn int_order(a: int, b: int) -> Order {
    if a < b {
        Order::Before
    } else if a == b {
        Order::Same
    } else {
        Order::After
    }
}

/// Lexicographic order of texts by code point.
pub open spec fn text_order(a: Seq<char>, b: Seq<char>) -> Order
    decreases a.len(),
{
    if a.len() == 0 {
        if b.len() == 0 {
            Order::Same
        } else {
            Order::Before
        }
    } else if b.len() == 0 {
        Order::After
    } else if a[0] != b[0] {
        int_order(a[0] as int, b[0] as int)
    } else {
        text_order(a.drop_first(), b.drop_first())
    }
}

/// Text order is a total order: it flips with its arguments, is transitive,
/// and calls only equal texts the same.
pub proof fn lemma_text_order(a: Seq<char>, b: Seq<char>, c: Seq<char>)
    ensures
        preorder_laws(text_order(a, b), text_order(b, a), text_order(b, c), text_order(a, c)),
        text_order(a, b) == Order::Same ==> a == b,
    decreases a.len(),
{
    if a.len() > 0 && b.len() > 0 {
        let c2 = if c.len() > 0 {
            c.drop_first()
        } else {
            c
        };
        lemma_text_order(a.drop_first(), b.drop_first(), c2);
        if a[0] == b[0] && text_order(a, b) == Order::Same {
            assert(a =~= seq![a[0]] + a.drop_first());
            assert(b =~= seq![b[0]] + b.drop_first());
        }
    }
}

/// Compares two texts as `Ord for str` does.
pub fn compare_text(a: &Vec<char>, b: &Vec<char>) -> (r: Order)
    ensures
        r == text_order(a@, b@),
{
    let mut i: usize = 0;
    assert(a@.subrange(0, a@.len() as int) =~= a@);
    assert(b@.subrange(0, b@.len() as int) =~= b@);
    while i < a.len() && i < b.len()
        invariant
            i <= a.len(),
            i <= b.len(),
            text_order(a@, b@) == text_order(
                a@.subrange(i as int, a@.len() as int),
                b@.subrange(i as int, b@.len() as int),
            ),
        decreases a.len() - i,
    {
        let ghost sa = a@.subrange(i as int, a@.len() as int);
        let ghost sb = b@.subrange(i as int, b@.len() as int);
        assert(sa[0] == a@[i as int] && sb[0] == b@[i as int]);
        if a[i] != b[i] {
            assert(text_order(sa, sb) == int_order(sa[0] as int, sb[0] as int));
            return if a[i] < b[i] {
                Order::Before
            } else {
                Order::After
            };
        }
        assert(sa.drop_first() =~= a@.subrange(i + 1, a@.len() as int));
        assert(sb.drop_first() =~= b@.subrange(i + 1, b@.len() as int));
        i += 1;
    }
    if i < a.len() {
        Order::After
    } else if i < b.len() {
        Order::Before
    } else {
        Order::Same
    }
}

/// Calendar order.
pub open spec fn date_order(a: Date, b: Date) -> Order {
    if date_lt(a, b) {
        Order::Before
    } else if a == b {
        Order::Same
    } else {
        Order::After
    }
}

pub proof fn lemma_date_order(a: Date, b: Date, c: Date)
    ensures
        preorder_laws(date_order(a, b), date_order(b, a), date_order(b, c), date_order(a, c)),
{
    lemma_date_lt(a, b, c);
    lemma_date_lt(b, a, c);
    lemma_date_lt(a, c, b);
    lemma_date_lt(b, c, a);
    lemma_date_lt(c, a, b);
}

pub fn compare_dates(a: Date, b: Date) -> (r: Order)
    ensures
        r == date_order(a, b),
{
    if a.is_before(&b) {
        Order::Before
    } else if a == b {
        Order::Same
    } else {
        Order::After
    }
}

/// Order of optional dates: no date first.
pub open spec fn opt_date_order(a: Option<Date>, b: Option<Date>) -> Order {
    match (a, b) {
        (None, None) => Order::Same,
        (None, Some(_)) => Order::Before,
        (Some(_), None) => Order::After,
        (Some(x), Some(y)) => date_order(x, y),
    }
}

pub proof fn lemma_opt_date_order(a: Option<Date>, b: Option<Date>, c: Option<Date>)
    ensures
        preorder_laws(
            opt_date_order(a, b),
            opt_date_order(b, a),
            opt_date_order(b, c),
            opt_date_order(a, c),
        ),
{
    if let (Some(x), Some(y), Some(z)) = (a, b, c) {
        lemma_date_order(x, y, z);
    } else if let (Some(x), Some(y)) = (a, b) {
        lemma_date_order(x, y, x);
    }
}

pub fn compare_opt_dates(a: Option<Date>, b: Option<Date>) -> (r: Order)
    ensures
        r == opt_date_order(a, b),
{
    match (a, b) {
        (None, None) => Order::Same,
        (None, Some(_)) => Order::Before,
        (Some(_), None) => Order::After,
        (Some(x), Some(y)) => compare_dates(x, y),
    }
}

/// Order of optional texts: no text first.
pub open spec fn opt_text_order(a: Option<Seq<char>>, b: Option<Seq<char>>) -> Order {
    match (a, b) {
        (None, None) => Order::Same,
        (None, Some(_)) => Order::Before,
        (Some(_), None) => Order::After,
        (Some(x), Some(y)) => text_order(x, y),
    }
}

pub proof fn lemma_opt_text_order(a: Option<Seq<char>>, b: Option<Seq<char>>, c: Option<Seq<char>>)
    ensures
        preorder_laws(
            opt_text_order(a, b),
            opt_text_order(b, a),
            opt_text_order(b, c),
            opt_text_order(a, c),
        ),
{
    if let (Some(x), Some(y), Some(z)) = (a, b, c) {
        lemma_text_order(x, y, z);
    } else if let (Some(x), Some(y)) = (a, b) {
        lemma_text_order(x, y, x);
    }
}

pub fn compare_ints(a: u64, b: u64) -> (r: Order)
    ensures
        r == int_order(a as int, b as int),
{
    if a < b {
        Order::Before
    } else if a == b {
        Order::Same
    } else {
        Order::After
    }
}

} // verus!
