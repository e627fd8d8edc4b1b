//! Task files are named by their path in the vault, held as text. This module
//! reads such a path as `std::path::Path` does on Unix: its components, the
//! test of the `folder` filter, and the order in which `PathBuf` sorts.
use super::order::{flip, lemma_text_order, preorder_laws, text_order, Order, compare_text};
use crate::text::char_texts;
use vstd::prelude::*;

verus! {

/// A path component (`std::path::Component` without Windows prefixes).
pub enum Comp {
    Root,
    Current,
    Parent,
    Normal(Seq<char>),
}

/// The text of a component (`Component::as_os_str`).
pub open spec fn comp_text(c: Comp) -> Seq<char> {
    match c {
        Comp::Root => seq!['/'],
        Comp::Current => seq!['.'],
        Comp::Parent => seq!['.', '.'],
        Comp::Normal(s) => s,
    }
}

/// The pieces of `p` between slashes: `n` slashes give `n + 1` pieces.
pub open spec fn slash_pieces(p: Seq<char>) -> Seq<Seq<char>>
    decreases p.len(),
{
    if p.len() == 0 {
        seq![seq![]]
    } else {
        let r = slash_pieces(p.drop_last());
        if p.last() == '/' {
            r.push(seq![])
        } else {
            r.update(r.len() - 1, r.last().push(p.last()))
        }
    }
}

pub proof fn lemma_slash_pieces_len(p: Seq<char>)
    ensures
        slash_pieces(p).len() >= 1,
    decreases p.len(),
{
    if p.len() > 0 {
        lemma_slash_pieces_len(p.drop_last());
    }
}

/// The components that the pieces give: empty pieces and `.` are skipped,
/// but for a `.` that is the first piece of a relative path.
pub open spec fn piece_comps(ps: Seq<Seq<char>>, first: bool) -> Seq<Comp>
    decreases ps.len(),
{
    if ps.len() == 0 {
        seq![]
    } else {
        let x = ps[0];
        let rest = piece_comps(ps.drop_first(), false);
        if x.len() == 0 {
            rest
        } else if x == seq!['.'] {
            if first {
                seq![Comp::Current] + rest
            } else {
                rest
            }
        } else if x == seq!['.', '.'] {
            seq![Comp::Parent] + rest
        } else {
            seq![Comp::Normal(x)] + rest
        }
    }
}

/// A path that starts at the root.
pub open spec fn is_absolute(p: Seq<char>) -> bool {
    p.len() > 0 && p[0] == '/'
}

/// The components of a path (`Path::components`).
pub open spec fn components(p: Seq<char>) -> Seq<Comp> {
    if is_absolute(p) {
        seq![Comp::Root] + piece_comps(slash_pieces(p), false)
    } else {
        piece_comps(slash_pieces(p), true)
    }
}

/// One of the components of `p` reads `name`.
pub open spec fn has_component(p: Seq<char>, name: Seq<char>) -> bool {
    exists|k: int| 0 <= k < components(p).len() && comp_text(#[trigger] components(p)[k]) == name
}

/// A path component.
pub enum PathPart {
    Root,
    Current,
    Parent,
    Normal(Vec<char>),
}

impl View for PathPart {
    type V = Comp;

    open spec fn view(&self) -> Comp {
        match self {
            PathPart::Root => Comp::Root,
            PathPart::Current => Comp::Current,
            PathPart::Parent => Comp::Parent,
            PathPart::Normal(s) => Comp::Normal(s@),
        }
    }
}

pub open spec fn part_views(v: Seq<PathPart>) -> Seq<Comp> {
    v.map_values(|c: PathPart| c@)
}

/// The pieces of a path between slashes.
fn slash_pieces_of(p: &Vec<char>) -> (r: Vec<Vec<char>>)
    ensures
        char_texts(r@) == slash_pieces(p@),
{
    let mut done: Vec<Vec<char>> = Vec::new();
    let mut cur: Vec<char> = Vec::new();
    let mut i: usize = 0;
    assert(slash_pieces(p@.subrange(0, 0)) =~= char_texts(done@).push(cur@));
    while i < p.len()
        invariant
            i <= p.len(),
            slash_pieces(p@.subrange(0, i as int)) == char_texts(done@).push(cur@),
        decreases p.len() - i,
    {
        let c = p[i];
        let ghost pre = p@.subrange(0, i as int);
        let ghost d0 = char_texts(done@);
        let ghost c0 = cur@;
        assert(p@.subrange(0, i + 1).drop_last() =~= pre);
        assert(p@.subrange(0, i + 1).last() == c);
        if c == '/' {
            done.push(cur);
            cur = Vec::new();
            assert(char_texts(done@) =~= d0.push(c0));
            assert(d0.push(c0).push(seq![]) =~= char_texts(done@).push(cur@));
        } else {
            cur.push(c);
            assert(d0.push(c0).update(d0.len() as int, c0.push(c)) =~= char_texts(done@).push(
                cur@,
            ));
        }
        i += 1;
    }
    assert(p@.subrange(0, p@.len() as int) =~= p@);
    let ghost d0 = char_texts(done@);
    let ghost c0 = cur@;
    done.push(cur);
    assert(char_texts(done@) =~= d0.push(c0));
    done
}

/// The components of a path (`Path::components`).
pub fn components_of(p: &Vec<char>) -> (r: Vec<PathPart>)
    ensures
        part_views(r@) == components(p@),
{
    let pieces = slash_pieces_of(p);
    let ghost ps = char_texts(pieces@);
    let absolute = p.len() > 0 && p[0] == '/';
    let mut out: Vec<PathPart> = Vec::new();
    if absolute {
        out.push(PathPart::Root);
    }
    let mut k: usize = 0;
    assert(ps.subrange(0, ps.len() as int) =~= ps);
    assert(part_views(out@) =~= if absolute {
        seq![Comp::Root]
    } else {
        seq![]
    });
    while k < pieces.len()
        invariant
            k <= pieces.len(),
            ps == char_texts(pieces@),
            absolute == is_absolute(p@),
            ps == slash_pieces(p@),
            components(p@) == part_views(out@) + piece_comps(
                ps.subrange(k as int, ps.len() as int),
                k == 0 && !absolute,
            ),
        decreases pieces.len() - k,
    {
        let ghost rest = ps.subrange(k as int, ps.len() as int);
        let ghost first = k == 0 && !absolute;
        let ghost out0 = part_views(out@);
        assert(rest[0] == pieces@[k as int]@);
        assert(rest.drop_first() =~= ps.subrange(k + 1, ps.len() as int));
        let x = &pieces[k];
        let is_dot = x.len() == 1 && x[0] == '.';
        let is_dots = x.len() == 2 && x[0] == '.' && x[1] == '.';
        assert(is_dot == (x@ == seq!['.'])) by {
            if x@ == seq!['.'] {
                assert(x@.len() == 1 && x@[0] == '.');
            }
            if is_dot {
                assert(x@ =~= seq!['.']);
            }
        }
        assert(is_dots == (x@ == seq!['.', '.'])) by {
            if x@ == seq!['.', '.'] {
                assert(x@.len() == 2 && x@[0] == '.' && x@[1] == '.');
            }
            if is_dots {
                assert(x@ =~= seq!['.', '.']);
            }
        }
        if x.len() == 0 {
        } else if is_dot {
            if k == 0 && !absolute {
                out.push(PathPart::Current);
                assert(part_views(out@) =~= out0 + seq![Comp::Current]);
            }
        } else if is_dots {
            out.push(PathPart::Parent);
            assert(part_views(out@) =~= out0 + seq![Comp::Parent]);
        } else {
            out.push(PathPart::Normal(x.clone()));
            assert(part_views(out@) =~= out0 + seq![Comp::Normal(x@)]);
        }
        assert(components(p@) == part_views(out@) + piece_comps(
            ps.subrange(k + 1, ps.len() as int),
            false,
        )) by {
            assert(piece_comps(rest, first) == (if x@.len() == 0 {
                piece_comps(rest.drop_first(), false)
            } else if x@ == seq!['.'] {
                if first {
                    seq![Comp::Current] + piece_comps(rest.drop_first(), false)
                } else {
                    piece_comps(rest.drop_first(), false)
                }
            } else if x@ == seq!['.', '.'] {
                seq![Comp::Parent] + piece_comps(rest.drop_first(), false)
            } else {
                seq![Comp::Normal(x@)] + piece_comps(rest.drop_first(), false)
            }));
            vstd::seq_lib::lemma_concat_associative::<Comp>(out0, seq![Comp::Current], piece_comps(rest.drop_first(), false));
            vstd::seq_lib::lemma_concat_associative::<Comp>(out0, seq![Comp::Parent], piece_comps(rest.drop_first(), false));
            vstd::seq_lib::lemma_concat_associative::<Comp>(out0, seq![Comp::Normal(x@)], piece_comps(rest.drop_first(), false));
        }
        k += 1;
    }
    assert(piece_comps(ps.subrange(k as int, ps.len() as int), k == 0 && !absolute) =~= seq![]);
    assert(part_views(out@) + seq![] =~= part_views(out@));
    out
}

/// Whether one of the components of `path` reads `name`, as the `folder`
/// filter asks.
pub fn in_folder(path: &Vec<char>, name: &Vec<char>) -> (r: bool)
    ensures
        r == has_component(path@, name@),
{
    let parts = components_of(path);
    let mut k: usize = 0;
    while k < parts.len()
        invariant
            k <= parts.len(),
            part_views(parts@) == components(path@),
            forall|j: int| 0 <= j < k ==> comp_text(#[trigger] components(path@)[j]) != name@,
        decreases parts.len() - k,
    {
        let same = match &parts[k] {
            PathPart::Root => name.len() == 1 && name[0] == '/',
            PathPart::Current => name.len() == 1 && name[0] == '.',
            PathPart::Parent => name.len() == 2 && name[0] == '.' && name[1] == '.',
            PathPart::Normal(s) => crate::text::same_chars(s, name),
        };
        assert(components(path@)[k as int] == parts@[k as int]@);
        if same {
            assert(comp_text(components(path@)[k as int]) =~= name@);
            return true;
        } else {
            assert(comp_text(components(path@)[k as int]) != name@) by {
                if comp_text(components(path@)[k as int]) == name@ {
                    let t = comp_text(components(path@)[k as int]);
                    assert(t.len() == name@.len());
                    assert(forall|j: int| 0 <= j < t.len() ==> t[j] == name@[j]);
                }
            }
        }
        k += 1;
    }
    false
}

/// The rank of a component's kind in `Component`'s derived order.
pub open spec fn comp_rank(c: Comp) -> int {
    match c {
        Comp::Root => 0,
        Comp::Current => 1,
        Comp::Parent => 2,
        Comp::Normal(_) => 3,
    }
}

/// The derived order of `Component`: by kind, then normal ones by text.
pub open spec fn comp_order(a: Comp, b: Comp) -> Order {
    if comp_rank(a) < comp_rank(b) {
        Order::Before
    } else if comp_rank(a) > comp_rank(b) {
        Order::After
    } else {
        match (a, b) {
            (Comp::Normal(x), Comp::Normal(y)) => text_order(x, y),
            _ => Order::Same,
        }
    }
}

pub proof fn lemma_comp_order(a: Comp, b: Comp, c: Comp)
    ensures
        preorder_laws(comp_order(a, b), comp_order(b, a), comp_order(b, c), comp_order(a, c)),
{
    match (a, b, c) {
        (Comp::Normal(x), Comp::Normal(y), Comp::Normal(z)) => lemma_text_order(x, y, z),
        (Comp::Normal(x), Comp::Normal(y), _) => lemma_text_order(x, y, x),
        _ => {},
    }
}

/// Lexicographic order of component lists (`Ord for Path`).
pub open spec fn comps_order(a: Seq<Comp>, b: Seq<Comp>) -> Order
    decreases a.len(),
{
    if a.len() == 0 {
        if b.len() == 0 {
            Order::Same
        } else {
            Order::Before
        }
    } else if b.len() == 0 {
        Order::After
    } else if comp_order(a[0], b[0]) != Order::Same {
        comp_order(a[0], b[0])
    } else {
        comps_order(a.drop_first(), b.drop_first())
    }
}

pub proof fn lemma_comps_order(a: Seq<Comp>, b: Seq<Comp>, c: Seq<Comp>)
    ensures
        preorder_laws(comps_order(a, b), comps_order(b, a), comps_order(b, c), comps_order(a, c)),
    decreases a.len(),
{
    if a.len() > 0 && b.len() > 0 {
        let c2 = if c.len() > 0 {
            c.drop_first()
        } else {
            c
        };
        lemma_comps_order(a.drop_first(), b.drop_first(), c2);
        if c.len() > 0 {
            lemma_comp_order(a[0], b[0], c[0]);
            lemma_comp_order(b[0], c[0], a[0]);
            lemma_comp_order(a[0], c[0], b[0]);
            lemma_comp_order(c[0], a[0], b[0]);
        } else {
            lemma_comp_order(a[0], b[0], a[0]);
        }
    }
}

fn compare_parts(a: &PathPart, b: &PathPart) -> (r: Order)
    ensures
        r == comp_order(a@, b@),
{
    match (a, b) {
        (PathPart::Normal(x), PathPart::Normal(y)) => compare_text(x, y),
        _ => {
            let ra: u8 = match a {
                PathPart::Root => 0,
                PathPart::Current => 1,
                PathPart::Parent => 2,
                PathPart::Normal(_) => 3,
            };
            let rb: u8 = match b {
                PathPart::Root => 0,
                PathPart::Current => 1,
                PathPart::Parent => 2,
                PathPart::Normal(_) => 3,
            };
            if ra < rb {
                Order::Before
            } else if ra > rb {
                Order::After
            } else {
                Order::Same
            }
        },
    }
}

/// Compares two paths as `Ord for PathBuf` does: component by component.
pub fn compare_paths(a: &Vec<char>, b: &Vec<char>) -> (r: Order)
    ensures
        r == comps_order(components(a@), components(b@)),
{
    let pa = components_of(a);
    let pb = components_of(b);
    let ghost ca = part_views(pa@);
    let ghost cb = part_views(pb@);
    let mut i: usize = 0;
    assert(ca.subrange(0, ca.len() as int) =~= ca);
    assert(cb.subrange(0, cb.len() as int) =~= cb);
    while i < pa.len() && i < pb.len()
        invariant
            i <= pa.len(),
            i <= pb.len(),
            ca == part_views(pa@),
            cb == part_views(pb@),
            ca == components(a@),
            cb == components(b@),
            comps_order(ca, cb) == comps_order(
                ca.subrange(i as int, ca.len() as int),
                cb.subrange(i as int, cb.len() as int),
            ),
        decreases pa.len() - i,
    {
        let ghost sa = ca.subrange(i as int, ca.len() as int);
        let ghost sb = cb.subrange(i as int, cb.len() as int);
        assert(sa[0] == pa@[i as int]@ && sb[0] == pb@[i as int]@);
        let o = compare_parts(&pa[i], &pb[i]);
        if o != Order::Same {
            assert(comps_order(sa, sb) == comp_order(sa[0], sb[0]));
            return o;
        }
        assert(sa.drop_first() =~= ca.subrange(i + 1, ca.len() as int));
        assert(sb.drop_first() =~= cb.subrange(i + 1, cb.len() as int));
        i += 1;
    }
    if i < pa.len() {
        Order::After
    } else if i < pb.len() {
        Order::Before
    } else {
        Order::Same
    }
}

} // verus!
