use vstd::prelude::*;

use crate::mesh::{corner_vertices, triples_of};

use crate::clip::{disposition_of, Disposition, DECAL_REMOVE_BACKFACES, beyond, decided, reaches_beyond, reaches_inside, slice_result, corners_below, cut_ends_below, pass_result, sliced_or_kept, Cut, Side, Sides, Triangle};

verus! {

/// The side of corner `k` (0, 1 or 2) of a triangle.
pub open spec fn side_of(s: Sides, k: int) -> Side {
    if k == 0 { s.a } else if k == 1 { s.b } else { s.c }
}

/// Corner `k` (0, 1 or 2) of a triangle.
pub open spec fn corner_of(t: Triangle, k: int) -> usize {
    if k == 0 { t.a } else if k == 1 { t.b } else { t.c }
}

/// Vertex `x` may stand in a piece of `t`: it is one of the two new vertices
/// `fresh`, `fresh + 1`, or a corner of `t` that is not beyond the face.
pub open spec fn inner_vertex(t: Triangle, s: Sides, fresh: int, x: usize) -> bool {
    ||| x == fresh
    ||| x == fresh + 1
    ||| exists|k: int| 0 <= k < 3 && corner_of(t, k) == x && side_of(s, k) != Side::Outside
}

/// `cut` runs along an edge of `t` between a corner beyond the face and a
/// corner inside it or on it.
pub open spec fn crosses_face(t: Triangle, s: Sides, cut: Cut) -> bool {
    exists|j: int, k: int|
        0 <= j < 3 && 0 <= k < 3 && j != k && corner_of(t, j) == cut.from && corner_of(t, k) == cut.to && {
            ||| side_of(s, j) == Side::Outside && (side_of(s, k) == Side::Inside || side_of(s, k) == Side::OnFace)
            ||| side_of(s, k) == Side::Outside && (side_of(s, j) == Side::Inside || side_of(s, j) == Side::OnFace)
        }
}

/// Slicing keeps only what is inside the face: when every corner is decided,
/// each corner of each triangle that a slice leaves is a new vertex on the
/// face or a corner of the triangle that is inside the face or on it.
pub proof fn lemma_slice_keeps_inside(t: Triangle, s: Sides, fresh: int)
    requires
        decided(s),
        0 <= fresh < usize::MAX,
    ensures
        forall|i: int|
            0 <= i < sliced_or_kept(t, s, fresh).0.len() ==> {
                let p = #[trigger] sliced_or_kept(t, s, fresh).0[i];
                &&& inner_vertex(t, s, fresh, p.a)
                &&& inner_vertex(t, s, fresh, p.b)
                &&& inner_vertex(t, s, fresh, p.c)
            },
{
    let pieces = sliced_or_kept(t, s, fresh).0;
    assert forall|i: int| 0 <= i < pieces.len() implies {
        let p = #[trigger] pieces[i];
        &&& inner_vertex(t, s, fresh, p.a)
        &&& inner_vertex(t, s, fresh, p.b)
        &&& inner_vertex(t, s, fresh, p.c)
    } by {
        assert(corner_of(t, 0) == t.a);
        assert(corner_of(t, 1) == t.b);
        assert(corner_of(t, 2) == t.c);
        assert(side_of(s, 0) == s.a);
        assert(side_of(s, 1) == s.b);
        assert(side_of(s, 2) == s.c);
    }
}

/// Every new vertex that a slice asks for lies on an edge of the triangle
/// that the face crosses: between a corner beyond it and a corner inside it
/// or on it.
pub proof fn lemma_slice_cuts_cross_face(t: Triangle, s: Sides, fresh: int)
    ensures
        forall|i: int|
            0 <= i < sliced_or_kept(t, s, fresh).1.len() ==> crosses_face(
                t,
                s,
                #[trigger] sliced_or_kept(t, s, fresh).1[i],
            ),
{
    let cuts = sliced_or_kept(t, s, fresh).1;
    assert forall|i: int| 0 <= i < cuts.len() implies crosses_face(t, s, #[trigger] cuts[i]) by {
        assert(corner_of(t, 0) == t.a);
        assert(corner_of(t, 1) == t.b);
        assert(corner_of(t, 2) == t.c);
        assert(side_of(s, 0) == s.a);
        assert(side_of(s, 1) == s.b);
        assert(side_of(s, 2) == s.c);
        let c = cuts[i];
        if c.from == t.a && c.to == t.b {
            assert(corner_of(t, 0) == c.from && corner_of(t, 1) == c.to);
        }
        if c.from == t.a && c.to == t.c {
            assert(corner_of(t, 0) == c.from && corner_of(t, 2) == c.to);
        }
        if c.from == t.b && c.to == t.c {
            assert(corner_of(t, 1) == c.from && corner_of(t, 2) == c.to);
        }
        if c.from == t.b && c.to == t.a {
            assert(corner_of(t, 1) == c.from && corner_of(t, 0) == c.to);
        }
        if c.from == t.c && c.to == t.a {
            assert(corner_of(t, 2) == c.from && corner_of(t, 0) == c.to);
        }
        if c.from == t.c && c.to == t.b {
            assert(corner_of(t, 2) == c.from && corner_of(t, 1) == c.to);
        }
    }
}


/// A triangle whose corners are all decided is left as it is exactly when no
/// corner lies beyond the face; one with a corner beyond it is sliced, and
/// nothing of it is left when no corner is strictly inside.
pub proof fn lemma_slice_leaves_only_unreaching(t: Triangle, s: Sides, fresh: int)
    requires
        decided(s),
    ensures
        slice_result(t, s, fresh) is None <==> !reaches_beyond(s),
        reaches_beyond(s) && !reaches_inside(s) ==> sliced_or_kept(t, s, fresh).0.len() == 0,
{
}

/// One slice replaces a triangle by at most two triangles and asks for two new
/// vertices or none; none exactly when the triangle is left as it is (then it
/// stands alone in the result) or nothing of it is left.
pub proof fn lemma_slice_size(t: Triangle, s: Sides, fresh: int)
    ensures
        sliced_or_kept(t, s, fresh).0.len() <= 2,
        sliced_or_kept(t, s, fresh).1.len() == 0 || sliced_or_kept(t, s, fresh).1.len() == 2,
        sliced_or_kept(t, s, fresh).1.len() == 0 <==> (slice_result(t, s, fresh) is None
            || slice_result(t, s, fresh) == Some((Seq::<Triangle>::empty(), Seq::<Cut>::empty()))),
        beyond(s) ==> sliced_or_kept(t, s, fresh).0.len() == 0,
        slice_result(t, s, fresh) is None ==> sliced_or_kept(t, s, fresh).0 == seq![t],
{
}

/// A pass names only vertices that exist: when every pending corner is
/// numbered below `count`, every resulting corner is numbered below `count`
/// plus the number of new vertices, every cut joins vertices numbered below
/// `count`, and at most two new vertices are made per pending triangle.
pub proof fn lemma_pass_keeps_vertex_numbers(pending: Seq<Triangle>, sides: Seq<Sides>, count: int)
    requires
        corners_below(pending, count),
        sides.len() >= pending.len(),
        0 <= count,
        count + 2 * pending.len() <= usize::MAX,
    ensures
        corners_below(pass_result(pending, sides, count).0, count + pass_result(pending, sides, count).1.len()),
        cut_ends_below(pass_result(pending, sides, count).1, count),
        pass_result(pending, sides, count).1.len() <= 2 * pending.len(),
{
    lemma_pass_numbers_below(pending, sides, count, count);
}

proof fn lemma_pass_numbers_below(pending: Seq<Triangle>, sides: Seq<Sides>, bound: int, count: int)
    requires
        corners_below(pending, bound),
        sides.len() >= pending.len(),
        0 <= bound <= count,
        count + 2 * pending.len() <= usize::MAX,
    ensures
        corners_below(pass_result(pending, sides, count).0, count + pass_result(pending, sides, count).1.len()),
        cut_ends_below(pass_result(pending, sides, count).1, bound),
        pass_result(pending, sides, count).1.len() <= 2 * pending.len(),
    decreases pending.len(),
{
    if pending.len() > 0 {
        let i = pending.len() - 1;
        let t = pending[i];
        let first = sliced_or_kept(t, sides[i], count);
        lemma_slice_size(t, sides[i], count);
        let n1 = count + first.1.len();
        assert(corners_below(pending.take(i), bound));
        lemma_pass_numbers_below(pending.take(i), sides, bound, n1);
        let rest = pass_result(pending.take(i), sides, n1);
        let total = count + first.1.len() + rest.1.len();
        assert(corners_below(first.0, n1));
        assert(cut_ends_below(first.1, bound));
        let whole = pass_result(pending, sides, count);
        assert(whole.0 == first.0 + rest.0);
        assert(whole.1 == first.1 + rest.1);
        assert forall|j: int| 0 <= j < whole.0.len() implies {
            &&& #[trigger] whole.0[j].a < total
            &&& whole.0[j].b < total
            &&& whole.0[j].c < total
        } by {
            if j < first.0.len() {
                assert(whole.0[j] == first.0[j]);
                assert(first.0[j].a < n1 && first.0[j].b < n1 && first.0[j].c < n1);
            } else {
                let k = j - first.0.len();
                assert(0 <= k < rest.0.len());
                assert(whole.0[j] == rest.0[k]);
                assert(rest.0[k].a < n1 + rest.1.len());
            }
        }
        assert forall|j: int| 0 <= j < whole.1.len() implies #[trigger] whole.1[j].from < bound && whole.1[j].to
            < bound by {
            if j < first.1.len() {
                assert(whole.1[j] == first.1[j]);
            } else {
                let k = j - first.1.len();
                assert(whole.1[j] == rest.1[k]);
                assert(rest.1[k].from < bound);
            }
        }
    }
}

/// A pass leaves triangles with no corner beyond the face as they are, in
/// reverse order, and makes no new vertex.
pub proof fn lemma_pass_inside_unchanged(pending: Seq<Triangle>, sides: Seq<Sides>, count: int)
    requires
        sides.len() == pending.len(),
        forall|i: int| 0 <= i < sides.len() ==> !reaches_beyond(#[trigger] sides[i]),
    ensures
        pass_result(pending, sides, count).0 == pending.reverse(),
        pass_result(pending, sides, count).1 == Seq::<Cut>::empty(),
    decreases pending.len(),
{
    if pending.len() > 0 {
        let i = pending.len() - 1;
        assert(!reaches_beyond(sides[i]));
        lemma_pass_inside_unchanged(pending.take(i), sides.take(i), count);
        lemma_pass_ignores_later_sides(pending.take(i), sides, sides.take(i), count);
        assert(pending.reverse() =~= seq![pending[i]] + pending.take(i).reverse());
    } else {
        assert(pending.reverse() =~= Seq::<Triangle>::empty());
    }
}

/// A pass reads the sides of the pending triangles only.
pub proof fn lemma_pass_ignores_later_sides(pending: Seq<Triangle>, s1: Seq<Sides>, s2: Seq<Sides>, count: int)
    requires
        s1.len() >= pending.len(),
        s2.len() >= pending.len(),
        forall|i: int| 0 <= i < pending.len() ==> s1[i] == s2[i],
    ensures
        pass_result(pending, s1, count) == pass_result(pending, s2, count),
    decreases pending.len(),
{
    if pending.len() > 0 {
        let i = pending.len() - 1;
        let first = sliced_or_kept(pending[i], s1[i], count);
        lemma_pass_ignores_later_sides(pending.take(i), s1, s2, count + first.1.len());
    }
}

/// The sides of a triangle's corners, read from the side of each vertex.
pub open spec fn sides_from(side: spec_fn(usize) -> Side, t: Triangle) -> Sides {
    Sides { a: side(t.a), b: side(t.b), c: side(t.c) }
}

/// After a pass against a face, what remains lies inside that face: when the
/// sides given for the pending triangles are those of their vertices and no
/// vertex is undecided, every corner of every resulting triangle is a new
/// vertex (numbered from `count` on) or a vertex inside the face or on it.
pub proof fn lemma_pass_keeps_inside(
    pending: Seq<Triangle>,
    sides: Seq<Sides>,
    count: int,
    side: spec_fn(usize) -> Side,
)
    requires
        sides.len() >= pending.len(),
        forall|i: int|
            0 <= i < pending.len() ==> #[trigger] sides[i] == sides_from(side, pending[i]) && decided(sides[i]),
        0 <= count,
        count + 2 * pending.len() <= usize::MAX,
    ensures
        forall|j: int|
            0 <= j < pass_result(pending, sides, count).0.len() ==> {
                let p = #[trigger] pass_result(pending, sides, count).0[j];
                &&& p.a >= count || side(p.a) != Side::Outside
                &&& p.b >= count || side(p.b) != Side::Outside
                &&& p.c >= count || side(p.c) != Side::Outside
            },
    decreases pending.len(),
{
    if pending.len() > 0 {
        let i = pending.len() - 1;
        let t = pending[i];
        assert(sides[i] == sides_from(side, t) && decided(sides[i]));
        let first = sliced_or_kept(t, sides[i], count);
        lemma_slice_size(t, sides[i], count);
        lemma_slice_keeps_inside(t, sides[i], count);
        let n1 = count + first.1.len();
        lemma_pass_keeps_inside(pending.take(i), sides, n1, side);
        let rest = pass_result(pending.take(i), sides, n1);
        let whole = pass_result(pending, sides, count);
        assert(whole.0 == first.0 + rest.0);
        assert forall|j: int| 0 <= j < whole.0.len() implies {
            let p = #[trigger] whole.0[j];
            &&& p.a >= count || side(p.a) != Side::Outside
            &&& p.b >= count || side(p.b) != Side::Outside
            &&& p.c >= count || side(p.c) != Side::Outside
        } by {
            if j < first.0.len() {
                let p = first.0[j];
                assert(whole.0[j] == p);
                assert(inner_vertex(t, sides[i], count, p.a));
                assert(inner_vertex(t, sides[i], count, p.b));
                assert(inner_vertex(t, sides[i], count, p.c));
                assert(side_of(sides[i], 0) == side(t.a));
                assert(side_of(sides[i], 1) == side(t.b));
                assert(side_of(sides[i], 2) == side(t.c));
            } else {
                let k = j - first.0.len();
                assert(whole.0[j] == rest.0[k]);
                let p = rest.0[k];
                assert(p.a >= n1 || side(p.a) != Side::Outside);
                assert(p.b >= n1 || side(p.b) != Side::Outside);
                assert(p.c >= n1 || side(p.c) != Side::Outside);
            }
        }
    }
}

/// A pass leaves at most twice as many triangles as it was given.
pub proof fn lemma_pass_size(pending: Seq<Triangle>, sides: Seq<Sides>, fresh: int)
    ensures
        pass_result(pending, sides, fresh).0.len() <= 2 * pending.len(),
    decreases pending.len(),
{
    if pending.len() > 0 {
        let i = pending.len() - 1;
        let first = sliced_or_kept(pending[i], sides[i], fresh);
        lemma_slice_size(pending[i], sides[i], fresh);
        lemma_pass_size(pending.take(i), sides, fresh + first.1.len());
    }
}

/// Reading an index buffer that is two buffers one after the other gives the
/// triangles of the first followed by those of the second, when the first
/// ends on a whole triangle.
pub proof fn lemma_triples_concat(ia: Seq<u16>, ib: Seq<u16>)
    requires
        ia.len() % 3 == 0,
    ensures
        triples_of(ia + ib) == triples_of(ia) + triples_of(ib),
{
    let k = ia.len() / 3;
    let ab = ia + ib;
    assert(ia.len() == 3 * k);
    assert(ab.len() / 3 == k + ib.len() / 3) by (nonlinear_arith)
        requires
            ab.len() == ia.len() + ib.len(),
            ia.len() == 3 * k,
            k >= 0,
    ;
    let lhs = triples_of(ab);
    let rhs = triples_of(ia) + triples_of(ib);
    assert forall|i: int| 0 <= i < lhs.len() implies lhs[i] == rhs[i] by {
        if i < k {
            assert(3 * i + 2 < ia.len());
        } else {
            let j = i - k;
            assert(3 * i == 3 * j + ia.len());
            assert(3 * j + 2 < ib.len()) by (nonlinear_arith)
                requires
                    0 <= j,
                    j < ib.len() / 3,
            ;
        }
    }
    assert(lhs =~= rhs);
}

/// The corners of two triangle lists one after the other are the corners of
/// the first followed by those of the second.
pub proof fn lemma_corners_concat(a: Seq<Triangle>, b: Seq<Triangle>)
    ensures
        corner_vertices(a + b) == corner_vertices(a) + corner_vertices(b),
    decreases b.len(),
{
    if b.len() == 0 {
        assert(a + b =~= a);
        assert(corner_vertices(b) =~= Seq::<usize>::empty());
        assert(corner_vertices(a) + corner_vertices(b) =~= corner_vertices(a));
    } else {
        let t = b.last();
        assert((a + b).drop_last() =~= a + b.drop_last());
        assert((a + b).last() == t);
        lemma_corners_concat(a, b.drop_last());
        assert(corner_vertices(a) + corner_vertices(b) =~= corner_vertices(a) + corner_vertices(b.drop_last())
            + seq![t.a, t.b, t.c]);
    }
}

/// Reading an index buffer makes one triangle per three indices, whose
/// corners are those indices themselves, in order.
pub proof fn lemma_triples_read_indices(indices: Seq<u16>)
    requires
        indices.len() % 3 == 0,
    ensures
        3 * triples_of(indices).len() == indices.len(),
        forall|i: int|
            0 <= i < triples_of(indices).len() ==> {
                &&& (#[trigger] triples_of(indices)[i]).a as int == indices[3 * i] as int
                &&& triples_of(indices)[i].b as int == indices[3 * i + 1] as int
                &&& triples_of(indices)[i].c as int == indices[3 * i + 2] as int
            },
{
    let n = indices.len() / 3;
    assert(3 * n == indices.len());
    assert forall|i: int| 0 <= i < triples_of(indices).len() implies {
        &&& (#[trigger] triples_of(indices)[i]).a as int == indices[3 * i] as int
        &&& triples_of(indices)[i].b as int == indices[3 * i + 1] as int
        &&& triples_of(indices)[i].c as int == indices[3 * i + 2] as int
    } by {
        assert(3 * i + 2 < indices.len());
    }
}

/// Laying out a triangle list makes three mesh vertices per triangle, and
/// mesh vertex `3 i + k` is corner `k` of the `i`-th triangle.
pub proof fn lemma_corners_in_order(triangles: Seq<Triangle>)
    ensures
        corner_vertices(triangles).len() == 3 * triangles.len(),
        forall|i: int|
            0 <= i < triangles.len() ==> {
                &&& corner_vertices(triangles)[3 * i] == (#[trigger] triangles[i]).a
                &&& corner_vertices(triangles)[3 * i + 1] == triangles[i].b
                &&& corner_vertices(triangles)[3 * i + 2] == triangles[i].c
            },
    decreases triangles.len(),
{
    if triangles.len() > 0 {
        let init = triangles.drop_last();
        lemma_corners_in_order(init);
        let cv = corner_vertices(triangles);
        assert(cv == corner_vertices(init) + seq![triangles.last().a, triangles.last().b, triangles.last().c]);
        assert forall|i: int| 0 <= i < triangles.len() implies {
            &&& corner_vertices(triangles)[3 * i] == (#[trigger] triangles[i]).a
            &&& corner_vertices(triangles)[3 * i + 1] == triangles[i].b
            &&& corner_vertices(triangles)[3 * i + 2] == triangles[i].c
        } by {
            if i < init.len() {
                assert(init[i] == triangles[i]);
            }
        }
    }
}

/// What becomes of a source triangle: one that faces away from the decal is
/// discarded (back faces are removed), and so is one with all corners beyond
/// some face of the box, whether or not the rest of it lies in the box; a
/// triangle that is neither is never discarded; it is kept whole only when it
/// lies in the box, and clipped only when it does not.
pub proof fn lemma_disposition_rules(axis_sides: Seq<Sides>, facing_away: bool, inside_box: bool)
    ensures
        DECAL_REMOVE_BACKFACES && facing_away ==> disposition_of(axis_sides, facing_away, inside_box)
            == Disposition::Discard,
        forall|i: int|
            0 <= i < axis_sides.len() && beyond(#[trigger] axis_sides[i]) ==> disposition_of(
                axis_sides,
                facing_away,
                inside_box,
            ) == Disposition::Discard,
        !facing_away && (forall|i: int| 0 <= i < axis_sides.len() ==> !beyond(#[trigger] axis_sides[i]))
            ==> disposition_of(axis_sides, facing_away, inside_box) != Disposition::Discard,
        disposition_of(axis_sides, facing_away, inside_box) == Disposition::Keep ==> inside_box,
        disposition_of(axis_sides, facing_away, inside_box) == Disposition::Clip ==> !inside_box,
{
}

/// A pass over one triangle is the slice of that triangle (or the triangle
/// itself, where it is left as it is).
pub proof fn lemma_pass_single(t: Triangle, s: Sides, fresh: int)
    ensures
        pass_result(seq![t], seq![s], fresh) == sliced_or_kept(t, s, fresh),
{
    let r = pass_result(seq![t], seq![s], fresh);
    let first = sliced_or_kept(t, s, fresh);
    assert(seq![t].take(0) =~= Seq::<Triangle>::empty());
    let rest = pass_result(seq![t].take(0), seq![s], fresh + first.1.len());
    assert(rest.0.len() == 0 && rest.1.len() == 0);
    assert(r.0 =~= first.0);
    assert(r.1 =~= first.1);
}

/// A pass over two lists one after the other is the pass over the second
/// list followed by the pass over the first, whose new vertices are numbered
/// on after those of the second: every sliced triangle gets new vertices of
/// its own.
pub proof fn lemma_pass_concat(p1: Seq<Triangle>, s1: Seq<Sides>, p2: Seq<Triangle>, s2: Seq<Sides>, fresh: int)
    requires
        s1.len() == p1.len(),
        s2.len() == p2.len(),
    ensures
        ({
            let a = pass_result(p2, s2, fresh);
            let b = pass_result(p1, s1, fresh + a.1.len());
            pass_result(p1 + p2, s1 + s2, fresh) == (a.0 + b.0, a.1 + b.1)
        }),
    decreases p2.len(),
{
    let a = pass_result(p2, s2, fresh);
    if p2.len() == 0 {
        assert(p1 + p2 =~= p1);
        assert(s1 + s2 =~= s1);
        let b = pass_result(p1, s1, fresh);
        assert(a.0 + b.0 =~= b.0);
        assert(a.1 + b.1 =~= b.1);
    } else {
        let n = p1.len() + p2.len();
        let i = n - 1;
        let j = p2.len() - 1;
        let p = p1 + p2;
        let s = s1 + s2;
        assert(p[i] == p2[j]);
        assert(s[i] == s2[j]);
        let first = sliced_or_kept(p2[j], s2[j], fresh);
        let f1 = fresh + first.1.len();
        assert(p.take(i) =~= p1 + p2.take(j));
        lemma_pass_ignores_later_sides(p1 + p2.take(j), s, s1 + s2.take(j), f1);
        lemma_pass_concat(p1, s1, p2.take(j), s2.take(j), f1);
        lemma_pass_ignores_later_sides(p2.take(j), s2, s2.take(j), f1);
        let a2 = pass_result(p2.take(j), s2, f1);
        assert(a.0 == first.0 + a2.0);
        assert(a.1 == first.1 + a2.1);
        let b = pass_result(p1, s1, fresh + a.1.len());
        assert(fresh + a.1.len() == f1 + a2.1.len());
        assert(pass_result(p, s, fresh).0 == first.0 + pass_result(p.take(i), s, f1).0);
        assert(pass_result(p, s, fresh).0 =~= a.0 + b.0);
        assert(pass_result(p, s, fresh).1 =~= a.1 + b.1);
    }
}

/// Every corner of what a pass leaves is an old vertex (numbered below
/// `bound`, as all pending corners are) or one of the new vertices the pass
/// itself made (numbered from `count` on, one per cut).
pub proof fn lemma_pass_new_vertices(pending: Seq<Triangle>, sides: Seq<Sides>, bound: int, count: int)
    requires
        corners_below(pending, bound),
        sides.len() >= pending.len(),
        0 <= bound <= count,
        count + 2 * pending.len() <= usize::MAX,
    ensures
        forall|j: int|
            0 <= j < pass_result(pending, sides, count).0.len() ==> {
                let p = #[trigger] pass_result(pending, sides, count).0[j];
                let top = count + pass_result(pending, sides, count).1.len();
                &&& p.a < bound || (count <= p.a < top)
                &&& p.b < bound || (count <= p.b < top)
                &&& p.c < bound || (count <= p.c < top)
            },
    decreases pending.len(),
{
    if pending.len() > 0 {
        let i = pending.len() - 1;
        let t = pending[i];
        let first = sliced_or_kept(t, sides[i], count);
        lemma_slice_size(t, sides[i], count);
        let n1 = count + first.1.len();
        assert(corners_below(pending.take(i), bound));
        lemma_pass_new_vertices(pending.take(i), sides, bound, n1);
        lemma_pass_size(pending.take(i), sides, n1);
        lemma_pass_numbers_below(pending.take(i), sides, bound, n1);
        let rest = pass_result(pending.take(i), sides, n1);
        let whole = pass_result(pending, sides, count);
        let top = count + whole.1.len();
        assert(whole.0 == first.0 + rest.0);
        assert(whole.1 == first.1 + rest.1);
        assert forall|j: int| 0 <= j < whole.0.len() implies {
            let p = #[trigger] whole.0[j];
            &&& p.a < bound || (count <= p.a < top)
            &&& p.b < bound || (count <= p.b < top)
            &&& p.c < bound || (count <= p.c < top)
        } by {
            if j < first.0.len() {
                assert(whole.0[j] == first.0[j]);
            } else {
                let k = j - first.0.len();
                assert(whole.0[j] == rest.0[k]);
                let p = rest.0[k];
                assert(p.a < bound || (n1 <= p.a < n1 + rest.1.len()));
                assert(p.b < bound || (n1 <= p.b < n1 + rest.1.len()));
                assert(p.c < bound || (n1 <= p.c < n1 + rest.1.len()));
            }
        }
    }
}

/// The triangles of one pass never share new vertices: over two lists one
/// after the other, what is left of the second list uses only new vertices
/// made for it, and what is left of the first only new vertices made after
/// them.
pub proof fn lemma_pass_keeps_new_vertices_apart(
    p1: Seq<Triangle>,
    s1: Seq<Sides>,
    p2: Seq<Triangle>,
    s2: Seq<Sides>,
    count: int,
)
    requires
        s1.len() == p1.len(),
        s2.len() == p2.len(),
        corners_below(p1 + p2, count),
        0 <= count,
        count + 2 * (p1.len() + p2.len()) <= usize::MAX,
    ensures
        ({
            let whole = pass_result(p1 + p2, s1 + s2, count);
            let made = pass_result(p2, s2, count);
            let split = made.0.len();
            let mid = count + made.1.len();
            &&& split <= whole.0.len()
            &&& forall|j: int|
                0 <= j < split ==> {
                    let p = #[trigger] whole.0[j];
                    &&& p.a < mid && p.b < mid && p.c < mid
                }
            &&& forall|j: int|
                split <= j < whole.0.len() ==> {
                    let p = #[trigger] whole.0[j];
                    &&& p.a < count || p.a >= mid
                    &&& p.b < count || p.b >= mid
                    &&& p.c < count || p.c >= mid
                }
        }),
{
    let made = pass_result(p2, s2, count);
    let mid = count + made.1.len();
    lemma_pass_concat(p1, s1, p2, s2, count);
    let later = pass_result(p1, s1, mid);
    let whole = pass_result(p1 + p2, s1 + s2, count);
    assert forall|i: int| 0 <= i < p2.len() implies {
        &&& #[trigger] p2[i].a < count
        &&& p2[i].b < count
        &&& p2[i].c < count
    } by {
        assert(p2[i] == (p1 + p2)[p1.len() + i]);
    }
    assert forall|i: int| 0 <= i < p1.len() implies {
        &&& #[trigger] p1[i].a < count
        &&& p1[i].b < count
        &&& p1[i].c < count
    } by {
        assert(p1[i] == (p1 + p2)[i]);
    }
    assert(corners_below(p2, count));
    assert(corners_below(p1, count));
    lemma_pass_keeps_vertex_numbers(p2, s2, count);
    lemma_pass_size(p2, s2, count);
    lemma_pass_new_vertices(p1, s1, count, mid);
    assert forall|j: int| 0 <= j < made.0.len() implies {
        let p = #[trigger] whole.0[j];
        &&& p.a < mid && p.b < mid && p.c < mid
    } by {
        assert(whole.0[j] == made.0[j]);
    }
    assert forall|j: int| made.0.len() <= j < whole.0.len() implies {
        let p = #[trigger] whole.0[j];
        &&& p.a < count || p.a >= mid
        &&& p.b < count || p.b >= mid
        &&& p.c < count || p.c >= mid
    } by {
        assert(whole.0[j] == later.0[j - made.0.len()]);
    }
}

/// `cut` joins vertices `x` and `y`, in either direction.
pub open spec fn joins(cut: Cut, x: usize, y: usize) -> bool {
    (cut.from == x && cut.to == y) || (cut.from == y && cut.to == x)
}

/// The new vertices that the first two cuts (numbered `fresh`, `fresh + 1`)
/// put on the edge between `x` and `y`, in the order of their numbers.
pub open spec fn points_on(cuts: Seq<Cut>, fresh: int, x: usize, y: usize) -> Seq<usize> {
    (if cuts.len() > 0 && joins(cuts[0], x, y) { seq![fresh as usize] } else { Seq::<usize>::empty() }) + (
    if cuts.len() > 1 && joins(cuts[1], x, y) {
        seq![(fresh + 1) as usize]
    } else {
        Seq::<usize>::empty()
    })
}

/// The outline of triangle `t` walked `a`, `b`, `c`, with each new vertex of
/// `cuts` placed on the edge it cuts.
pub open spec fn outline(t: Triangle, cuts: Seq<Cut>, fresh: int) -> Seq<usize> {
    seq![t.a] + points_on(cuts, fresh, t.a, t.b) + seq![t.b] + points_on(cuts, fresh, t.b, t.c) + seq![t.c]
        + points_on(cuts, fresh, t.c, t.a)
}

/// The corners of `p`, read in order, appear in the same cyclic order along `poly`:
/// `p` winds the same way as `poly`.
pub open spec fn winds_along(poly: Seq<usize>, p: Triangle) -> bool {
    exists|i: int, j: int, k: int|
        #![trigger poly[i], poly[j], poly[k]]
        0 <= i < j < k < poly.len() && {
            ||| (poly[i] == p.a && poly[j] == p.b && poly[k] == p.c)
            ||| (poly[i] == p.b && poly[j] == p.c && poly[k] == p.a)
            ||| (poly[i] == p.c && poly[j] == p.a && poly[k] == p.b)
        }
}

proof fn lemma_winds_at(poly: Seq<usize>, p: Triangle, i: int, j: int, k: int)
    requires
        0 <= i < j < k < poly.len(),
        (poly[i] == p.a && poly[j] == p.b && poly[k] == p.c) || (poly[i] == p.b && poly[j] == p.c && poly[k]
            == p.a) || (poly[i] == p.c && poly[j] == p.a && poly[k] == p.b),
    ensures
        winds_along(poly, p),
{
}

/// Slicing keeps the winding: every triangle a slice leaves winds the same way
/// as the sliced triangle, its corners lying in order along the triangle's
/// outline with the new vertices placed on the edges they cut.
pub proof fn lemma_slice_keeps_winding(t: Triangle, s: Sides, fresh: int)
    requires
        t.a != t.b && t.b != t.c && t.c != t.a,
        t.a < fresh && t.b < fresh && t.c < fresh,
        0 <= fresh < usize::MAX,
    ensures
        forall|i: int|
            0 <= i < sliced_or_kept(t, s, fresh).0.len() ==> winds_along(
                outline(t, sliced_or_kept(t, s, fresh).1, fresh),
                #[trigger] sliced_or_kept(t, s, fresh).0[i],
            ),
{
    let r = sliced_or_kept(t, s, fresh);
    let poly = outline(t, r.1, fresh);
    let f = fresh as usize;
    let g = (fresh + 1) as usize;
    let oa = s.a == Side::Outside;
    let ob = s.b == Side::Outside;
    let oc = s.c == Side::Outside;
    if slice_result(t, s, fresh) is None {
        assert(poly =~= seq![t.a, t.b, t.c]);
        lemma_winds_at(poly, t, 0, 1, 2);
    } else if !reaches_inside(s) {
        assert(r.0.len() == 0);
    } else if !oa && ob && oc {
        assert(poly =~= seq![t.a, f, t.b, t.c, g]);
        lemma_winds_at(poly, r.0[0], 0, 1, 4);
    } else if oa && !ob && oc {
        assert(poly =~= seq![t.a, g, t.b, f, t.c]);
        lemma_winds_at(poly, r.0[0], 1, 2, 3);
    } else if oa && ob && !oc {
        assert(poly =~= seq![t.a, t.b, g, t.c, f]);
        lemma_winds_at(poly, r.0[0], 2, 3, 4);
    } else if oa && !ob && !oc {
        assert(poly =~= seq![t.a, f, t.b, t.c, g]);
        lemma_winds_at(poly, r.0[0], 2, 3, 4);
        lemma_winds_at(poly, r.0[1], 1, 2, 4);
    } else if !oa && ob && !oc {
        assert(poly =~= seq![t.a, g, t.b, f, t.c]);
        lemma_winds_at(poly, r.0[0], 0, 1, 4);
        lemma_winds_at(poly, r.0[1], 1, 3, 4);
    } else {
        assert(poly =~= seq![t.a, t.b, g, t.c, f]);
        lemma_winds_at(poly, r.0[0], 0, 1, 2);
        lemma_winds_at(poly, r.0[1], 0, 2, 4);
    }
}

/// `x` is a corner of some triangle of `pieces`.
pub open spec fn used_in(pieces: Seq<Triangle>, x: usize) -> bool {
    exists|i: int| 0 <= i < pieces.len() && (#[trigger] pieces[i].a == x || pieces[i].b == x || pieces[i].c == x)
}

proof fn lemma_used_at(pieces: Seq<Triangle>, i: int, x: usize)
    requires
        0 <= i < pieces.len(),
        pieces[i].a == x || pieces[i].b == x || pieces[i].c == x,
    ensures
        used_in(pieces, x),
{
}

/// Slicing loses nothing that is inside: when some corner of the triangle is
/// strictly inside the face, every corner inside the face or on it, and both
/// new vertices the slice makes, are corners of some piece it leaves.
pub proof fn lemma_slice_keeps_inner_corners(t: Triangle, s: Sides, fresh: int)
    requires
        decided(s),
        reaches_inside(s),
        0 <= fresh < usize::MAX,
    ensures
        forall|k: int|
            0 <= k < 3 && side_of(s, k) != Side::Outside ==> used_in(
                sliced_or_kept(t, s, fresh).0,
                #[trigger] corner_of(t, k),
            ),
        sliced_or_kept(t, s, fresh).1.len() > 0 ==> used_in(sliced_or_kept(t, s, fresh).0, fresh as usize),
        sliced_or_kept(t, s, fresh).1.len() > 1 ==> used_in(sliced_or_kept(t, s, fresh).0, (fresh + 1) as usize),
{
    let r = sliced_or_kept(t, s, fresh);
    let f = fresh as usize;
    let g = (fresh + 1) as usize;
    lemma_slice_size(t, s, fresh);
    assert(r.0.len() > 0);
    let p = r.0[0];
    assert forall|k: int| 0 <= k < 3 && side_of(s, k) != Side::Outside implies used_in(r.0, #[trigger] corner_of(t, k)) by {
        let x = corner_of(t, k);
        if p.a == x || p.b == x || p.c == x {
            lemma_used_at(r.0, 0, x);
        } else {
            lemma_used_at(r.0, 1, x);
        }
    }
    if r.1.len() > 0 {
        if p.a == f || p.b == f || p.c == f {
            lemma_used_at(r.0, 0, f);
        } else {
            lemma_used_at(r.0, 1, f);
        }
        if p.a == g || p.b == g || p.c == g {
            lemma_used_at(r.0, 0, g);
        } else {
            lemma_used_at(r.0, 1, g);
        }
    }
}

} // verus!
