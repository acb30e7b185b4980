use vstd::prelude::*;

verus! {

/// Where a vertex lies with respect to one face of the decal box, measured
/// as the distance along the face's outward axis compared with one.
#[derive(Clone, Copy, PartialEq, Eq, Structural, Debug)]
pub enum Side {
    /// The distance is below one: the vertex is on the inner side of the face.
    Inside,
    /// The distance is above one: the vertex is beyond the face.
    Outside,
    /// The distance is exactly one: the vertex lies on the face. For slicing
    /// it counts as inside.
    OnFace,
    /// The distance does not compare with one (it is not a number).
    Undecided,
}

/// The sides of the three corners of a triangle, in corner order.
#[derive(Clone, Copy, PartialEq, Eq, Structural, Debug)]
pub struct Sides {
    pub a: Side,
    pub b: Side,
    pub c: Side,
}

/// A triangle whose corners are vertex numbers; the winding is `a`, `b`, `c`.
#[derive(Clone, Copy, PartialEq, Eq, Structural, Debug)]
pub struct Triangle {
    pub a: usize,
    pub b: usize,
    pub c: usize,
}

/// A new vertex on the edge from vertex `from` to vertex `to`, where the face
/// crosses it: `from` interpolated towards `to` by `(1 - f_from) / (f_to - f_from)`.
#[derive(Clone, Copy, PartialEq, Eq, Structural, Debug)]
pub struct Cut {
    pub from: usize,
    pub to: usize,
}

/// The same triangle with its corners renamed one step: `b` becomes the first corner.
pub open spec fn rotated(t: Triangle) -> Triangle {
    Triangle { a: t.b, b: t.c, c: t.a }
}

/// When only corner `a` is inside: the triangle from `a` to the two points where
/// the face crosses the edges `a`-`b` (new vertex `fresh`) and `a`-`c`
/// (new vertex `fresh + 1`).
pub open spec fn tip_piece(t: Triangle, fresh: int) -> (Seq<Triangle>, Seq<Cut>) {
    (
        seq![Triangle { a: t.a, b: fresh as usize, c: (fresh + 1) as usize }],
        seq![Cut { from: t.a, to: t.b }, Cut { from: t.a, to: t.c }],
    )
}

/// When only corner `a` is beyond the face: the two triangles covering the
/// quadrilateral `b`, `c`, then the crossings of `a`-`c` (new vertex
/// `fresh + 1`) and of `a`-`b` (new vertex `fresh`).
pub open spec fn quad_pieces(t: Triangle, fresh: int) -> (Seq<Triangle>, Seq<Cut>) {
    (
        seq![
            Triangle { a: t.b, b: t.c, c: (fresh + 1) as usize },
            Triangle { a: t.b, b: (fresh + 1) as usize, c: fresh as usize },
        ],
        seq![Cut { from: t.a, to: t.b }, Cut { from: t.a, to: t.c }],
    )
}

/// No corner of the triangle has an undecided side.
pub open spec fn decided(s: Sides) -> bool {
    s.a != Side::Undecided && s.b != Side::Undecided && s.c != Side::Undecided
}

/// Some corner of the triangle lies beyond the face.
pub open spec fn reaches_beyond(s: Sides) -> bool {
    s.a == Side::Outside || s.b == Side::Outside || s.c == Side::Outside
}

/// Some corner of the triangle lies strictly inside the face.
pub open spec fn reaches_inside(s: Sides) -> bool {
    s.a == Side::Inside || s.b == Side::Inside || s.c == Side::Inside
}

/// What slicing a triangle against one face yields, when it does: the pieces
/// that replace it and the new vertices they need, numbered from `fresh` on.
/// A corner on the face counts as inside. A triangle with a corner beyond the
/// face is sliced; when no corner is strictly inside, nothing of it is left.
/// `None` when the triangle is left as it is: no corner beyond the face, or
/// some corner undecided.
pub open spec fn slice_result(t: Triangle, s: Sides, fresh: int) -> Option<(Seq<Triangle>, Seq<Cut>)> {
    if !decided(s) || !reaches_beyond(s) {
        None
    } else if !reaches_inside(s) {
        Some((seq![], seq![]))
    } else {
        match (s.a == Side::Outside, s.b == Side::Outside, s.c == Side::Outside) {
            (false, true, true) => Some(tip_piece(t, fresh)),
            (true, false, true) => Some(tip_piece(rotated(t), fresh)),
            (true, true, false) => Some(tip_piece(rotated(rotated(t)), fresh)),
            (true, false, false) => Some(quad_pieces(t, fresh)),
            (false, true, false) => Some(quad_pieces(rotated(t), fresh)),
            _ => Some(quad_pieces(rotated(rotated(t)), fresh)),
        }
    }
}

fn push_tip_piece(t: Triangle, fresh: usize, triangles: &mut Vec<Triangle>, cuts: &mut Vec<Cut>)
    requires
        fresh < usize::MAX,
    ensures
        final(triangles)@ == old(triangles)@ + tip_piece(t, fresh as int).0,
        final(cuts)@ == old(cuts)@ + tip_piece(t, fresh as int).1,
{
    cuts.push(Cut { from: t.a, to: t.b });
    cuts.push(Cut { from: t.a, to: t.c });
    triangles.push(Triangle { a: t.a, b: fresh, c: fresh + 1 });
}

fn push_quad_pieces(t: Triangle, fresh: usize, triangles: &mut Vec<Triangle>, cuts: &mut Vec<Cut>)
    requires
        fresh < usize::MAX,
    ensures
        final(triangles)@ == old(triangles)@ + quad_pieces(t, fresh as int).0,
        final(cuts)@ == old(cuts)@ + quad_pieces(t, fresh as int).1,
{
    cuts.push(Cut { from: t.a, to: t.b });
    cuts.push(Cut { from: t.a, to: t.c });
    triangles.push(Triangle { a: t.b, b: t.c, c: fresh + 1 });
    triangles.push(Triangle { a: t.b, b: fresh + 1, c: fresh });
}

/// Slices `triangle` against one face of the decal box, given the sides of
/// its corners; a corner on the face counts as inside. A triangle with a
/// corner beyond the face and none undecided is sliced: the pieces that
/// replace it are appended to `triangles`, the new vertices they use
/// (numbered `fresh`, `fresh + 1`) to `cuts`, and the result is `true`; when
/// no corner is strictly inside, nothing of it is left. A triangle with no
/// corner beyond the face, or with an undecided corner, is left as it is:
/// nothing is appended and the result is `false`.
pub fn slice(
    triangle: Triangle,
    sides: Sides,
    fresh: usize,
    triangles: &mut Vec<Triangle>,
    cuts: &mut Vec<Cut>,
) -> (sliced: bool)
    requires
        fresh < usize::MAX,
    ensures
        sliced == slice_result(triangle, sides, fresh as int) is Some,
        match slice_result(triangle, sides, fresh as int) {
            Some(r) => final(triangles)@ == old(triangles)@ + r.0 && final(cuts)@ == old(cuts)@ + r.1,
            None => final(triangles)@ == old(triangles)@ && final(cuts)@ == old(cuts)@,
        },
{
    let t = triangle;
    let r = Triangle { a: t.b, b: t.c, c: t.a };
    let rr = Triangle { a: t.c, b: t.a, c: t.b };
    if sides.a == Side::Undecided || sides.b == Side::Undecided || sides.c == Side::Undecided {
        return false;
    }
    let out_a = sides.a == Side::Outside;
    let out_b = sides.b == Side::Outside;
    let out_c = sides.c == Side::Outside;
    if !(out_a || out_b || out_c) {
        return false;
    }
    if !(sides.a == Side::Inside || sides.b == Side::Inside || sides.c == Side::Inside) {
        assert(triangles@ == triangles@ + Seq::<Triangle>::empty());
        assert(cuts@ == cuts@ + Seq::<Cut>::empty());
        return true;
    }
    match (out_a, out_b, out_c) {
        (false, true, true) => push_tip_piece(t, fresh, triangles, cuts),
        (true, false, true) => push_tip_piece(r, fresh, triangles, cuts),
        (true, true, false) => push_tip_piece(rr, fresh, triangles, cuts),
        (true, false, false) => push_quad_pieces(t, fresh, triangles, cuts),
        (false, true, false) => push_quad_pieces(r, fresh, triangles, cuts),
        _ => push_quad_pieces(rr, fresh, triangles, cuts),
    }
    true
}

/// What one triangle becomes against one face: its slice result, or the
/// triangle itself where it is left as it is.
pub open spec fn sliced_or_kept(t: Triangle, s: Sides, fresh: int) -> (Seq<Triangle>, Seq<Cut>) {
    match slice_result(t, s, fresh) {
        Some(r) => r,
        None => (seq![t], seq![]),
    }
}

/// One pass of the clipping against one face: the pending triangles are taken
/// from the last to the first (`sides[i]` holds the sides of `pending[i]`), and
/// what each becomes is appended in that order; new vertices are numbered on
/// from `fresh` in the order they are made.
pub open spec fn pass_result(pending: Seq<Triangle>, sides: Seq<Sides>, fresh: int) -> (Seq<Triangle>, Seq<Cut>)
    decreases pending.len(),
{
    if pending.len() == 0 {
        (seq![], seq![])
    } else {
        let i = pending.len() - 1;
        let first = sliced_or_kept(pending[i], sides[i], fresh);
        let rest = pass_result(pending.take(i), sides, fresh + first.1.len());
        (first.0 + rest.0, first.1 + rest.1)
    }
}

/// Every corner of every triangle is a vertex numbered below `count`.
pub open spec fn corners_below(triangles: Seq<Triangle>, count: int) -> bool {
    forall|i: int|
        0 <= i < triangles.len() ==> {
            &&& #[trigger] triangles[i].a < count
            &&& triangles[i].b < count
            &&& triangles[i].c < count
        }
}

/// Both ends of every cut are vertices numbered below `count`.
pub open spec fn cut_ends_below(cuts: Seq<Cut>, count: int) -> bool {
    forall|i: int| 0 <= i < cuts.len() ==> #[trigger] cuts[i].from < count && cuts[i].to < count
}

/// A face of the decal box, named by its outward axis.
#[derive(Clone, Copy, PartialEq, Eq, Structural, Debug)]
pub enum Face {
    PosX,
    PosY,
    PosZ,
    NegX,
    NegY,
    NegZ,
}

/// How many faces the decal box has.
pub const BOX_FACES: usize = 6;

/// The order in which a triangle is clipped against the faces of the box.
pub open spec fn face_order(i: int) -> Face {
    if i == 0 {
        Face::PosX
    } else if i == 1 {
        Face::PosY
    } else if i == 2 {
        Face::PosZ
    } else if i == 3 {
        Face::NegX
    } else if i == 4 {
        Face::NegY
    } else {
        Face::NegZ
    }
}

/// The state of clipping one triangle to the decal box, one face at a time,
/// in `face_order`, until every face is passed. Between passes the caller
/// computes the sides of the pending triangles' corners against the face that
/// `next_face` names and makes the vertices that the latest pass's cuts ask
/// for, numbering them on from the vertex count before it.
pub struct Clipper {
    pending: Vec<Triangle>,
    cuts: Vec<Cut>,
    vertex_count: usize,
    faces_passed: usize,
}

/// The clipping state as values: the pending triangles, the cuts of the latest
/// pass, how many vertices are numbered so far (the cuts included), and how
/// many faces of the box, in `face_order`, the triangle has been clipped against.
pub struct ClipperView {
    pub pending: Seq<Triangle>,
    pub cuts: Seq<Cut>,
    pub vertex_count: nat,
    pub faces_passed: nat,
}

impl View for Clipper {
    type V = ClipperView;

    closed spec fn view(&self) -> ClipperView {
        ClipperView {
            pending: self.pending@,
            cuts: self.cuts@,
            vertex_count: self.vertex_count as nat,
            faces_passed: self.faces_passed as nat,
        }
    }
}

/// The most triangles that clipping one triangle against `passes` faces
/// leaves: each pass at most doubles them.
pub open spec fn max_pieces(passes: nat) -> nat
    decreases passes,
{
    if passes == 0 {
        1
    } else {
        2 * max_pieces((passes - 1) as nat)
    }
}

impl ClipperView {
    /// Every pending corner and every cut end names an existing vertex, the
    /// cuts' new vertices are the last ones numbered, and the pending
    /// triangles are no more than the passes so far can have made.
    pub open spec fn valid(self) -> bool {
        &&& corners_below(self.pending, self.vertex_count as int)
        &&& self.pending.len() <= max_pieces(self.faces_passed)
        &&& self.cuts.len() <= self.vertex_count
        &&& cut_ends_below(self.cuts, self.vertex_count - self.cuts.len())
    }
}

impl Clipper {
    /// Starts clipping `triangle`, whose corners are among the first
    /// `vertex_count` vertices.
    pub fn new(triangle: Triangle, vertex_count: usize) -> (r: Clipper)
        requires
            triangle.a < vertex_count,
            triangle.b < vertex_count,
            triangle.c < vertex_count,
        ensures
            r@.pending == seq![triangle],
            r@.cuts == Seq::<Cut>::empty(),
            r@.vertex_count == vertex_count,
            r@.faces_passed == 0,
            r@.valid(),
    {
        let mut pending = Vec::new();
        pending.push(triangle);
        Clipper { pending, cuts: Vec::new(), vertex_count, faces_passed: 0 }
    }

    /// The face to clip against next, in `face_order`; `None` once the
    /// triangle has been clipped against every face of the box.
    pub fn next_face(&self) -> (r: Option<Face>)
        ensures
            r == (if self@.faces_passed < BOX_FACES { Some(face_order(self@.faces_passed as int)) } else { None::<Face> }),
    {
        match self.faces_passed {
            0 => Some(Face::PosX),
            1 => Some(Face::PosY),
            2 => Some(Face::PosZ),
            3 => Some(Face::NegX),
            4 => Some(Face::NegY),
            5 => Some(Face::NegZ),
            _ => None,
        }
    }

    /// The triangles still to be clipped, or the result so far.
    pub fn pending(&self) -> (r: &Vec<Triangle>)
        ensures
            r@ == self@.pending,
    {
        &self.pending
    }

    /// The new vertices that the latest pass asked for, in the order of their numbers.
    pub fn cuts(&self) -> (r: &Vec<Cut>)
        ensures
            r@ == self@.cuts,
    {
        &self.cuts
    }

    /// How many vertices are numbered so far.
    pub fn vertex_count(&self) -> (r: usize)
        ensures
            r == self@.vertex_count,
    {
        self.vertex_count
    }

    /// Clips every pending triangle against the next face, given `sides[i]`,
    /// the sides of the corners of the `i`-th pending triangle against that face.
    pub fn clip_against(&mut self, sides: &Vec<Sides>)
        requires
            old(self)@.faces_passed < BOX_FACES,
            sides@.len() == old(self)@.pending.len(),
            old(self)@.vertex_count + 2 * old(self)@.pending.len() <= usize::MAX,
        ensures
            final(self)@.pending == pass_result(old(self)@.pending, sides@, old(self)@.vertex_count as int).0,
            final(self)@.cuts == pass_result(old(self)@.pending, sides@, old(self)@.vertex_count as int).1,
            final(self)@.vertex_count == old(self)@.vertex_count + final(self)@.cuts.len(),
            final(self)@.faces_passed == old(self)@.faces_passed + 1,
            final(self)@.pending.len() <= 2 * old(self)@.pending.len(),
            old(self)@.valid() ==> final(self)@.valid(),
    {
        let ghost was_valid = self@.valid();
        let mut pending: Vec<Triangle> = Vec::new();
        std::mem::swap(&mut pending, &mut self.pending);
        let ghost whole = pending@;
        let ghost n0 = self.vertex_count as int;
        let mut output: Vec<Triangle> = Vec::new();
        let mut cuts: Vec<Cut> = Vec::new();
        let mut count = self.vertex_count;
        while pending.len() > 0
            invariant
                sides@.len() == whole.len(),
                pending.len() <= whole.len(),
                pending@ == whole.take(pending.len() as int),
                count == n0 + cuts@.len(),
                cuts@.len() <= 2 * (whole.len() - pending.len()),
                n0 + 2 * whole.len() <= usize::MAX,
                pass_result(whole, sides@, n0).0 == output@ + pass_result(pending@, sides@, count as int).0,
                pass_result(whole, sides@, n0).1 == cuts@ + pass_result(pending@, sides@, count as int).1,
            decreases pending.len(),
        {
            let ghost before = pending@;
            let ghost out0 = output@;
            let ghost cuts0 = cuts@;
            let t = pending.pop().unwrap();
            let i = pending.len();
            assert(pending@ == before.take(i as int));
            assert(before.take(i as int) == whole.take(i as int));
            let made = cuts.len();
            if !slice(t, sides[i], count, &mut output, &mut cuts) {
                output.push(t);
            }
            proof {
                let first = sliced_or_kept(before[i as int], sides@[i as int], count as int);
                assert(output@ == out0 + first.0);
                assert(cuts@ == cuts0 + first.1);
                assert(first.1.len() <= 2);
                assert(pass_result(before, sides@, count as int).0
                    == first.0 + pass_result(pending@, sides@, count + first.1.len()).0);
                assert(out0 + (first.0 + pass_result(pending@, sides@, count + first.1.len()).0)
                    == output@ + pass_result(pending@, sides@, count + first.1.len()).0);
                assert(cuts0 + (first.1 + pass_result(pending@, sides@, count + first.1.len()).1)
                    == cuts@ + pass_result(pending@, sides@, count + first.1.len()).1);
            }
            count = count + (cuts.len() - made);
        }
        proof {
            crate::laws::lemma_pass_size(whole, sides@, n0);
            if was_valid {
                crate::laws::lemma_pass_keeps_vertex_numbers(whole, sides@, n0);
                assert(max_pieces((self.faces_passed + 1) as nat) == 2 * max_pieces(self.faces_passed as nat));
            }
        }
        assert(output@ + Seq::<Triangle>::empty() == output@);
        assert(cuts@ + Seq::<Cut>::empty() == cuts@);
        self.pending = output;
        self.cuts = cuts;
        self.vertex_count = count;
        self.faces_passed = self.faces_passed + 1;
    }

    /// Ends the clipping, once the triangle has been clipped against every
    /// face of the box: the pending triangles, last first.
    pub fn finish(self) -> (r: Vec<Triangle>)
        requires
            self@.faces_passed == BOX_FACES,
        ensures
            r@ == self@.pending.reverse(),
            self@.valid() ==> r@.len() <= 64,
    {
        proof {
            reveal_with_fuel(max_pieces, 7);
        }
        let mut pending = self.pending;
        let ghost whole = pending@;
        let mut result: Vec<Triangle> = Vec::new();
        while pending.len() > 0
            invariant
                pending.len() <= whole.len(),
                pending@ == whole.take(pending.len() as int),
                result@ == whole.skip(pending.len() as int).reverse(),
            decreases pending.len(),
        {
            let ghost before = pending@;
            let t = pending.pop().unwrap();
            result.push(t);
            assert(pending@ == whole.take(pending.len() as int));
            assert(result@ =~= whole.skip(pending.len() as int).reverse());
        }
        assert(whole.skip(0) =~= whole);
        result
    }
}


/// Whether triangles whose averaged normal faces away from the decal are
/// left undecorated; when this is `false` both sides of a mesh take the decal.
pub const DECAL_REMOVE_BACKFACES: bool = true;

/// Every corner of the triangle lies beyond the face.
pub open spec fn beyond(s: Sides) -> bool {
    s.a == Side::Outside && s.b == Side::Outside && s.c == Side::Outside
}

/// What becomes of one triangle of the decorated mesh.
#[derive(Clone, Copy, PartialEq, Eq, Structural, Debug)]
pub enum Disposition {
    /// The decal does not cover it.
    Discard,
    /// It lies in the decal box as a whole and is taken unchanged.
    Keep,
    /// It is clipped to the decal box face by face.
    Clip,
}

/// What becomes of a triangle, given its corners' sides against each face of
/// the decal box, whether its averaged normal faces away from the decal, and
/// whether all its corners lie in the closed box.
pub open spec fn disposition_of(axis_sides: Seq<Sides>, facing_away: bool, inside_box: bool) -> Disposition {
    if exists|i: int| 0 <= i < axis_sides.len() && beyond(#[trigger] axis_sides[i]) {
        Disposition::Discard
    } else if DECAL_REMOVE_BACKFACES && facing_away {
        Disposition::Discard
    } else if inside_box {
        Disposition::Keep
    } else {
        Disposition::Clip
    }
}

/// Decides what becomes of a triangle: discarded when some face of the box
/// has all three corners beyond it, or when it faces away from the decal;
/// otherwise kept whole when it lies inside the box, and clipped when not.
pub fn disposition(axis_sides: &Vec<Sides>, facing_away: bool, inside_box: bool) -> (r: Disposition)
    ensures
        r == disposition_of(axis_sides@, facing_away, inside_box),
{
    let mut i: usize = 0;
    while i < axis_sides.len()
        invariant
            i <= axis_sides.len(),
            forall|j: int| 0 <= j < i ==> !beyond(#[trigger] axis_sides@[j]),
        decreases axis_sides.len() - i,
    {
        let s = axis_sides[i];
        if let (Side::Outside, Side::Outside, Side::Outside) = (s.a, s.b, s.c) {
            assert(beyond(axis_sides@[i as int]));
            return Disposition::Discard;
        }
        i = i + 1;
    }
    if DECAL_REMOVE_BACKFACES && facing_away {
        Disposition::Discard
    } else if inside_box {
        Disposition::Keep
    } else {
        Disposition::Clip
    }
}

} // verus!
