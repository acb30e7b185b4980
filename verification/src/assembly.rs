use vstd::prelude::*;

use crate::clip::{corners_below, Clipper, Disposition, Triangle, BOX_FACES};

verus! {

/// The triangle list of a decal, built one source triangle at a time in the
/// order of the source mesh's index buffer. Vertices are numbered in the
/// order they are made: three for each source triangle that is not
/// discarded, then the new vertices of its clipping.
pub struct DecalBuilder {
    triangles: Vec<Triangle>,
    vertex_count: usize,
}

/// The decal built so far as values: its triangles and how many vertices are numbered.
pub struct DecalBuilderView {
    pub triangles: Seq<Triangle>,
    pub vertex_count: nat,
}

impl View for DecalBuilder {
    type V = DecalBuilderView;

    closed spec fn view(&self) -> DecalBuilderView {
        DecalBuilderView { triangles: self.triangles@, vertex_count: self.vertex_count as nat }
    }
}

impl DecalBuilderView {
    /// Every corner of the decal names a vertex that exists.
    pub open spec fn valid(self) -> bool {
        corners_below(self.triangles, self.vertex_count as int)
    }
}

/// The triangle whose corners are the three vertices numbered from `first` on.
pub open spec fn source_corners(first: nat) -> Triangle {
    Triangle { a: first as usize, b: (first + 1) as usize, c: (first + 2) as usize }
}

impl DecalBuilder {
    /// An empty decal, with no vertex numbered.
    pub fn new() -> (r: DecalBuilder)
        ensures
            r@.triangles == Seq::<Triangle>::empty(),
            r@.vertex_count == 0,
            r@.valid(),
    {
        DecalBuilder { triangles: Vec::new(), vertex_count: 0 }
    }

    /// The triangles of the decal so far.
    pub fn triangles(&self) -> (r: &Vec<Triangle>)
        ensures
            r@ == self@.triangles,
    {
        &self.triangles
    }

    /// How many vertices are numbered so far.
    pub fn vertex_count(&self) -> (r: usize)
        ensures
            r == self@.vertex_count,
    {
        self.vertex_count
    }

    /// Takes the next source triangle, with what becomes of it. A discarded
    /// one changes nothing. Otherwise its three corners become the next three
    /// vertices; one kept whole is appended as it is, and for one to be clipped
    /// the result is a `Clipper` that starts from it and numbers on from them.
    pub fn add_source(&mut self, disposition: Disposition) -> (r: Option<Clipper>)
        requires
            old(self)@.vertex_count + 3 <= usize::MAX,
        ensures
            disposition == Disposition::Discard ==> r is None && final(self)@ == old(self)@,
            disposition == Disposition::Keep ==> {
                &&& r is None
                &&& final(self)@.triangles == old(self)@.triangles.push(source_corners(old(self)@.vertex_count))
                &&& final(self)@.triangles.last().a == old(self)@.vertex_count
                &&& final(self)@.triangles.last().b == old(self)@.vertex_count + 1
                &&& final(self)@.triangles.last().c == old(self)@.vertex_count + 2
                &&& final(self)@.vertex_count == old(self)@.vertex_count + 3
            },
            disposition == Disposition::Clip ==> {
                &&& final(self)@.triangles == old(self)@.triangles
                &&& final(self)@.vertex_count == old(self)@.vertex_count + 3
                &&& r matches Some(c) && {
                    &&& c@.pending == seq![source_corners(old(self)@.vertex_count)]
                    &&& c@.pending[0].a == old(self)@.vertex_count
                    &&& c@.pending[0].b == old(self)@.vertex_count + 1
                    &&& c@.pending[0].c == old(self)@.vertex_count + 2
                    &&& c@.cuts.len() == 0
                    &&& c@.vertex_count == old(self)@.vertex_count + 3
                    &&& c@.faces_passed == 0
                    &&& c@.valid()
                }
            },
            old(self)@.valid() ==> final(self)@.valid(),
    {
        let first = self.vertex_count;
        let whole = Triangle { a: first, b: first + 1, c: first + 2 };
        match disposition {
            Disposition::Discard => None,
            Disposition::Keep => {
                self.triangles.push(whole);
                self.vertex_count = first + 3;
                None
            },
            Disposition::Clip => {
                self.vertex_count = first + 3;
                Some(Clipper::new(whole, first + 3))
            },
        }
    }

    /// Appends what clipping a source triangle against every face of the box
    /// left, in the order the clipper ends with, and takes on its vertex numbering.
    pub fn add_clipped(&mut self, clipper: Clipper)
        requires
            clipper@.faces_passed == BOX_FACES,
            clipper@.vertex_count >= old(self)@.vertex_count,
        ensures
            final(self)@.triangles == old(self)@.triangles + clipper@.pending.reverse(),
            final(self)@.vertex_count == clipper@.vertex_count,
            old(self)@.valid() && clipper@.valid() ==> final(self)@.valid(),
    {
        let ghost pieces = clipper@.pending;
        let ghost was_valid = self@.valid() && clipper@.valid();
        let ghost before = self.triangles@;
        let ghost old_count = self.vertex_count;
        let count = clipper.vertex_count();
        let mut rest = clipper.finish();
        self.triangles.append(&mut rest);
        self.vertex_count = count;
        proof {
            if was_valid {
                let all = self.triangles@;
                assert forall|i: int| 0 <= i < all.len() implies {
                    &&& #[trigger] all[i].a < count
                    &&& all[i].b < count
                    &&& all[i].c < count
                } by {
                    assert(all == before + pieces.reverse());
                    if i < before.len() {
                        assert(all[i] == before[i]);
                        assert(before[i].a < old_count && before[i].b < old_count && before[i].c < old_count);
                    } else {
                        let j = i - before.len();
                        let k = pieces.len() - 1 - j;
                        assert(all[i] == pieces.reverse()[j]);
                        assert(pieces.reverse()[j] == pieces[k]);
                        assert(pieces[k].a < count && pieces[k].b < count && pieces[k].c < count);
                    }
                }
            }
        }
    }
}

} // verus!
