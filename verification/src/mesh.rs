use vstd::prelude::*;

use crate::clip::Triangle;

verus! {

/// The triangles that a triangle-list index buffer lists, three indices each.
pub open spec fn triples_of(indices: Seq<u16>) -> Seq<Triangle> {
    Seq::new(
        indices.len() / 3,
        |i: int| Triangle { a: indices[3 * i] as usize, b: indices[3 * i + 1] as usize, c: indices[3 * i + 2] as usize },
    )
}

/// Reads a triangle-list index buffer: consecutive indices, three by three,
/// are the corners of one triangle.
pub fn index_triples(indices: &Vec<u16>) -> (r: Vec<Triangle>)
    requires
        indices@.len() % 3 == 0,
    ensures
        r@ == triples_of(indices@),
        3 * r@.len() == indices@.len(),
        forall|i: int|
            0 <= i < r@.len() ==> {
                &&& (#[trigger] r@[i]).a as int == indices@[3 * i] as int
                &&& r@[i].b as int == indices@[3 * i + 1] as int
                &&& r@[i].c as int == indices@[3 * i + 2] as int
            },
{
    let mut r: Vec<Triangle> = Vec::new();
    let mut j: usize = 0;
    while j < indices.len()
        invariant
            indices@.len() % 3 == 0,
            j % 3 == 0,
            j <= indices@.len(),
            r@.len() == j / 3,
            forall|i: int| 0 <= i < r@.len() ==> #[trigger] r@[i] == triples_of(indices@)[i],
        decreases indices.len() - j,
    {
        let t = Triangle { a: indices[j] as usize, b: indices[j + 1] as usize, c: indices[j + 2] as usize };
        assert(t == triples_of(indices@)[j as int / 3]);
        r.push(t);
        j = j + 3;
    }
    assert(r@ =~= triples_of(indices@));
    proof {
        crate::laws::lemma_triples_read_indices(indices@);
    }
    r
}

/// The vertex of each corner of a triangle list, three per triangle in corner order.
pub open spec fn corner_vertices(triangles: Seq<Triangle>) -> Seq<usize>
    decreases triangles.len(),
{
    if triangles.len() == 0 {
        seq![]
    } else {
        let t = triangles.last();
        corner_vertices(triangles.drop_last()) + seq![t.a, t.b, t.c]
    }
}

/// A triangle list laid out for a mesh: mesh vertex `k` is vertex
/// `corners[k]`, and the index buffer lists the mesh vertices in order.
pub struct MeshLayout {
    pub corners: Vec<usize>,
    pub indices: Vec<u16>,
}

/// Lays out `triangles` as an unindexed triangle list: every corner its own
/// mesh vertex, and the index buffer `0, 1, 2, ...`. `None` when there is no
/// triangle. The index buffer holds 16-bit indices that do not wrap, so the
/// list has at most 21845 triangles.
pub fn layout_mesh(triangles: &Vec<Triangle>) -> (r: Option<MeshLayout>)
    requires
        3 * triangles@.len() <= u16::MAX,
    ensures
        r is None <==> triangles@.len() == 0,
        r matches Some(m) ==> {
            &&& m.corners@ == corner_vertices(triangles@)
            &&& m.corners@.len() == 3 * triangles@.len()
            &&& forall|i: int|
                0 <= i < triangles@.len() ==> {
                    &&& m.corners@[3 * i] == (#[trigger] triangles@[i]).a
                    &&& m.corners@[3 * i + 1] == triangles@[i].b
                    &&& m.corners@[3 * i + 2] == triangles@[i].c
                }
            &&& m.indices@.len() == 3 * triangles@.len()
            &&& forall|k: int| 0 <= k < m.indices@.len() ==> #[trigger] m.indices@[k] == k
        },
{
    let mut corners: Vec<usize> = Vec::new();
    let mut indices: Vec<u16> = Vec::new();
    let mut index: u16 = 0;
    let mut i: usize = 0;
    while i < triangles.len()
        invariant
            3 * triangles@.len() <= u16::MAX,
            i <= triangles@.len(),
            index == 3 * i,
            corners@ == corner_vertices(triangles@.take(i as int)),
            corners@.len() == 3 * i,
            indices@.len() == index,
            forall|k: int| 0 <= k < indices@.len() ==> #[trigger] indices@[k] == k,
        decreases triangles.len() - i,
    {
        let t = triangles[i];
        corners.push(t.a);
        corners.push(t.b);
        corners.push(t.c);
        indices.push(index);
        index = index + 1;
        indices.push(index);
        index = index + 1;
        indices.push(index);
        index = index + 1;
        assert(triangles@.take(i + 1).drop_last() =~= triangles@.take(i as int));
        i = i + 1;
    }
    assert(triangles@.take(i as int) =~= triangles@);
    proof {
        crate::laws::lemma_corners_in_order(triangles@);
    }
    if corners.len() == 0 {
        None
    } else {
        Some(MeshLayout { corners, indices })
    }
}

} // verus!
