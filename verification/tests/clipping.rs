use bevy_mesh_decal::{disposition, slice, Clipper, Cut, Disposition, Face, Side, Sides, Triangle, BOX_FACES};

const I: Side = Side::Inside;
const O: Side = Side::Outside;
const F: Side = Side::OnFace;
const U: Side = Side::Undecided;

fn sides(a: Side, b: Side, c: Side) -> Sides {
    Sides { a, b, c }
}

fn tri(a: usize, b: usize, c: usize) -> Triangle {
    Triangle { a, b, c }
}

fn cut(from: usize, to: usize) -> Cut {
    Cut { from, to }
}

fn run_slice(s: Sides) -> (bool, Vec<Triangle>, Vec<Cut>) {
    let mut triangles = Vec::new();
    let mut cuts = Vec::new();
    let sliced = slice(tri(10, 11, 12), s, 20, &mut triangles, &mut cuts);
    (sliced, triangles, cuts)
}

#[test]
fn slice_drops_triangle_beyond_face() {
    assert_eq!(run_slice(sides(O, O, O)), (true, vec![], vec![]));
}

#[test]
fn slice_keeps_tip_of_first_corner() {
    assert_eq!(
        run_slice(sides(I, O, O)),
        (true, vec![tri(10, 20, 21)], vec![cut(10, 11), cut(10, 12)])
    );
}

#[test]
fn slice_keeps_tip_of_second_corner() {
    assert_eq!(
        run_slice(sides(O, I, O)),
        (true, vec![tri(11, 20, 21)], vec![cut(11, 12), cut(11, 10)])
    );
}

#[test]
fn slice_keeps_tip_of_third_corner() {
    assert_eq!(
        run_slice(sides(O, O, I)),
        (true, vec![tri(12, 20, 21)], vec![cut(12, 10), cut(12, 11)])
    );
}

#[test]
fn slice_keeps_quad_without_first_corner() {
    assert_eq!(
        run_slice(sides(O, I, I)),
        (true, vec![tri(11, 12, 21), tri(11, 21, 20)], vec![cut(10, 11), cut(10, 12)])
    );
}

#[test]
fn slice_keeps_quad_without_second_corner() {
    assert_eq!(
        run_slice(sides(I, O, I)),
        (true, vec![tri(12, 10, 21), tri(12, 21, 20)], vec![cut(11, 12), cut(11, 10)])
    );
}

#[test]
fn slice_keeps_quad_without_third_corner() {
    assert_eq!(
        run_slice(sides(I, I, O)),
        (true, vec![tri(10, 11, 21), tri(10, 21, 20)], vec![cut(12, 10), cut(12, 11)])
    );
}

#[test]
fn slice_leaves_inside_triangle() {
    assert_eq!(run_slice(sides(I, I, I)), (false, vec![], vec![]));
}

#[test]
fn slice_leaves_triangle_not_reaching_beyond_face() {
    assert_eq!(run_slice(sides(F, F, F)), (false, vec![], vec![]));
    assert_eq!(run_slice(sides(F, I, I)), (false, vec![], vec![]));
    assert_eq!(run_slice(sides(I, F, F)), (false, vec![], vec![]));
}

#[test]
fn slice_leaves_triangle_with_undecided_corner() {
    assert_eq!(run_slice(sides(U, O, I)), (false, vec![], vec![]));
    assert_eq!(run_slice(sides(O, O, U)), (false, vec![], vec![]));
    assert_eq!(run_slice(sides(U, U, U)), (false, vec![], vec![]));
}

#[test]
fn slice_drops_triangle_touching_face_from_beyond() {
    assert_eq!(run_slice(sides(F, O, O)), (true, vec![], vec![]));
    assert_eq!(run_slice(sides(O, F, O)), (true, vec![], vec![]));
    assert_eq!(run_slice(sides(F, F, O)), (true, vec![], vec![]));
}

#[test]
fn slice_counts_corner_on_face_as_inside() {
    // One corner on the face, one inside, one beyond: the part inside is kept
    // as with two corners inside.
    assert_eq!(
        run_slice(sides(F, I, O)),
        (true, vec![tri(10, 11, 21), tri(10, 21, 20)], vec![cut(12, 10), cut(12, 11)])
    );
    assert_eq!(
        run_slice(sides(O, F, I)),
        (true, vec![tri(11, 12, 21), tri(11, 21, 20)], vec![cut(10, 11), cut(10, 12)])
    );
    assert_eq!(run_slice(sides(I, F, O)), run_slice(sides(I, I, O)));
}

#[test]
fn slice_appends_after_earlier_pieces() {
    let mut triangles = vec![tri(0, 1, 2)];
    let mut cuts = vec![cut(0, 1)];
    assert!(slice(tri(3, 4, 5), sides(I, O, O), 7, &mut triangles, &mut cuts));
    assert_eq!(triangles, vec![tri(0, 1, 2), tri(3, 7, 8)]);
    assert_eq!(cuts, vec![cut(0, 1), cut(3, 4), cut(3, 5)]);
}

fn inside(n: usize) -> Vec<Sides> {
    vec![sides(I, I, I); n]
}

#[test]
fn clipper_starts_with_its_triangle() {
    let c = Clipper::new(tri(0, 1, 2), 3);
    assert_eq!(c.pending(), &vec![tri(0, 1, 2)]);
    assert!(c.cuts().is_empty());
    assert_eq!(c.vertex_count(), 3);
    assert_eq!(c.next_face(), Some(Face::PosX));
}

#[test]
fn clipper_visits_faces_in_order() {
    let mut c = Clipper::new(tri(0, 1, 2), 3);
    let mut order = Vec::new();
    while let Some(face) = c.next_face() {
        order.push(face);
        let n = c.pending().len();
        c.clip_against(&inside(n));
    }
    assert_eq!(order, vec![Face::PosX, Face::PosY, Face::PosZ, Face::NegX, Face::NegY, Face::NegZ]);
    assert_eq!(order.len(), BOX_FACES);
    assert_eq!(c.finish(), vec![tri(0, 1, 2)]);
}

#[test]
fn clipper_pass_numbers_new_vertices() {
    let mut c = Clipper::new(tri(0, 1, 2), 3);
    c.clip_against(&vec![sides(I, I, O)]);
    assert_eq!(c.pending(), &vec![tri(0, 1, 4), tri(0, 4, 3)]);
    assert_eq!(c.cuts(), &vec![cut(2, 0), cut(2, 1)]);
    assert_eq!(c.vertex_count(), 5);
    assert_eq!(c.next_face(), Some(Face::PosY));
}

#[test]
fn clipper_pass_takes_pending_from_last() {
    let mut c = Clipper::new(tri(0, 1, 2), 3);
    c.clip_against(&vec![sides(I, I, O)]);
    // pending: (0,1,4), (0,4,3); the last is sliced first.
    c.clip_against(&vec![sides(I, I, I), sides(O, I, O)]);
    assert_eq!(c.pending(), &vec![tri(4, 5, 6), tri(0, 1, 4)]);
    assert_eq!(c.cuts(), &vec![cut(4, 3), cut(4, 0)]);
    assert_eq!(c.vertex_count(), 7);
    for _ in 0..4 {
        c.clip_against(&inside(2));
        assert!(c.cuts().is_empty());
    }
    assert_eq!(c.next_face(), None);
    assert_eq!(c.pending(), &vec![tri(4, 5, 6), tri(0, 1, 4)]);
    assert_eq!(c.finish(), vec![tri(0, 1, 4), tri(4, 5, 6)]);
}

#[test]
fn clipper_pass_drops_outside_pieces() {
    let mut c = Clipper::new(tri(0, 1, 2), 3);
    c.clip_against(&vec![sides(O, O, O)]);
    assert!(c.pending().is_empty());
    assert!(c.cuts().is_empty());
    assert_eq!(c.vertex_count(), 3);
    for _ in 1..BOX_FACES {
        c.clip_against(&vec![]);
    }
    assert!(c.finish().is_empty());
}

#[test]
fn clipper_drops_triangle_touching_face_from_beyond() {
    let mut c = Clipper::new(tri(0, 1, 2), 3);
    c.clip_against(&inside(1));
    c.clip_against(&vec![sides(F, O, O)]);
    assert!(c.pending().is_empty());
    assert_eq!(c.vertex_count(), 3);
}

#[test]
fn clipper_inside_every_face_keeps_triangle() {
    let mut c = Clipper::new(tri(5, 6, 7), 8);
    for _ in 0..BOX_FACES {
        let n = c.pending().len();
        c.clip_against(&vec![sides(I, F, I); n]);
        assert!(c.cuts().is_empty());
    }
    assert_eq!(c.vertex_count(), 8);
    assert_eq!(c.finish(), vec![tri(5, 6, 7)]);
}

#[test]
fn clipper_finish_reverses_pending() {
    let mut c = Clipper::new(tri(0, 1, 2), 3);
    c.clip_against(&vec![sides(O, I, I)]);
    assert_eq!(c.pending(), &vec![tri(1, 2, 4), tri(1, 4, 3)]);
    for _ in 1..BOX_FACES {
        c.clip_against(&inside(2));
    }
    // Each pass over triangles wholly inside reverses their order; five did.
    assert_eq!(c.pending(), &vec![tri(1, 4, 3), tri(1, 2, 4)]);
    assert_eq!(c.finish(), vec![tri(1, 2, 4), tri(1, 4, 3)]);
}

#[test]
fn disposition_discards_triangle_beyond_some_face() {
    let axes = vec![sides(I, I, I), sides(O, O, O), sides(I, I, I)];
    assert_eq!(disposition(&axes, false, false), Disposition::Discard);
    assert_eq!(disposition(&axes, false, true), Disposition::Discard);
}

#[test]
fn disposition_discards_back_faces() {
    let axes = vec![sides(I, O, O); 6];
    assert_eq!(disposition(&axes, true, true), Disposition::Discard);
}

#[test]
fn disposition_keeps_triangle_inside_box() {
    let axes = vec![sides(I, I, I); 6];
    assert_eq!(disposition(&axes, false, true), Disposition::Keep);
}

#[test]
fn disposition_clips_triangle_crossing_box() {
    let axes = vec![sides(I, O, O), sides(I, I, I), sides(F, O, O), sides(U, O, O)];
    assert_eq!(disposition(&axes, false, false), Disposition::Clip);
}
