use bevy_mesh_decal::{
    index_triples, layout_mesh, DecalBuilder, Disposition, Side, Sides, Triangle, BOX_FACES,
};

fn tri(a: usize, b: usize, c: usize) -> Triangle {
    Triangle { a, b, c }
}

fn all(side: Side, n: usize) -> Vec<Sides> {
    vec![Sides { a: side, b: side, c: side }; n]
}

#[test]
fn builder_starts_empty() {
    let b = DecalBuilder::new();
    assert!(b.triangles().is_empty());
    assert_eq!(b.vertex_count(), 0);
}

#[test]
fn builder_skips_discarded_triangle() {
    let mut b = DecalBuilder::new();
    assert!(b.add_source(Disposition::Discard).is_none());
    assert!(b.triangles().is_empty());
    assert_eq!(b.vertex_count(), 0);
}

#[test]
fn builder_numbers_kept_triangles_in_order() {
    let mut b = DecalBuilder::new();
    assert!(b.add_source(Disposition::Keep).is_none());
    assert!(b.add_source(Disposition::Discard).is_none());
    assert!(b.add_source(Disposition::Keep).is_none());
    assert_eq!(b.triangles(), &vec![tri(0, 1, 2), tri(3, 4, 5)]);
    assert_eq!(b.vertex_count(), 6);
}

#[test]
fn builder_appends_clipped_pieces_after_earlier_ones() {
    let mut b = DecalBuilder::new();
    assert!(b.add_source(Disposition::Keep).is_none());
    let mut c = b.add_source(Disposition::Clip).unwrap();
    assert_eq!(b.vertex_count(), 6);
    assert_eq!(c.pending(), &vec![tri(3, 4, 5)]);
    assert_eq!(c.vertex_count(), 6);
    c.clip_against(&vec![Sides { a: Side::Inside, b: Side::Outside, c: Side::Outside }]);
    assert_eq!(c.pending(), &vec![tri(3, 6, 7)]);
    for _ in 1..BOX_FACES {
        c.clip_against(&all(Side::Inside, 1));
    }
    b.add_clipped(c);
    assert_eq!(b.triangles(), &vec![tri(0, 1, 2), tri(3, 6, 7)]);
    assert_eq!(b.vertex_count(), 8);
    let m = layout_mesh(b.triangles()).unwrap();
    assert_eq!(m.corners, vec![0, 1, 2, 3, 6, 7]);
    assert_eq!(m.indices, vec![0, 1, 2, 3, 4, 5]);
}

#[test]
fn index_triples_of_concatenation() {
    let ia: Vec<u16> = vec![0, 1, 2, 2, 1, 3];
    let ib: Vec<u16> = vec![4, 5, 6];
    let mut iab = ia.clone();
    iab.extend(ib.iter().copied());
    let mut expected = index_triples(&ia);
    expected.extend(index_triples(&ib));
    assert_eq!(index_triples(&iab), expected);
}

#[test]
fn layout_corners_of_concatenation() {
    let a = vec![tri(0, 1, 2)];
    let b = vec![tri(5, 4, 3), tri(6, 7, 8)];
    let mut ab = a.clone();
    ab.extend(b.iter().copied());
    let mut expected = layout_mesh(&a).unwrap().corners;
    expected.extend(layout_mesh(&b).unwrap().corners);
    assert_eq!(layout_mesh(&ab).unwrap().corners, expected);
}
