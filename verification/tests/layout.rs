use bevy_mesh_decal::{index_triples, layout_mesh, Decalable, Triangle, DECAL_MAX_PER_ENTITY};

#[test]
fn index_triples_reads_three_by_three() {
    let t = index_triples(&vec![0, 1, 2, 2, 1, 3]);
    assert_eq!(t, vec![Triangle { a: 0, b: 1, c: 2 }, Triangle { a: 2, b: 1, c: 3 }]);
    assert!(index_triples(&vec![]).is_empty());
}

#[test]
fn layout_of_no_triangle_is_none() {
    assert!(layout_mesh(&vec![]).is_none());
}

#[test]
fn layout_lists_every_corner() {
    let m = layout_mesh(&vec![Triangle { a: 4, b: 9, c: 2 }, Triangle { a: 9, b: 4, c: 7 }]).unwrap();
    assert_eq!(m.corners, vec![4, 9, 2, 9, 4, 7]);
    assert_eq!(m.indices, vec![0, 1, 2, 3, 4, 5]);
}

#[test]
fn layout_of_largest_list() {
    let n = 21845;
    let triangles = vec![Triangle { a: 0, b: 1, c: 2 }; n];
    let m = layout_mesh(&triangles).unwrap();
    assert_eq!(m.indices.len(), 3 * n);
    assert_eq!(*m.indices.last().unwrap(), 65534);
    assert_eq!(m.corners.len(), 3 * n);
}

#[test]
fn decalable_starts_empty() {
    let d = Decalable::default();
    assert_eq!(d.applied(), 0);
    assert!(d.has_room());
    assert_eq!(d.next_layer(), Some(1));
}

#[test]
fn decalable_layers_count_up_to_limit() {
    let mut d = Decalable::default();
    for n in 1..=DECAL_MAX_PER_ENTITY {
        assert_eq!(d.next_layer(), Some(n));
        d.record_decal();
        assert_eq!(d.applied(), n);
    }
    assert_eq!(DECAL_MAX_PER_ENTITY, 16);
    assert!(!d.has_room());
    assert_eq!(d.next_layer(), None);
    assert_eq!(d.applied(), 16);
}
