use syzygy::ice::transform::Transform;

#[test]
fn compose_with_inverse_is_identity() {
    let id = Transform::identity();
    let mut all = Vec::new();
    let mut t = id;
    for _ in 0..4 {
        all.push(t);
        all.push(t.flipped_horz());
        t = t.rotated_cw();
    }
    assert_eq!(all.len(), 8);
    for &t in all.iter() {
        assert_eq!(t.compose(t.inverse()), id);
        assert_eq!(t.inverse().compose(t), id);
    }
}

#[test]
fn four_quarter_turns_are_identity() {
    let id = Transform::identity();
    assert_eq!(id.rotated_cw().rotated_cw().rotated_cw().rotated_cw(), id);
    assert_ne!(id.rotated_cw(), id);
    assert_ne!(id.rotated_cw().rotated_cw(), id);
    let f = id.flipped_vert();
    assert_eq!(f.rotated_cw().rotated_cw().rotated_cw().rotated_cw(), f);
}

#[test]
fn flips_are_involutions() {
    let id = Transform::identity();
    assert_eq!(id.flipped_horz().flipped_horz(), id);
    assert_eq!(id.flipped_vert().flipped_vert(), id);
    assert_eq!(id.flipped_horz().flipped_vert(), id.rotated_cw().rotated_cw());
    assert_eq!(id.rotated_cw().rotated_ccw(), id);
    assert!(id.flipped_horz().is_mirrored());
    assert_eq!(id.rotated_cw().quarter_turns(), 1);
}
