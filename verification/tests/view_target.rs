use float_me_pls::view_target::place_view_target;

fn along_x(distance: f32) -> (f32, f32, f32) {
    (1.0 + distance, 2.0, 3.0)
}

#[test]
fn marker_goes_to_the_hit() {
    let placed = place_view_target((0.0, 0.0, 0.0), Some(4.5), along_x);
    assert_eq!(placed, (5.5, 2.0, 3.0));
}

#[test]
fn marker_stays_without_a_hit() {
    let placed = place_view_target((9.0, 8.0, 7.0), None, along_x);
    assert_eq!(placed, (9.0, 8.0, 7.0));
}

#[test]
fn clamped_marker_keeps_its_least_distance() {
    let clamped = |distance: f32| along_x(distance.max(2.0));
    assert_eq!(place_view_target((0.0, 0.0, 0.0), Some(0.5), clamped), (3.0, 2.0, 3.0));
    assert_eq!(place_view_target((0.0, 0.0, 0.0), Some(6.0), clamped), (7.0, 2.0, 3.0));
}
