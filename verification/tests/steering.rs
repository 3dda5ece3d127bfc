use float_me_pls::steering::enemy_follows_player;

fn bearing_to(from: (f64, f64), to: (f64, f64)) -> Option<(f64, f64)> {
    let (dx, dz) = (to.0 - from.0, to.1 - from.1);
    let length = (dx * dx + dz * dz).sqrt();
    if length > 0.0 {
        Some((dx / length, dz / length))
    } else {
        None
    }
}

fn push(enemy: (f64, f64), bearing: (f64, f64)) -> (f64, f64) {
    (enemy.0 + bearing.0 * 10.0, enemy.1 + bearing.1 * 10.0)
}

#[test]
fn enemy_is_steered_along_the_bearing() {
    let next = enemy_follows_player(Some((3.0, 4.0)), Some((0.0, 0.0)), (1.0, 1.0), bearing_to, push);
    assert_eq!(next, (7.0, 9.0));
}

#[test]
fn enemy_at_the_players_place_is_left_alone() {
    let next = enemy_follows_player(Some((2.0, 2.0)), Some((2.0, 2.0)), (1.0, 1.0), bearing_to, push);
    assert_eq!(next, (1.0, 1.0));
    assert!(!next.0.is_nan() && !next.1.is_nan());
}

#[test]
fn missing_player_leaves_the_enemy_alone() {
    let next = enemy_follows_player(None, Some((0.0, 0.0)), (1.0, 1.0), bearing_to, push);
    assert_eq!(next, (1.0, 1.0));
}

#[test]
fn missing_enemy_position_leaves_the_enemy_alone() {
    let next = enemy_follows_player(Some((3.0, 4.0)), None, (1.0, 1.0), bearing_to, push);
    assert_eq!(next, (1.0, 1.0));
}

#[test]
fn bearing_runs_from_the_enemy_to_the_player() {
    let next = enemy_follows_player(
        Some(5i32),
        Some(2i32),
        0i32,
        |from: i32, to: i32| if from == to { None } else { Some(to - from) },
        |enemy: i32, bearing: i32| enemy + bearing,
    );
    assert_eq!(next, 3);
}
