//! Enemy steering: when an enemy turns toward the player in a frame, and when
//! the frame leaves it alone.

use vstd::prelude::*;

verus! {

/// One enemy's frame. `player` and `enemy_at` are the positions of the two
/// in the world, where the frame can resolve them; `bearing_to` gives the
/// horizontal direction from the first position to the second, or nothing
/// where the two lie above each other; `steer` turns and pushes an enemy
/// along a bearing. The enemy is left as it is when a position is missing or
/// when there is no bearing, and is steered along the bearing otherwise.
pub fn enemy_follows_player<P, B, E, FB: Fn(P, P) -> Option<B>, FS: Fn(E, B) -> E>(
    player: Option<P>,
    enemy_at: Option<P>,
    enemy: E,
    bearing_to: FB,
    steer: FS,
) -> (next: E)
    requires
        player is Some && enemy_at is Some ==> bearing_to.requires((enemy_at->0, player->0)),
        player is Some && enemy_at is Some ==> forall|b: B|
            bearing_to.ensures((enemy_at->0, player->0), Some(b)) ==> steer.requires((enemy, b)),
    ensures
        player is None || enemy_at is None ==> next == enemy,
        player is Some && enemy_at is Some && (forall|b: B|
            !bearing_to.ensures((enemy_at->0, player->0), Some(b))) ==> next == enemy,
        player is Some && enemy_at is Some ==> exists|bearing: Option<B>|
            {
                &&& #[trigger] bearing_to.ensures((enemy_at->0, player->0), bearing)
                &&& match bearing {
                    None => next == enemy,
                    Some(b) => steer.ensures((enemy, b), next),
                }
            },
{
    match (player, enemy_at) {
        (Some(to), Some(from)) => {
            match bearing_to(from, to) {
                Some(bearing) => steer(enemy, bearing),
                None => enemy,
            }
        },
        _ => enemy,
    }
}

} // verus!
