//! The snapshot behind a trailing pose: each frame a pose is blended toward
//! the pose that the frame before came in with.

use vstd::prelude::*;

verus! {

/// What a smoothed entity remembers between frames: the pose that the last
/// update was given, before any blending, or nothing before the first
/// update. `T` is the pose; how two poses blend is the caller's to say.
#[derive(Debug)]
pub struct DelayedTransform<T> {
    previous: Option<T>,
}

impl<T> View for DelayedTransform<T> {
    type V = Option<T>;

    closed spec fn view(&self) -> Option<T> {
        self.previous
    }
}

impl<T> Default for DelayedTransform<T> {
    /// The state before the first update: no snapshot.
    fn default() -> (fresh: Self)
        ensures
            fresh@ == None::<T>,
    {
        DelayedTransform { previous: None }
    }
}

impl<T: Copy> DelayedTransform<T> {
    /// Whether an update has been seen, so that the next one blends.
    pub fn is_steady(&self) -> (steady: bool)
        ensures
            steady == self@.is_some(),
    {
        self.previous.is_some()
    }

    /// The snapshot that the next update blends toward, if there is one.
    pub fn previous(&self) -> (snapshot: Option<T>)
        ensures
            snapshot == self@,
    {
        self.previous
    }
}

/// One update. `current` is the pose as the frame left it, and `blend`
/// takes a pose and the snapshot to blend it toward. The first update has no
/// snapshot and gives `current` back as it is; every later one gives the
/// blend of `current` toward the pose that the update before was given. The
/// snapshot kept for the next update is `current` itself, not the blend.
pub fn update_delayed_transform<T: Copy, F: Fn(T, T) -> T>(
    delay: &mut DelayedTransform<T>,
    current: T,
    blend: F,
) -> (output: T)
    requires
        old(delay)@ matches Some(previous) ==> blend.requires((current, previous)),
    ensures
        final(delay)@ == Some(current),
        match old(delay)@ {
            None => output == current,
            Some(previous) => blend.ensures((current, previous), output),
        },
{
    let output = match delay.previous {
        None => current,
        Some(previous) => blend(current, previous),
    };
    delay.previous = Some(current);
    output
}

/// The snapshot held after a run of updates, one for each pose of `inputs`,
/// from the snapshot `start`.
pub open spec fn snapshot_after<T>(start: Option<T>, inputs: Seq<T>) -> Option<T>
    decreases inputs.len(),
{
    if inputs.len() == 0 {
        start
    } else {
        snapshot_after(Some(inputs[0]), inputs.skip(1))
    }
}

/// The pose that update number `k` of a run blends toward (the first update
/// is number zero), the run starting with no snapshot.
pub open spec fn blend_target<T>(inputs: Seq<T>, k: int) -> Option<T> {
    snapshot_after(None, inputs.take(k))
}

/// The snapshot trails by exactly one frame: the first update of a run
/// blends toward nothing, and every later one toward the pose that the
/// update before it was given.
pub proof fn lemma_snapshot_trails_one_frame<T>(inputs: Seq<T>, k: int)
    requires
        0 <= k < inputs.len(),
    ensures
        blend_target(inputs, k) == if k == 0 {
            None
        } else {
            Some(inputs[k - 1])
        },
{
    lemma_snapshot_is_last(None, inputs.take(k));
}

/// What update number `k` of a run gives back, the run starting with no
/// snapshot and `blend` saying how a pose blends toward a snapshot.
pub open spec fn smoothed<T>(inputs: Seq<T>, blend: spec_fn(T, T) -> T, k: int) -> T {
    match blend_target(inputs, k) {
        None => inputs[k],
        Some(previous) => blend(inputs[k], previous),
    }
}

/// The first update of a run gives its input back, whatever the blend.
pub proof fn lemma_first_output_is_input<T>(inputs: Seq<T>, blend: spec_fn(T, T) -> T)
    requires
        inputs.len() > 0,
    ensures
        smoothed(inputs, blend, 0) == inputs[0],
{
    lemma_snapshot_trails_one_frame(inputs, 0);
}

/// Every later update gives the blend of its input toward the input of the
/// update before it: the lag is one frame and does not build up.
pub proof fn lemma_later_output_blends_one_frame_back<T>(
    inputs: Seq<T>,
    blend: spec_fn(T, T) -> T,
    k: int,
)
    requires
        1 <= k < inputs.len(),
    ensures
        smoothed(inputs, blend, k) == blend(inputs[k], inputs[k - 1]),
{
    lemma_snapshot_trails_one_frame(inputs, k);
}

/// With a constant input, and a blend that leaves a pose blended toward
/// itself as it is, every update gives the input back: the output never
/// leaves the input, on either side.
pub proof fn lemma_constant_input_is_kept<T>(
    inputs: Seq<T>,
    blend: spec_fn(T, T) -> T,
    pose: T,
    k: int,
)
    requires
        0 <= k < inputs.len(),
        forall|i: int| 0 <= i < inputs.len() ==> inputs[i] == pose,
        blend(pose, pose) == pose,
    ensures
        smoothed(inputs, blend, k) == pose,
{
    lemma_snapshot_trails_one_frame(inputs, k);
}

/// After a run of updates the snapshot is the last pose given.
proof fn lemma_snapshot_is_last<T>(start: Option<T>, inputs: Seq<T>)
    ensures
        snapshot_after(start, inputs) == if inputs.len() == 0 {
            start
        } else {
            Some(inputs.last())
        },
    decreases inputs.len(),
{
    if inputs.len() > 0 {
        lemma_snapshot_is_last(Some(inputs[0]), inputs.skip(1));
    }
}

} // verus!
