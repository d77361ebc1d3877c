//! The colour rule: which of the three channels a visited point feeds.

use vstd::prelude::*;
use crate::double::Double;

verus! {

/// The three distances between the seed `c`, the visited point `z` and the
/// running mean `m` of the orbit so far.
#[derive(Clone, Copy, Debug, PartialEq, Eq, Structural)]
pub struct Distances {
    /// From the seed to the visited point.
    pub seed_to_point: Double,
    /// From the visited point to the running mean.
    pub point_to_mean: Double,
    /// From the seed to the running mean.
    pub seed_to_mean: Double,
}

/// `d` is strictly greater than both `a` and `b`.
pub open spec fn strictly_longest(d: Double, a: Double, b: Double) -> bool {
    d.exceeds(a) && d.exceeds(b)
}

/// The channel that the distances select: 0 where seed-to-point is
/// strictly the longest, 1 where point-to-mean is, 2 where seed-to-mean is,
/// and none where no distance is strictly longer than both others.
pub open spec fn longest_channel(d: Distances) -> Option<usize> {
    if strictly_longest(d.seed_to_point, d.point_to_mean, d.seed_to_mean) {
        Some(0usize)
    } else if strictly_longest(d.point_to_mean, d.seed_to_point, d.seed_to_mean) {
        Some(1usize)
    } else if strictly_longest(d.seed_to_mean, d.seed_to_point, d.point_to_mean) {
        Some(2usize)
    } else {
        None
    }
}

/// Picks the channel of the strictly longest of the three distances.
pub fn classify(d: &Distances) -> (channel: Option<usize>)
    ensures
        channel == longest_channel(*d),
        channel matches Some(c) ==> c < 3,
{
    if d.seed_to_point.gt(d.point_to_mean) && d.seed_to_point.gt(d.seed_to_mean) {
        Some(0)
    } else if d.point_to_mean.gt(d.seed_to_point) && d.point_to_mean.gt(d.seed_to_mean) {
        Some(1)
    } else if d.seed_to_mean.gt(d.seed_to_point) && d.seed_to_mean.gt(d.point_to_mean) {
        Some(2)
    } else {
        None
    }
}

/// The three channels exclude one another: a channel is selected exactly
/// when its distance is strictly the longest, so at most one is, and a
/// distance that only ties for the longest selects none.
pub proof fn lemma_channels_exclusive(d: Distances)
    ensures
        longest_channel(d) == Some(0usize) <==> strictly_longest(
            d.seed_to_point,
            d.point_to_mean,
            d.seed_to_mean,
        ),
        longest_channel(d) == Some(1usize) <==> strictly_longest(
            d.point_to_mean,
            d.seed_to_point,
            d.seed_to_mean,
        ),
        longest_channel(d) == Some(2usize) <==> strictly_longest(
            d.seed_to_mean,
            d.seed_to_point,
            d.point_to_mean,
        ),
        longest_channel(d) matches Some(c) ==> c < 3,
{
}

/// Three equal distances select no channel.
pub proof fn lemma_tie_selects_nothing(d: Distances)
    requires
        d.seed_to_point == d.point_to_mean,
        d.point_to_mean == d.seed_to_mean,
    ensures
        longest_channel(d) is None,
{
}

} // verus!
