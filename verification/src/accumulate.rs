//! The trajectory accumulator: every point that an orbit visits before it
//! escapes leaves a mark on the histogram, if it falls inside the window.

use vstd::prelude::*;
use crate::bounds::int_is_bounded;
use crate::classify::{classify, longest_channel, Distances};
use crate::double::Double;
use crate::histogram::{
    bumped, counter_index, in_window, lemma_counter_index_in_buffer, lemma_increments_commute,
    valid_dimensions, Histogram,
};
use crate::orbit::{steps_allowed, SampleMandelbrotResult};

verus! {

/// One visited point of an orbit, as the accumulator sees it.
#[derive(Clone, Copy, Debug)]
pub struct OrbitVisit {
    /// The distance of the point from the origin.
    pub norm: Double,
    /// The pixel that the point maps to, inside the window or not.
    pub pixel: (i32, i32),
    /// The distances that decide the colour channel.
    pub distances: Distances,
}

/// The inclusion policy: an escaping orbit is drawn where escaping orbits
/// are included, a bounded one where bounded orbits are.
pub open spec fn should_be_drawn(
    escaped: bool,
    include_escaping: bool,
    include_nonescaping: bool,
) -> bool {
    (escaped && include_escaping) || (!escaped && include_nonescaping)
}

/// The visited point lies strictly outside the escape radius.
pub open spec fn leaves_radius(visit: OrbitVisit, escape_radius: Double) -> bool {
    visit.norm.exceeds(escape_radius)
}

/// The counters after a visit inside the escape radius was plotted. A
/// visit outside the window changes nothing. With three channels the
/// colour rule picks the counter, and a tie picks none; with one channel
/// the pixel's only counter takes the increment.
pub open spec fn plotted(
    counters: Seq<u8>,
    visit: OrbitVisit,
    width: i32,
    height: i32,
    channels: usize,
    count_scale: u8,
) -> Seq<u8> {
    let (x, y) = visit.pixel;
    if !in_window(x as int, y as int, width as int, height as int) {
        counters
    } else if channels == 3 {
        match longest_channel(visit.distances) {
            Some(channel) => bumped(
                counters,
                counter_index(x as int, y as int, channel as int, width as int, channels as int),
                count_scale,
            ),
            None => counters,
        }
    } else {
        bumped(
            counters,
            counter_index(x as int, y as int, 0, width as int, channels as int),
            count_scale,
        )
    }
}

/// The counters after a trajectory was accumulated: its visits are plotted
/// in order, up to the first that leaves the escape radius, which is not
/// plotted itself.
pub open spec fn accumulated(
    counters: Seq<u8>,
    visits: Seq<OrbitVisit>,
    escape_radius: Double,
    width: i32,
    height: i32,
    channels: usize,
    count_scale: u8,
) -> Seq<u8>
    decreases visits.len(),
{
    if visits.len() == 0 || leaves_radius(visits[0], escape_radius) {
        counters
    } else {
        accumulated(
            plotted(counters, visits[0], width, height, channels, count_scale),
            visits.skip(1),
            escape_radius,
            width,
            height,
            channels,
            count_scale,
        )
    }
}

/// Whether the orbit of a sampled seed is to be drawn at all.
pub fn should_draw(
    sample: &SampleMandelbrotResult,
    include_escaping: bool,
    include_nonescaping: bool,
) -> (drawn: bool)
    ensures
        drawn == should_be_drawn(sample.escaped, include_escaping, include_nonescaping),
{
    (sample.escaped && include_escaping) || ((!sample.escaped) && include_nonescaping)
}

/// Handles one visited point. A point outside the escape radius ends the
/// trajectory: nothing is plotted and the answer is `false`. Any other
/// point is plotted if its pixel lies in the window, and the answer is
/// `true`: go on to the next step.
pub fn plot_visit(
    screen_data: &mut Histogram,
    visit: &OrbitVisit,
    escape_radius: Double,
    count_scale: u8,
) -> (go_on: bool)
    ensures
        final(screen_data).spec_width() == old(screen_data).spec_width(),
        final(screen_data).spec_height() == old(screen_data).spec_height(),
        final(screen_data).spec_channels() == old(screen_data).spec_channels(),
        go_on == !leaves_radius(*visit, escape_radius),
        final(screen_data)@ == if leaves_radius(*visit, escape_radius) {
            old(screen_data)@
        } else {
            plotted(
                old(screen_data)@,
                *visit,
                old(screen_data).spec_width(),
                old(screen_data).spec_height(),
                old(screen_data).spec_channels(),
                count_scale,
            )
        },
{
    if visit.norm.gt(escape_radius) {
        return false;
    }
    let width: i32 = screen_data.width();
    let height: i32 = screen_data.height();
    let (x, y) = visit.pixel;
    if !int_is_bounded(x, 0, width - 1) || !int_is_bounded(y, 0, height - 1) {
        return true;
    }
    if screen_data.channels() == 3 {
        match classify(&visit.distances) {
            Some(channel) => {
                screen_data.raise(x, y, channel, count_scale);
            },
            None => {},
        }
    } else {
        screen_data.raise(x, y, 0, count_scale);
    }
    true
}

/// Accumulates the trajectory of one sampled seed. Where the inclusion
/// policy leaves the seed out, nothing happens. Otherwise at most
/// `iter_limit` visits are handled in order, up to the first that leaves
/// the escape radius.
pub fn do_buddhabrot_point(
    sample: &SampleMandelbrotResult,
    visits: &Vec<OrbitVisit>,
    iter_limit: i32,
    escape_radius: Double,
    include_escaping: bool,
    include_nonescaping: bool,
    screen_data: &mut Histogram,
    count_scale: u8,
)
    ensures
        final(screen_data).spec_width() == old(screen_data).spec_width(),
        final(screen_data).spec_height() == old(screen_data).spec_height(),
        final(screen_data).spec_channels() == old(screen_data).spec_channels(),
        final(screen_data)@ == if should_be_drawn(
            sample.escaped,
            include_escaping,
            include_nonescaping,
        ) {
            accumulated(
                old(screen_data)@,
                visits@.take(steps_allowed(iter_limit, visits@.len() as int)),
                escape_radius,
                old(screen_data).spec_width(),
                old(screen_data).spec_height(),
                old(screen_data).spec_channels(),
                count_scale,
            )
        } else {
            old(screen_data)@
        },
{
    if !should_draw(sample, include_escaping, include_nonescaping) {
        return ;
    }
    let steps: usize = if iter_limit <= 0 {
        0
    } else if (iter_limit as usize) < visits.len() {
        iter_limit as usize
    } else {
        visits.len()
    };
    let ghost width = screen_data.spec_width();
    let ghost height = screen_data.spec_height();
    let ghost channels = screen_data.spec_channels();
    let ghost window = visits@.take(steps as int);
    let ghost goal = accumulated(
        screen_data@,
        window,
        escape_radius,
        width,
        height,
        channels,
        count_scale,
    );
    let mut i: usize = 0;
    proof {
        assert(window.skip(0) =~= window);
    }
    while i < steps
        invariant
            i <= steps <= visits@.len(),
            window == visits@.take(steps as int),
            steps == steps_allowed(iter_limit, visits@.len() as int),
            should_be_drawn(sample.escaped, include_escaping, include_nonescaping),
            width == old(screen_data).spec_width(),
            height == old(screen_data).spec_height(),
            channels == old(screen_data).spec_channels(),
            goal == accumulated(
                old(screen_data)@,
                window,
                escape_radius,
                width,
                height,
                channels,
                count_scale,
            ),
            screen_data.spec_width() == width,
            screen_data.spec_height() == height,
            screen_data.spec_channels() == channels,
            goal == accumulated(
                screen_data@,
                window.skip(i as int),
                escape_radius,
                width,
                height,
                channels,
                count_scale,
            ),
        decreases steps - i,
    {
        proof {
            assert(window.skip(i as int)[0] == visits@[i as int]);
            assert(window.skip(i as int).skip(1) =~= window.skip(i + 1));
        }
        let go_on: bool = plot_visit(screen_data, &visits[i], escape_radius, count_scale);
        if !go_on {
            return ;
        }
        i = i + 1;
    }
}

/// Every visit up to and including the one at `i` lies inside the escape
/// radius, so the trajectory is still being followed there.
pub open spec fn inside_through(visits: Seq<OrbitVisit>, i: int, escape_radius: Double) -> bool {
    forall|j: int|
        0 <= j <= i && j < visits.len() ==> !leaves_radius(#[trigger] visits[j], escape_radius)
}

/// An orbit that stays outside the window until it escapes leaves the
/// histogram as it was.
pub proof fn lemma_unseen_orbit_leaves_no_mark(
    counters: Seq<u8>,
    visits: Seq<OrbitVisit>,
    escape_radius: Double,
    width: i32,
    height: i32,
    channels: usize,
    count_scale: u8,
)
    requires
        forall|i: int|
            0 <= i < visits.len() && inside_through(visits, i, escape_radius) ==> !in_window(
                (#[trigger] visits[i]).pixel.0 as int,
                visits[i].pixel.1 as int,
                width as int,
                height as int,
            ),
    ensures
        accumulated(counters, visits, escape_radius, width, height, channels, count_scale)
            == counters,
    decreases visits.len(),
{
    if visits.len() > 0 && !leaves_radius(visits[0], escape_radius) {
        let rest = visits.skip(1);
        assert(inside_through(visits, 0, escape_radius));
        assert forall|i: int|
            0 <= i < rest.len() && inside_through(rest, i, escape_radius) implies !in_window(
            (#[trigger] rest[i]).pixel.0 as int,
            rest[i].pixel.1 as int,
            width as int,
            height as int,
        ) by {
            assert forall|j: int| 0 <= j <= i + 1 && j < visits.len() implies !leaves_radius(
                #[trigger] visits[j],
                escape_radius,
            ) by {
                if j > 0 {
                    assert(visits[j] == rest[j - 1]);
                }
            }
            assert(inside_through(visits, i + 1, escape_radius));
            assert(rest[i] == visits[i + 1]);
        }
        lemma_unseen_orbit_leaves_no_mark(
            counters,
            rest,
            escape_radius,
            width,
            height,
            channels,
            count_scale,
        );
    }
}

/// Accumulating a trajectory keeps the number of counters and lowers none
/// of them.
pub proof fn lemma_accumulated_only_raises(
    counters: Seq<u8>,
    visits: Seq<OrbitVisit>,
    escape_radius: Double,
    width: i32,
    height: i32,
    channels: usize,
    count_scale: u8,
)
    requires
        valid_dimensions(width as int, height as int, channels as int),
        counters.len() == width * height * channels,
    ensures
        accumulated(counters, visits, escape_radius, width, height, channels, count_scale).len()
            == counters.len(),
        forall|k: int|
            0 <= k < counters.len() ==> counters[k] <= #[trigger] accumulated(
                counters,
                visits,
                escape_radius,
                width,
                height,
                channels,
                count_scale,
            )[k],
    decreases visits.len(),
{
    if visits.len() > 0 && !leaves_radius(visits[0], escape_radius) {
        let (x, y) = visits[0].pixel;
        let next = plotted(counters, visits[0], width, height, channels, count_scale);
        if in_window(x as int, y as int, width as int, height as int) {
            if channels == 3 {
                match longest_channel(visits[0].distances) {
                    Some(channel) => {
                        lemma_counter_index_in_buffer(
                            x as int,
                            y as int,
                            channel as int,
                            width as int,
                            height as int,
                            channels as int,
                        );
                    },
                    None => {},
                }
            } else {
                lemma_counter_index_in_buffer(
                    x as int,
                    y as int,
                    0,
                    width as int,
                    height as int,
                    channels as int,
                );
            }
        }
        assert(next.len() == counters.len());
        assert forall|k: int| 0 <= k < counters.len() implies counters[k] <= #[trigger] next[k] by {}
        lemma_accumulated_only_raises(
            next,
            visits.skip(1),
            escape_radius,
            width,
            height,
            channels,
            count_scale,
        );
    }
}

/// Two visits can be plotted in either order.
pub proof fn lemma_plots_commute(
    counters: Seq<u8>,
    first: OrbitVisit,
    second: OrbitVisit,
    width: i32,
    height: i32,
    channels: usize,
    count_scale: u8,
)
    ensures
        plotted(
            plotted(counters, first, width, height, channels, count_scale),
            second,
            width,
            height,
            channels,
            count_scale,
        ) == plotted(
            plotted(counters, second, width, height, channels, count_scale),
            first,
            width,
            height,
            channels,
            count_scale,
        ),
{
    let target = |visit: OrbitVisit| -> Option<int>
        {
            let (x, y) = visit.pixel;
            if !in_window(x as int, y as int, width as int, height as int) {
                None
            } else if channels == 3 {
                match longest_channel(visit.distances) {
                    Some(channel) => Some(
                        counter_index(
                            x as int,
                            y as int,
                            channel as int,
                            width as int,
                            channels as int,
                        ),
                    ),
                    None => None,
                }
            } else {
                Some(counter_index(x as int, y as int, 0, width as int, channels as int))
            }
        };
    match (target(first), target(second)) {
        (Some(i), Some(j)) => {
            lemma_increments_commute(counters, i, j, count_scale);
        },
        _ => {},
    }
}

/// A visit can be plotted before a trajectory is accumulated or after it.
pub proof fn lemma_plot_commutes_with_trajectory(
    counters: Seq<u8>,
    visit: OrbitVisit,
    visits: Seq<OrbitVisit>,
    escape_radius: Double,
    width: i32,
    height: i32,
    channels: usize,
    count_scale: u8,
)
    ensures
        plotted(
            accumulated(counters, visits, escape_radius, width, height, channels, count_scale),
            visit,
            width,
            height,
            channels,
            count_scale,
        ) == accumulated(
            plotted(counters, visit, width, height, channels, count_scale),
            visits,
            escape_radius,
            width,
            height,
            channels,
            count_scale,
        ),
    decreases visits.len(),
{
    if visits.len() > 0 && !leaves_radius(visits[0], escape_radius) {
        let next = plotted(counters, visits[0], width, height, channels, count_scale);
        lemma_plot_commutes_with_trajectory(
            next,
            visit,
            visits.skip(1),
            escape_radius,
            width,
            height,
            channels,
            count_scale,
        );
        lemma_plots_commute(counters, visits[0], visit, width, height, channels, count_scale);
    }
}

/// The order in which two trajectories are accumulated does not show in the
/// histogram: with one count scale, the increments of different seeds
/// commute.
pub proof fn lemma_trajectories_commute(
    counters: Seq<u8>,
    one: Seq<OrbitVisit>,
    other: Seq<OrbitVisit>,
    escape_radius: Double,
    width: i32,
    height: i32,
    channels: usize,
    count_scale: u8,
)
    ensures
        accumulated(
            accumulated(counters, one, escape_radius, width, height, channels, count_scale),
            other,
            escape_radius,
            width,
            height,
            channels,
            count_scale,
        ) == accumulated(
            accumulated(counters, other, escape_radius, width, height, channels, count_scale),
            one,
            escape_radius,
            width,
            height,
            channels,
            count_scale,
        ),
    decreases other.len(),
{
    if other.len() > 0 && !leaves_radius(other[0], escape_radius) {
        lemma_plot_commutes_with_trajectory(
            counters,
            other[0],
            one,
            escape_radius,
            width,
            height,
            channels,
            count_scale,
        );
        lemma_trajectories_commute(
            plotted(counters, other[0], width, height, channels, count_scale),
            one,
            other.skip(1),
            escape_radius,
            width,
            height,
            channels,
            count_scale,
        );
    }
}

/// The trajectory is still open: fewer than `iter_limit` visits are
/// recorded, and the last of them, if there is one, lies inside the escape
/// radius.
pub open spec fn is_open(visits: Seq<OrbitVisit>, iter_limit: i32, escape_radius: Double) -> bool {
    visits.len() < iter_limit && (visits.len() == 0 || !leaves_radius(
        visits.last(),
        escape_radius,
    ))
}

/// Whether a trajectory that is being recorded needs its next visit. Once
/// the answer is `false`, no further visit can change what the trajectory
/// adds to a histogram.
pub fn wants_visit(visits: &Vec<OrbitVisit>, iter_limit: i32, escape_radius: Double) -> (more: bool)
    ensures
        more == is_open(visits@, iter_limit, escape_radius),
{
    let recorded: usize = visits.len();
    if iter_limit <= 0 || recorded >= iter_limit as usize {
        false
    } else if recorded == 0 {
        true
    } else {
        !visits[recorded - 1].norm.gt(escape_radius)
    }
}

/// What follows a visit that leaves the escape radius is never plotted.
pub proof fn lemma_nothing_is_plotted_after_escape(
    counters: Seq<u8>,
    visits: Seq<OrbitVisit>,
    more: Seq<OrbitVisit>,
    escape_radius: Double,
    width: i32,
    height: i32,
    channels: usize,
    count_scale: u8,
    stop: int,
)
    requires
        0 <= stop < visits.len(),
        leaves_radius(visits[stop], escape_radius),
    ensures
        accumulated(counters, visits + more, escape_radius, width, height, channels, count_scale)
            == accumulated(counters, visits, escape_radius, width, height, channels, count_scale),
    decreases visits.len(),
{
    let all = visits + more;
    assert(all[0] == visits[0]);
    if !leaves_radius(visits[0], escape_radius) {
        assert(all.skip(1) =~= visits.skip(1) + more);
        assert(visits.skip(1)[stop - 1] == visits[stop]);
        lemma_nothing_is_plotted_after_escape(
            plotted(counters, visits[0], width, height, channels, count_scale),
            visits.skip(1),
            more,
            escape_radius,
            width,
            height,
            channels,
            count_scale,
            stop - 1,
        );
    }
}

/// A trajectory that is no longer open is complete: whatever visits are
/// recorded after it, the accumulation comes to the same.
pub proof fn lemma_closed_trajectory_is_complete(
    counters: Seq<u8>,
    visits: Seq<OrbitVisit>,
    more: Seq<OrbitVisit>,
    iter_limit: i32,
    escape_radius: Double,
    width: i32,
    height: i32,
    channels: usize,
    count_scale: u8,
)
    requires
        !is_open(visits, iter_limit, escape_radius),
    ensures
        accumulated(
            counters,
            (visits + more).take(steps_allowed(iter_limit, (visits + more).len() as int)),
            escape_radius,
            width,
            height,
            channels,
            count_scale,
        ) == accumulated(
            counters,
            visits.take(steps_allowed(iter_limit, visits.len() as int)),
            escape_radius,
            width,
            height,
            channels,
            count_scale,
        ),
{
    let all = visits + more;
    let short = visits.take(steps_allowed(iter_limit, visits.len() as int));
    let long = all.take(steps_allowed(iter_limit, all.len() as int));
    if visits.len() >= iter_limit {
        assert(long =~= short);
    } else {
        assert(short =~= visits);
        let rest = long.skip(visits.len() as int);
        assert(long =~= visits + rest);
        lemma_nothing_is_plotted_after_escape(
            counters,
            visits,
            rest,
            escape_radius,
            width,
            height,
            channels,
            count_scale,
            visits.len() - 1,
        );
    }
}

/// The counter at `k` belongs to the pixel of the visit, and the pixel lies
/// in the window.
pub open spec fn falls_on(visit: OrbitVisit, k: int, width: i32, height: i32, channels: usize) -> bool {
    let (x, y) = visit.pixel;
    &&& in_window(x as int, y as int, width as int, height as int)
    &&& counter_index(x as int, y as int, 0, width as int, channels as int) <= k
        < counter_index(x as int, y as int, 0, width as int, channels as int) + channels
}

/// Every mark lies on the path: a counter that an accumulation changed
/// belongs to the pixel of a visit that the orbit made inside the window
/// before it left the escape radius.
pub proof fn lemma_marks_lie_on_the_path(
    counters: Seq<u8>,
    visits: Seq<OrbitVisit>,
    escape_radius: Double,
    width: i32,
    height: i32,
    channels: usize,
    count_scale: u8,
    k: int,
)
    requires
        valid_dimensions(width as int, height as int, channels as int),
        counters.len() == width * height * channels,
        0 <= k < counters.len(),
        accumulated(counters, visits, escape_radius, width, height, channels, count_scale)[k]
            != counters[k],
    ensures
        exists|i: int|
            0 <= i < visits.len() && inside_through(visits, i, escape_radius) && falls_on(
                #[trigger] visits[i],
                k,
                width,
                height,
                channels,
            ),
    decreases visits.len(),
{
    if visits.len() > 0 && !leaves_radius(visits[0], escape_radius) {
        let next = plotted(counters, visits[0], width, height, channels, count_scale);
        let rest = visits.skip(1);
        assert(inside_through(visits, 0, escape_radius));
        if next[k] != counters[k] {
            assert(falls_on(visits[0], k, width, height, channels));
        } else {
            lemma_marks_lie_on_the_path(
                next,
                rest,
                escape_radius,
                width,
                height,
                channels,
                count_scale,
                k,
            );
            let j = choose|j: int|
                0 <= j < rest.len() && inside_through(rest, j, escape_radius) && falls_on(
                    #[trigger] rest[j],
                    k,
                    width,
                    height,
                    channels,
                );
            assert forall|m: int| 0 <= m <= j + 1 && m < visits.len() implies !leaves_radius(
                #[trigger] visits[m],
                escape_radius,
            ) by {
                if m > 0 {
                    assert(visits[m] == rest[m - 1]);
                }
            }
            assert(inside_through(visits, j + 1, escape_radius));
            assert(visits[j + 1] == rest[j]);
            assert(falls_on(visits[j + 1], k, width, height, channels));
        }
    }
}

} // verus!
