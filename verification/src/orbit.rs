//! The orbit evaluator: how many steps an orbit takes before it leaves the
//! escape radius.
//!
//! The caller iterates the map and reports each new point together with its
//! squared magnitude; the rules here decide when the orbit has escaped and
//! what the sample result is.

use vstd::prelude::*;
use crate::double::{Complex, Double};

verus! {

/// What is known of a seed once its orbit has been followed.
#[derive(Clone, Copy, Debug, PartialEq, Eq, Structural)]
pub struct SampleMandelbrotResult {
    /// The index of the step that escaped, or the iteration limit.
    pub iter_count: i32,
    /// Whether some step within the limit escaped.
    pub escaped: bool,
    /// The point reached by the last step taken.
    pub last_position: Complex,
}

/// One point of an orbit.
#[derive(Clone, Copy, Debug, PartialEq, Eq, Structural)]
pub struct OrbitPoint {
    /// The point itself.
    pub position: Complex,
    /// Its squared distance from the origin.
    pub norm_squared: Double,
}

/// The origin of the plane.
pub open spec fn origin() -> Complex {
    Complex { re: Double { bits: 0 }, im: Double { bits: 0 } }
}

/// The point lies strictly outside the escape radius. A point at exactly
/// the radius has not escaped.
pub open spec fn escapes(point: OrbitPoint, escape_radius_squared: Double) -> bool {
    point.norm_squared.exceeds(escape_radius_squared)
}

/// The index of the first point that escapes, or the number of points
/// where none does.
pub open spec fn first_escape(points: Seq<OrbitPoint>, escape_radius_squared: Double) -> int
    decreases points.len(),
{
    if points.len() == 0 {
        0
    } else {
        let before = first_escape(points.drop_last(), escape_radius_squared);
        if before < points.len() - 1 {
            before
        } else if escapes(points.last(), escape_radius_squared) {
            points.len() - 1
        } else {
            points.len() as int
        }
    }
}

/// How many of `available` points an evaluation limited to `iter_limit`
/// steps looks at.
pub open spec fn steps_allowed(iter_limit: i32, available: int) -> int {
    if iter_limit <= 0 {
        0
    } else if iter_limit < available {
        iter_limit as int
    } else {
        available
    }
}

/// The points suffice to tell the result: one of the first `iter_limit`
/// escapes, or there are `iter_limit` of them.
pub open spec fn is_decided(
    points: Seq<OrbitPoint>,
    iter_limit: i32,
    escape_radius_squared: Double,
) -> bool {
    let window = points.take(steps_allowed(iter_limit, points.len() as int));
    first_escape(window, escape_radius_squared) < window.len() || points.len() >= iter_limit
}

/// The sample result of an orbit: escaped at the first step that lies
/// outside the radius, or not escaped after `iter_limit` steps.
pub open spec fn sample_of(
    points: Seq<OrbitPoint>,
    iter_limit: i32,
    escape_radius_squared: Double,
) -> SampleMandelbrotResult {
    let window = points.take(steps_allowed(iter_limit, points.len() as int));
    let stop = first_escape(window, escape_radius_squared);
    if stop < window.len() {
        SampleMandelbrotResult {
            iter_count: stop as i32,
            escaped: true,
            last_position: window[stop].position,
        }
    } else {
        SampleMandelbrotResult {
            iter_count: iter_limit,
            escaped: false,
            last_position: if window.len() == 0 {
                origin()
            } else {
                window.last().position
            },
        }
    }
}

/// The first escape is the least index whose point escapes.
pub proof fn lemma_first_escape_is_least(points: Seq<OrbitPoint>, escape_radius_squared: Double)
    ensures
        0 <= first_escape(points, escape_radius_squared) <= points.len(),
        forall|i: int|
            0 <= i < first_escape(points, escape_radius_squared) ==> !escapes(
                #[trigger] points[i],
                escape_radius_squared,
            ),
        first_escape(points, escape_radius_squared) < points.len() ==> escapes(
            points[first_escape(points, escape_radius_squared)],
            escape_radius_squared,
        ),
    decreases points.len(),
{
    if points.len() > 0 {
        lemma_first_escape_is_least(points.drop_last(), escape_radius_squared);
        assert forall|i: int| 0 <= i < points.len() - 1 implies points.drop_last()[i]
            == points[i] by {}
    }
}

/// Once a point has escaped, later points do not move the first escape.
pub proof fn lemma_first_escape_stable(
    points: Seq<OrbitPoint>,
    escape_radius_squared: Double,
    shorter: int,
    longer: int,
)
    requires
        0 <= shorter <= longer <= points.len(),
        first_escape(points.take(shorter), escape_radius_squared) < shorter,
    ensures
        first_escape(points.take(longer), escape_radius_squared) == first_escape(
            points.take(shorter),
            escape_radius_squared,
        ),
    decreases longer - shorter,
{
    if shorter < longer {
        lemma_first_escape_stable(points, escape_radius_squared, shorter, longer - 1);
        assert(points.take(longer).drop_last() =~= points.take(longer - 1));
    }
}

/// With a limit that is not negative, the iteration count of a sample lies
/// between 0 and the limit, below the limit exactly when the orbit escaped.
pub proof fn lemma_sample_within_limit(
    points: Seq<OrbitPoint>,
    iter_limit: i32,
    escape_radius_squared: Double,
)
    requires
        0 <= iter_limit,
    ensures
        0 <= sample_of(points, iter_limit, escape_radius_squared).iter_count <= iter_limit,
        sample_of(points, iter_limit, escape_radius_squared).escaped ==> sample_of(
            points,
            iter_limit,
            escape_radius_squared,
        ).iter_count < iter_limit,
        !sample_of(points, iter_limit, escape_radius_squared).escaped ==> sample_of(
            points,
            iter_limit,
            escape_radius_squared,
        ).iter_count == iter_limit,
{
    let window = points.take(steps_allowed(iter_limit, points.len() as int));
    lemma_first_escape_is_least(window, escape_radius_squared);
}

/// An orbit none of whose points lies outside the radius does not escape:
/// where there are points enough, its sample counts `iter_limit` steps.
pub proof fn lemma_bounded_orbit_never_escapes(
    points: Seq<OrbitPoint>,
    iter_limit: i32,
    escape_radius_squared: Double,
)
    requires
        forall|i: int| 0 <= i < points.len() ==> !escapes(#[trigger] points[i], escape_radius_squared),
    ensures
        !sample_of(points, iter_limit, escape_radius_squared).escaped,
        sample_of(points, iter_limit, escape_radius_squared).iter_count == iter_limit,
        is_decided(points, iter_limit, escape_radius_squared) <==> points.len() >= iter_limit,
{
    let window = points.take(steps_allowed(iter_limit, points.len() as int));
    lemma_first_escape_is_least(window, escape_radius_squared);
    let stop = first_escape(window, escape_radius_squared);
    if stop < window.len() {
        assert(window[stop] == points[stop]);
    }
}

/// The orbit of the origin stays at the origin, and a point at the origin
/// lies outside no radius whose square is zero or more: such an orbit never
/// escapes.
pub proof fn lemma_orbit_at_origin_never_escapes(
    points: Seq<OrbitPoint>,
    iter_limit: i32,
    escape_radius_squared: Double,
)
    requires
        forall|i: int| 0 <= i < points.len() ==> (#[trigger] points[i]).norm_squared.bits == 0,
        escape_radius_squared.is_nan() || escape_radius_squared.rank() >= 0,
    ensures
        !sample_of(points, iter_limit, escape_radius_squared).escaped,
        sample_of(points, iter_limit, escape_radius_squared).iter_count == iter_limit,
{
    lemma_bounded_orbit_never_escapes(points, iter_limit, escape_radius_squared);
}

/// A first step that lands exactly on the radius has not escaped: with a
/// second step beyond the radius the orbit escapes at step 1, not at 0.
pub proof fn lemma_boundary_is_inside(
    points: Seq<OrbitPoint>,
    iter_limit: i32,
    escape_radius_squared: Double,
)
    requires
        2 <= iter_limit,
        2 <= points.len(),
        points[0].norm_squared == escape_radius_squared,
        escapes(points[1], escape_radius_squared),
    ensures
        sample_of(points, iter_limit, escape_radius_squared).escaped,
        sample_of(points, iter_limit, escape_radius_squared).iter_count == 1,
{
    let window = points.take(steps_allowed(iter_limit, points.len() as int));
    lemma_first_escape_is_least(window, escape_radius_squared);
    let stop = first_escape(window, escape_radius_squared);
    assert(window[0] == points[0]);
    assert(window[1] == points[1]);
    if stop >= 2 {
        assert(!escapes(window[1], escape_radius_squared));
    }
}

/// Follows an orbit for at most `iter_limit` steps and reports where it
/// escaped, or that it did not. The orbit is given by its points, the
/// first step first. Returns `None` where the points end before the result
/// is decided.
pub fn sample_mandelbrot(
    points: &Vec<OrbitPoint>,
    iter_limit: i32,
    escape_radius_squared: Double,
) -> (result: Option<SampleMandelbrotResult>)
    ensures
        result is Some <==> is_decided(points@, iter_limit, escape_radius_squared),
        result matches Some(sample) ==> sample == sample_of(
            points@,
            iter_limit,
            escape_radius_squared,
        ),
{
    let ghost window = points@.take(steps_allowed(iter_limit, points@.len() as int));
    let mut last: Complex = Complex::zero();
    let mut i: i32 = 0;
    while i < iter_limit
        invariant
            0 <= i,
            i <= iter_limit || i == 0,
            i <= points@.len(),
            window == points@.take(steps_allowed(iter_limit, points@.len() as int)),
            first_escape(points@.take(i as int), escape_radius_squared) == i,
            last == if i == 0 {
                origin()
            } else {
                points@[i - 1].position
            },
        decreases iter_limit - i,
    {
        if i as usize >= points.len() {
            proof {
                assert(window =~= points@.take(i as int));
            }
            return None;
        }
        let point: OrbitPoint = points[i as usize];
        last = point.position;
        proof {
            assert(points@.take(i + 1).drop_last() =~= points@.take(i as int));
        }
        if point.norm_squared.gt(escape_radius_squared) {
            proof {
                lemma_first_escape_stable(
                    points@,
                    escape_radius_squared,
                    i + 1,
                    steps_allowed(iter_limit, points@.len() as int),
                );
            }
            return Some(SampleMandelbrotResult { iter_count: i, escaped: true, last_position: last });
        }
        i = i + 1;
    }
    proof {
        assert(window =~= points@.take(i as int));
    }
    Some(SampleMandelbrotResult { iter_count: iter_limit, escaped: false, last_position: last })
}

/// Follows one orbit step by step: the caller takes a step, reports the
/// point it reached, and asks whether to go on.
pub struct OrbitSampler {
    iter_limit: i32,
    escape_radius_squared: Double,
    steps: i32,
    escaped: bool,
    last_position: Complex,
    seen: Ghost<Seq<OrbitPoint>>,
}

impl OrbitSampler {
    #[verifier::type_invariant]
    closed spec fn consistent(self) -> bool {
        &&& self.seen@.len() == self.steps
        &&& 0 <= self.steps
        &&& self.steps <= self.iter_limit || self.steps == 0
        &&& first_escape(self.seen@, self.escape_radius_squared) == if self.escaped {
            self.steps - 1
        } else {
            self.steps as int
        }
        &&& self.escaped ==> self.steps >= 1
        &&& self.last_position == if self.steps == 0 {
            origin()
        } else {
            self.seen@.last().position
        }
    }

    /// The points reported so far, in order.
    pub closed spec fn seen(&self) -> Seq<OrbitPoint> {
        self.seen@
    }

    /// The most steps the orbit is followed for.
    pub closed spec fn iter_limit(&self) -> i32 {
        self.iter_limit
    }

    /// The square of the escape radius.
    pub closed spec fn escape_radius_squared(&self) -> Double {
        self.escape_radius_squared
    }

    /// The result is decided: a reported point escaped, or the limit is
    /// reached.
    pub open spec fn finished(&self) -> bool {
        is_decided(self.seen(), self.iter_limit(), self.escape_radius_squared())
    }

    /// A sampler that has seen no point yet.
    pub fn new(iter_limit: i32, escape_radius_squared: Double) -> (sampler: OrbitSampler)
        ensures
            sampler.seen() == Seq::<OrbitPoint>::empty(),
            sampler.iter_limit() == iter_limit,
            sampler.escape_radius_squared() == escape_radius_squared,
    {
        OrbitSampler {
            iter_limit,
            escape_radius_squared,
            steps: 0,
            escaped: false,
            last_position: Complex::zero(),
            seen: Ghost(Seq::empty()),
        }
    }

    /// Whether the result is decided, so that no further step is needed.
    pub fn is_finished(&self) -> (done: bool)
        ensures
            done == self.finished(),
    {
        proof {
            use_type_invariant(self);
            assert(self.seen@.take(self.seen@.len() as int) =~= self.seen@);
        }
        self.escaped || self.steps >= self.iter_limit
    }

    /// Takes note of the point that the next step reached. Once the result
    /// is decided, further points are ignored.
    pub fn observe(&mut self, point: OrbitPoint)
        ensures
            final(self).iter_limit() == old(self).iter_limit(),
            final(self).escape_radius_squared() == old(self).escape_radius_squared(),
            final(self).seen() == if old(self).finished() {
                old(self).seen()
            } else {
                old(self).seen().push(point)
            },
    {
        if self.is_finished() {
            return ;
        }
        proof {
            use_type_invariant(&*self);
            assert(self.seen@.push(point).drop_last() =~= self.seen@);
        }
        let escaped: bool = point.norm_squared.gt(self.escape_radius_squared);
        *self = OrbitSampler {
            iter_limit: self.iter_limit,
            escape_radius_squared: self.escape_radius_squared,
            steps: self.steps + 1,
            escaped,
            last_position: point.position,
            seen: Ghost(self.seen@.push(point)),
        };
    }

    /// The sample result, once it is decided.
    pub fn result(&self) -> (result: Option<SampleMandelbrotResult>)
        ensures
            result == if self.finished() {
                Some(sample_of(self.seen(), self.iter_limit(), self.escape_radius_squared()))
            } else {
                None
            },
    {
        proof {
            use_type_invariant(self);
            assert(self.seen@.take(self.seen@.len() as int) =~= self.seen@);
        }
        if self.escaped {
            Some(
                SampleMandelbrotResult {
                    iter_count: self.steps - 1,
                    escaped: true,
                    last_position: self.last_position,
                },
            )
        } else if self.steps >= self.iter_limit {
            Some(
                SampleMandelbrotResult {
                    iter_count: self.iter_limit,
                    escaped: false,
                    last_position: self.last_position,
                },
            )
        } else {
            None
        }
    }
}

} // verus!
