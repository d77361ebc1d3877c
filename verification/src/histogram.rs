//! The picture being built: a grid of pixels, each with one or three
//! saturating 8-bit counters.

use vstd::prelude::*;
use crate::raster::coords_to_wrapped_vec_index;

verus! {

/// The highest value a counter can hold.
pub const COUNTER_MAX: u8 = 255;

/// A counter after one increment by `scale`: raised by `scale` where that
/// stays within the ceiling, left as it is otherwise.
pub open spec fn raised(count: int, scale: int) -> int {
    if count + scale <= COUNTER_MAX {
        count + scale
    } else {
        count
    }
}

/// A counter after a run of increments, applied in order.
pub open spec fn raised_by_all(count: int, scales: Seq<int>) -> int
    decreases scales.len(),
{
    if scales.len() == 0 {
        count
    } else {
        raised(raised_by_all(count, scales.drop_last()), scales.last())
    }
}

/// The counters after the one at `index` took an increment. An index
/// outside the buffer changes nothing.
pub open spec fn bumped(counters: Seq<u8>, index: int, count_scale: u8) -> Seq<u8> {
    if 0 <= index < counters.len() {
        counters.update(index, raised(counters[index] as int, count_scale as int) as u8)
    } else {
        counters
    }
}

/// Where the counter of `channel` at pixel `(x, y)` lies in the buffer:
/// rows one after another, pixels within a row, channels within a pixel.
pub open spec fn counter_index(x: int, y: int, channel: int, width: int, channels: int) -> int {
    (y * width + x) * channels + channel
}

/// The pixel `(x, y)` lies on a grid of `width` by `height` pixels.
pub open spec fn in_window(x: int, y: int, width: int, height: int) -> bool {
    0 <= x <= width - 1 && 0 <= y <= height - 1
}

/// Dimensions that a histogram can have: at least two pixels a side, one
/// channel (grey) or three (red, green, blue), rows whose counters can be
/// numbered in 32 bits and a buffer that the machine can address.
pub open spec fn valid_dimensions(width: int, height: int, channels: int) -> bool {
    &&& 2 <= width
    &&& 2 <= height
    &&& channels == 1 || channels == 3
    &&& width * channels <= i32::MAX
    &&& width * height * channels <= usize::MAX
}

/// A dense grid of saturating counters.
pub struct Histogram {
    data: Vec<u8>,
    width: i32,
    height: i32,
    channels: usize,
}

impl View for Histogram {
    type V = Seq<u8>;

    /// The counters, in buffer order.
    closed spec fn view(&self) -> Seq<u8> {
        self.data@
    }
}

impl Histogram {
    #[verifier::type_invariant]
    pub closed spec fn well_formed(self) -> bool {
        &&& valid_dimensions(self.width as int, self.height as int, self.channels as int)
        &&& self.data@.len() == self.width * self.height * self.channels
    }

    pub closed spec fn spec_width(&self) -> i32 {
        self.width
    }

    pub closed spec fn spec_height(&self) -> i32 {
        self.height
    }

    pub closed spec fn spec_channels(&self) -> usize {
        self.channels
    }

    /// The value of one counter.
    pub open spec fn count_at(self, x: int, y: int, channel: int) -> u8 {
        self@[counter_index(x, y, channel, self.spec_width() as int, self.spec_channels() as int)]
    }

    /// A histogram of the given dimensions with every counter at zero, or
    /// `None` where the dimensions are not valid ones.
    pub fn new(width: i32, height: i32, channels: usize) -> (made: Option<Histogram>)
        ensures
            made is Some <==> valid_dimensions(width as int, height as int, channels as int),
            made matches Some(h) ==> {
                &&& h.well_formed()
                &&& h.spec_width() == width
                &&& h.spec_height() == height
                &&& h.spec_channels() == channels
                &&& h@.len() == width * height * channels
                &&& forall|i: int| 0 <= i < h@.len() ==> h@[i] == 0
            },
    {
        if width < 2 || height < 2 || (channels != 1 && channels != 3) {
            return None;
        }
        assert(width * channels <= 3 * i32::MAX) by (nonlinear_arith)
            requires
                0 <= width <= i32::MAX,
                0 <= channels <= 3,
        ;
        let row: u64 = (width as u64) * (channels as u64);
        if row > i32::MAX as u64 {
            return None;
        }
        assert(row * height <= u64::MAX) by (nonlinear_arith)
            requires
                row <= i32::MAX,
                height <= i32::MAX,
        ;
        let total: u64 = row * (height as u64);
        assert(total == width * height * channels) by (nonlinear_arith)
            requires
                total == row * height,
                row == width * channels,
        ;
        if total > usize::MAX as u64 {
            return None;
        }
        let data: Vec<u8> = vec![0u8; total as usize];
        Some(Histogram { data, width, height, channels })
    }

    /// The number of pixels in a row.
    #[verifier::when_used_as_spec(spec_width)]
    pub fn width(&self) -> (w: i32)
        ensures
            w == self.spec_width(),
            2 <= w,
    {
        proof {
            use_type_invariant(self);
        }
        self.width
    }

    /// The number of rows.
    #[verifier::when_used_as_spec(spec_height)]
    pub fn height(&self) -> (h: i32)
        ensures
            h == self.spec_height(),
            2 <= h,
    {
        proof {
            use_type_invariant(self);
        }
        self.height
    }

    /// The number of counters of each pixel: 1 or 3.
    #[verifier::when_used_as_spec(spec_channels)]
    pub fn channels(&self) -> (c: usize)
        ensures
            c == self.spec_channels(),
            c == 1 || c == 3,
    {
        proof {
            use_type_invariant(self);
        }
        self.channels
    }

    /// The counters, in buffer order.
    pub fn counters(&self) -> (data: &Vec<u8>)
        ensures
            data@ == self@,
            data@.len() == self.spec_width() * self.spec_height() * self.spec_channels(),
            valid_dimensions(
                self.spec_width() as int,
                self.spec_height() as int,
                self.spec_channels() as int,
            ),
    {
        proof {
            use_type_invariant(self);
        }
        &self.data
    }
}

/// The counter of a pixel in the window has a place in the buffer, and no
/// other counter shares it.
pub proof fn lemma_counter_index_in_buffer(
    x: int,
    y: int,
    channel: int,
    width: int,
    height: int,
    channels: int,
)
    requires
        in_window(x, y, width, height),
        0 <= channel < channels,
    ensures
        0 <= counter_index(x, y, channel, width, channels) < width * height * channels,
        counter_index(x, y, channel, width, channels) == y * (width * channels) + x * channels
            + channel,
{
    let pixel = y * width + x;
    assert(0 <= pixel < width * height) by (nonlinear_arith)
        requires
            pixel == y * width + x,
            0 <= x <= width - 1,
            0 <= y <= height - 1,
    ;
    assert(0 <= pixel * channels + channel < width * height * channels) by (nonlinear_arith)
        requires
            0 <= pixel < width * height,
            0 <= channel < channels,
    ;
    assert((y * width + x) * channels == y * (width * channels) + x * channels)
        by (nonlinear_arith);
}

impl Histogram {
    fn offset(&self, x: i32, y: i32, channel: usize) -> (index: usize)
        requires
            in_window(x as int, y as int, self.spec_width() as int, self.spec_height() as int),
            channel < self.spec_channels(),
        ensures
            index == counter_index(
                x as int,
                y as int,
                channel as int,
                self.spec_width() as int,
                self.spec_channels() as int,
            ),
            index < self@.len(),
    {
        proof {
            use_type_invariant(self);
            lemma_counter_index_in_buffer(
                x as int,
                y as int,
                channel as int,
                self.width as int,
                self.height as int,
                self.channels as int,
            );
            lemma_counter_index_in_buffer(
                x as int,
                y as int,
                0,
                self.width as int,
                self.height as int,
                self.channels as int,
            );
            assert(x * self.channels <= self.width * self.channels) by (nonlinear_arith)
                requires
                    x <= self.width,
                    self.channels >= 0,
            ;
        }
        let per_pixel: i32 = self.channels as i32;
        let first: u64 = coords_to_wrapped_vec_index((x * per_pixel, y), self.width * per_pixel);
        first as usize + channel
    }

    /// Reads one counter of a pixel in the window.
    pub fn count(&self, x: i32, y: i32, channel: usize) -> (value: u8)
        requires
            in_window(x as int, y as int, self.spec_width() as int, self.spec_height() as int),
            channel < self.spec_channels(),
        ensures
            value == self.count_at(x as int, y as int, channel as int),
    {
        let index: usize = self.offset(x, y, channel);
        self.data[index]
    }

    /// Adds `count_scale` to one counter of a pixel in the window, unless
    /// that would take the counter past its ceiling: then the counter keeps
    /// its value. No other counter changes.
    pub fn raise(&mut self, x: i32, y: i32, channel: usize, count_scale: u8)
        requires
            in_window(
                x as int,
                y as int,
                old(self).spec_width() as int,
                old(self).spec_height() as int,
            ),
            channel < old(self).spec_channels(),
        ensures
            final(self).spec_width() == old(self).spec_width(),
            final(self).spec_height() == old(self).spec_height(),
            final(self).spec_channels() == old(self).spec_channels(),
            final(self)@ == bumped(
                old(self)@,
                counter_index(
                    x as int,
                    y as int,
                    channel as int,
                    old(self).spec_width() as int,
                    old(self).spec_channels() as int,
                ),
                count_scale,
            ),
            final(self).count_at(x as int, y as int, channel as int) == raised(
                old(self).count_at(x as int, y as int, channel as int) as int,
                count_scale as int,
            ),
    {
        let index: usize = self.offset(x, y, channel);
        proof {
            use_type_invariant(&*self);
        }
        let current: u8 = self.data[index];
        if current <= COUNTER_MAX - count_scale {
            self.data[index] = current + count_scale;
        }
        assert(self.data@ =~= old(self).data@.update(
            index as int,
            raised(current as int, count_scale as int) as u8,
        ));
    }
}

/// A counter that is raised stays a counter: between 0 and the ceiling,
/// and never below what it was.
pub proof fn lemma_raised_stays_in_range(count: int, scale: int)
    requires
        0 <= count <= COUNTER_MAX,
        0 <= scale,
    ensures
        count <= raised(count, scale) <= COUNTER_MAX,
{
}

/// No run of increments, whatever their sizes, takes a counter past its
/// ceiling or below where it started.
pub proof fn lemma_no_counter_exceeds_ceiling(count: int, scales: Seq<int>)
    requires
        0 <= count <= COUNTER_MAX,
        forall|i: int| 0 <= i < scales.len() ==> 0 <= scales[i],
    ensures
        count <= raised_by_all(count, scales) <= COUNTER_MAX,
    decreases scales.len(),
{
    if scales.len() > 0 {
        lemma_no_counter_exceeds_ceiling(count, scales.drop_last());
    }
}

/// With one count scale, two increments can be made in either order.
pub proof fn lemma_increments_commute(counters: Seq<u8>, i: int, j: int, count_scale: u8)
    ensures
        bumped(bumped(counters, i, count_scale), j, count_scale) == bumped(
            bumped(counters, j, count_scale),
            i,
            count_scale,
        ),
{
    assert(bumped(bumped(counters, i, count_scale), j, count_scale) =~= bumped(
        bumped(counters, j, count_scale),
        i,
        count_scale,
    ));
}

/// How many of `hits` increments by `scale` a counter at `count` takes
/// before the next would pass the ceiling.
pub open spec fn hits_taken(count: int, scale: int, hits: int) -> int {
    let room = (COUNTER_MAX - count) / scale;
    if hits < room {
        hits
    } else {
        room
    }
}

/// With one count scale a counter grows by the scale for every hit, until
/// the next hit would pass the ceiling; from then on it keeps its value.
pub proof fn lemma_repeated_increments(count: int, scale: int, scales: Seq<int>)
    requires
        0 <= count <= COUNTER_MAX,
        1 <= scale,
        forall|i: int| 0 <= i < scales.len() ==> scales[i] == scale,
    ensures
        raised_by_all(count, scales) == count + scale * hits_taken(
            count,
            scale,
            scales.len() as int,
        ),
    decreases scales.len(),
{
    let room = (COUNTER_MAX - count) / scale;
    let left = COUNTER_MAX - count;
    assert(scale * room <= left < scale * (room + 1) && 0 <= room) by (nonlinear_arith)
        requires
            room == left / scale,
            0 <= left,
            1 <= scale,
    ;
    if scales.len() > 0 {
        let hits = scales.len() as int;
        lemma_repeated_increments(count, scale, scales.drop_last());
        let before = raised_by_all(count, scales.drop_last());
        if hits - 1 < room {
            assert(before == count + scale * (hits - 1));
            assert(scale * hits <= scale * room) by (nonlinear_arith)
                requires
                    hits <= room,
                    1 <= scale,
            ;
            assert(scale * (hits - 1) + scale == scale * hits) by (nonlinear_arith);
        } else {
            assert(before == count + scale * room);
            assert(scale * room + scale == scale * (room + 1)) by (nonlinear_arith);
        }
    } else {
        assert(scale * 0 == 0);
    }
}

} // verus!
