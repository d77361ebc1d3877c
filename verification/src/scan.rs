//! The seed grid scanner: which seeds are visited, in what order, and
//! where in that order a snapshot of the histogram is due.

use vstd::prelude::*;
use vstd::arithmetic::div_mod::lemma_fundamental_div_mod_converse;

verus! {

/// Escaping orbits are drawn.
pub const INCLUDE_ESCAPING: bool = true;

/// Orbits that stay bounded are not.
pub const INCLUDE_NONESCAPING: bool = false;

/// Rows between two progress reports that start a new line.
pub const MILESTONE_ROWS: i32 = 512;

/// Rows between two short progress reports.
pub const TICK_ROWS: i32 = 4;

/// How much there is to report when a row starts.
#[derive(Clone, Copy, Debug, PartialEq, Eq, Structural)]
pub enum Progress {
    /// A full report on a line of its own.
    Milestone,
    /// A short report.
    Tick,
    /// Nothing.
    Silent,
}

/// What the scan does next.
#[derive(Clone, Copy, Debug, PartialEq, Eq)]
pub enum ScanEvent {
    /// A row of seeds begins. Where `snapshot` holds a sequence index, the
    /// histogram as it stands is to be saved under that index first.
    RowStart { row: i32, progress: Progress, snapshot: Option<i32> },
    /// The seed at grid coordinate `(x, y)` is to be sampled.
    Seed { x: i32, y: i32 },
    /// Every seed was sampled: the final picture is to be saved.
    Finished,
}

/// The progress report due at the start of row `row`.
pub open spec fn progress_at(row: int) -> Progress {
    if row % (MILESTONE_ROWS as int) == 0 {
        Progress::Milestone
    } else if row % (TICK_ROWS as int) == 0 {
        Progress::Tick
    } else {
        Progress::Silent
    }
}

/// The sequence index of the snapshot due at the start of row `row`: one
/// every `band_height` rows, numbered from 0.
pub open spec fn snapshot_at(row: int, band_height: int) -> Option<i32> {
    if row % band_height == 0 {
        Some((row / band_height) as i32)
    } else {
        None
    }
}

/// Settings from which a scan can be planned: a screen of at least two
/// pixels a side, a supersampling factor and a number of bands of at least
/// 1, a seed grid whose sides fit in 32 bits, and no more bands than the
/// grid has rows.
pub open spec fn valid_scan_settings(
    screen_size: (i32, i32),
    supersampling: i32,
    band_count: i32,
) -> bool {
    &&& 2 <= screen_size.0
    &&& 2 <= screen_size.1
    &&& 1 <= supersampling
    &&& 1 <= band_count
    &&& screen_size.0 * supersampling <= i32::MAX
    &&& screen_size.1 * supersampling <= i32::MAX
    &&& band_count <= screen_size.1 * supersampling
}

/// The number of events of a scan over a grid of the given size: a row
/// start and its seeds for every row, and the end.
pub open spec fn event_count(grid_width: int, grid_height: int) -> int {
    grid_height * (grid_width + 1) + 1
}

/// The event at place `k` of a scan, counting from 0: rows from top to
/// bottom, each opened by its row start and followed by its seeds from left
/// to right; after the last row, the end.
pub open spec fn event_at(grid_width: int, grid_height: int, band_height: int, k: int) -> ScanEvent {
    let row = k / (grid_width + 1);
    let slot = k % (grid_width + 1);
    if row >= grid_height {
        ScanEvent::Finished
    } else if slot == 0 {
        ScanEvent::RowStart {
            row: row as i32,
            progress: progress_at(row),
            snapshot: snapshot_at(row, band_height),
        }
    } else {
        ScanEvent::Seed { x: (slot - 1) as i32, y: row as i32 }
    }
}

/// A scan over the seed grid, and how far it has come.
pub struct GridScan {
    grid_width: i32,
    grid_height: i32,
    band_height: i32,
    row: i32,
    slot: i32,
}

impl GridScan {
    #[verifier::type_invariant]
    closed spec fn consistent(self) -> bool {
        &&& 2 <= self.grid_width
        &&& 2 <= self.grid_height
        &&& 1 <= self.band_height <= self.grid_height
        &&& 0 <= self.row <= self.grid_height
        &&& 0 <= self.slot <= self.grid_width
        &&& self.row == self.grid_height ==> self.slot <= 1
    }

    /// The number of seeds in a row.
    pub closed spec fn spec_grid_width(&self) -> i32 {
        self.grid_width
    }

    /// The number of rows of seeds.
    pub closed spec fn spec_grid_height(&self) -> i32 {
        self.grid_height
    }

    /// The number of rows between two snapshots.
    pub closed spec fn spec_band_height(&self) -> i32 {
        self.band_height
    }

    /// The number of events handed out so far.
    pub closed spec fn position(&self) -> int {
        self.row * (self.grid_width + 1) + self.slot
    }

    /// A scan at its start. The seed grid is the screen enlarged by the
    /// supersampling factor on both axes; a band is the grid's height
    /// divided by the number of bands, rounded down. `None` where the
    /// settings are not valid ones.
    pub fn new(screen_size: (i32, i32), supersampling: i32, band_count: i32) -> (scan: Option<
        GridScan,
    >)
        ensures
            scan is Some <==> valid_scan_settings(screen_size, supersampling, band_count),
            scan matches Some(s) ==> {
                &&& s.spec_grid_width() == screen_size.0 * supersampling
                &&& s.spec_grid_height() == screen_size.1 * supersampling
                &&& s.spec_band_height() == (screen_size.1 * supersampling) / (band_count as int)
                &&& s.position() == 0
            },
    {
        if screen_size.0 < 2 || screen_size.1 < 2 || supersampling < 1 || band_count < 1 {
            return None;
        }
        let grid_width: Option<i32> = screen_size.0.checked_mul(supersampling);
        let grid_height: Option<i32> = screen_size.1.checked_mul(supersampling);
        match (grid_width, grid_height) {
            (Some(grid_width), Some(grid_height)) => {
                assert(grid_width >= 2 && grid_height >= 2) by (nonlinear_arith)
                    requires
                        grid_width == screen_size.0 * supersampling,
                        grid_height == screen_size.1 * supersampling,
                        screen_size.0 >= 2,
                        screen_size.1 >= 2,
                        supersampling >= 1,
                ;
                if band_count > grid_height {
                    return None;
                }
                let band_height: i32 = grid_height / band_count;
                assert(1 <= band_height <= grid_height) by (nonlinear_arith)
                    requires
                        band_height == grid_height as int / band_count as int,
                        1 <= band_count <= grid_height,
                ;
                Some(GridScan { grid_width, grid_height, band_height, row: 0, slot: 0 })
            },
            _ => None,
        }
    }

    /// The size of the seed grid.
    pub fn grid_size(&self) -> (size: (i32, i32))
        ensures
            size.0 == self.spec_grid_width(),
            size.1 == self.spec_grid_height(),
            2 <= size.0,
            2 <= size.1,
    {
        proof {
            use_type_invariant(self);
        }
        (self.grid_width, self.grid_height)
    }

    /// The number of rows between two snapshots.
    pub fn band_height(&self) -> (rows: i32)
        ensures
            rows == self.spec_band_height(),
            1 <= rows <= self.spec_grid_height(),
    {
        proof {
            use_type_invariant(self);
        }
        self.band_height
    }

    /// Hands out the next event of the scan, or `None` once the end has
    /// been handed out.
    pub fn next(&mut self) -> (event: Option<ScanEvent>)
        ensures
            final(self).spec_grid_width() == old(self).spec_grid_width(),
            final(self).spec_grid_height() == old(self).spec_grid_height(),
            final(self).spec_band_height() == old(self).spec_band_height(),
            0 <= old(self).position() <= event_count(
                old(self).spec_grid_width() as int,
                old(self).spec_grid_height() as int,
            ),
            event == if old(self).position() < event_count(
                old(self).spec_grid_width() as int,
                old(self).spec_grid_height() as int,
            ) {
                Some(
                    event_at(
                        old(self).spec_grid_width() as int,
                        old(self).spec_grid_height() as int,
                        old(self).spec_band_height() as int,
                        old(self).position(),
                    ),
                )
            } else {
                None
            },
            final(self).position() == if event is Some {
                old(self).position() + 1
            } else {
                old(self).position()
            },
    {
        proof {
            use_type_invariant(&*self);
            lemma_fundamental_div_mod_converse(
                self.position(),
                self.grid_width + 1,
                self.row as int,
                self.slot as int,
            );
            assert(self.row * (self.grid_width + 1) <= self.grid_height * (self.grid_width + 1))
                by (nonlinear_arith)
                requires
                    self.row <= self.grid_height,
                    self.grid_width >= 0,
            ;
            assert(self.row < self.grid_height ==> (self.row + 1) * (self.grid_width + 1)
                <= self.grid_height * (self.grid_width + 1)) by (nonlinear_arith)
                requires
                    self.grid_width >= 0,
            ;
            assert((self.row + 1) * (self.grid_width + 1) == self.row * (self.grid_width + 1)
                + self.grid_width + 1) by (nonlinear_arith);
            assert(0 <= self.row * (self.grid_width + 1)) by (nonlinear_arith)
                requires
                    self.row >= 0,
                    self.grid_width >= 0,
            ;
        }
        let (row, slot) = (self.row, self.slot);
        if row == self.grid_height {
            if slot == 0 {
                self.slot = 1;
                Some(ScanEvent::Finished)
            } else {
                None
            }
        } else if slot == 0 {
            self.slot = 1;
            Some(ScanEvent::RowStart {
                row,
                progress: progress_of(row),
                snapshot: snapshot_of(row, self.band_height),
            })
        } else {
            if slot == self.grid_width {
                *self = GridScan {
                    grid_width: self.grid_width,
                    grid_height: self.grid_height,
                    band_height: self.band_height,
                    row: row + 1,
                    slot: 0,
                };
            } else {
                self.slot = slot + 1;
            }
            Some(ScanEvent::Seed { x: slot - 1, y: row })
        }
    }
}

/// The progress report due at the start of a row.
pub fn progress_of(row: i32) -> (progress: Progress)
    requires
        0 <= row,
    ensures
        progress == progress_at(row as int),
{
    if row % MILESTONE_ROWS == 0 {
        Progress::Milestone
    } else if row % TICK_ROWS == 0 {
        Progress::Tick
    } else {
        Progress::Silent
    }
}

/// The sequence index of the snapshot due at the start of a row, if one is.
pub fn snapshot_of(row: i32, band_height: i32) -> (index: Option<i32>)
    requires
        0 <= row,
        1 <= band_height,
    ensures
        index == snapshot_at(row as int, band_height as int),
{
    if row % band_height == 0 {
        Some(row / band_height)
    } else {
        None
    }
}

/// The scan is row-major. Row `y` opens at place `y * (width + 1)`, its
/// seed `(x, y)` follows at place `y * (width + 1) + 1 + x`, and the end
/// comes last, after the last seed of the last row.
pub proof fn lemma_scan_is_row_major(
    grid_width: int,
    grid_height: int,
    band_height: int,
    x: int,
    y: int,
)
    requires
        1 <= grid_width <= i32::MAX,
        1 <= grid_height <= i32::MAX,
        0 <= x < grid_width,
        0 <= y < grid_height,
    ensures
        event_at(grid_width, grid_height, band_height, y * (grid_width + 1))
            == (ScanEvent::RowStart {
            row: y as i32,
            progress: progress_at(y),
            snapshot: snapshot_at(y, band_height),
        }),
        event_at(grid_width, grid_height, band_height, y * (grid_width + 1) + 1 + x)
            == (ScanEvent::Seed { x: x as i32, y: y as i32 }),
        0 <= y * (grid_width + 1) + 1 + x < event_count(grid_width, grid_height) - 1,
        event_at(grid_width, grid_height, band_height, event_count(grid_width, grid_height) - 1)
            == ScanEvent::Finished,
{
    let per_row = grid_width + 1;
    lemma_fundamental_div_mod_converse(y * per_row, per_row, y, 0);
    lemma_fundamental_div_mod_converse(y * per_row + 1 + x, per_row, y, 1 + x);
    lemma_fundamental_div_mod_converse(grid_height * per_row, per_row, grid_height, 0);
    assert(0 <= y * per_row && (y + 1) * per_row <= grid_height * per_row) by (nonlinear_arith)
        requires
            0 <= y < grid_height,
            per_row >= 1,
    ;
    assert((y + 1) * per_row == y * per_row + per_row) by (nonlinear_arith);
}

/// Later snapshots have higher sequence indices: of two rows at which a
/// snapshot is due, the lower row has the lower index.
pub proof fn lemma_snapshot_indices_increase(band_height: int, earlier: int, later: int)
    requires
        1 <= band_height,
        0 <= earlier < later <= i32::MAX,
        snapshot_at(earlier, band_height) is Some,
        snapshot_at(later, band_height) is Some,
    ensures
        snapshot_at(earlier, band_height)->0 < snapshot_at(later, band_height)->0,
{
    assert(earlier / band_height < later / band_height) by (nonlinear_arith)
        requires
            1 <= band_height,
            0 <= earlier < later,
            earlier % band_height == 0,
            later % band_height == 0,
    ;
    assert(0 <= earlier / band_height && later / band_height <= later) by (nonlinear_arith)
        requires
            1 <= band_height,
            0 <= earlier < later,
    ;
}

} // verus!
