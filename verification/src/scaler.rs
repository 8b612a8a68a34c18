//! Nearest-neighbour scaling of a pixel stream, one scanline at a time.

use crate::source::ScanlinePixelSource;
use vstd::prelude::*;

verus! {

/// The exclusive upper end of the run of target positions that the source
/// position `i` fills: the ceiling of `(i + 1) * target / source`.
pub open spec fn boundary(i: int, source: int, target: int) -> int {
    ((i + 1) * target + source - 1) / source
}

/// Whether `table` is the boundary table that maps `source` positions onto
/// `target` positions.
pub open spec fn is_boundary_table(table: Seq<u16>, source: int, target: int) -> bool {
    &&& table.len() == source
    &&& forall|i: int| 0 <= i < source ==> #[trigger] table[i] as int == boundary(i, source, target)
}

/// Every boundary lies between zero and the target size.
pub proof fn lemma_boundary_range(i: int, source: int, target: int)
    requires
        0 <= i < source,
        0 <= target,
    ensures
        0 <= boundary(i, source, target) <= target,
{
    let num = (i + 1) * target + source - 1;
    assert(0 <= num) by (nonlinear_arith)
        requires
            0 <= i < source,
            0 <= target,
            num == (i + 1) * target + source - 1,
    ;
    assert(num < (target + 1) * source) by (nonlinear_arith)
        requires
            0 <= i < source,
            0 <= target,
            num == (i + 1) * target + source - 1,
    ;
    assert(0 <= num / source <= target) by (nonlinear_arith)
        requires
            0 <= num < (target + 1) * source,
            0 < source,
    ;
}

/// The first target position that source position `i` fills.
pub open spec fn run_start(i: int, source: int, target: int) -> int {
    if i <= 0 {
        0
    } else {
        boundary(i - 1, source, target)
    }
}

/// How many target positions source position `i` fills.
pub open spec fn run_length(i: int, source: int, target: int) -> int {
    boundary(i, source, target) - run_start(i, source, target)
}

/// The source position that target position `x` shows.
pub open spec fn source_index(x: int, source: int, target: int) -> int {
    x * source / target
}

/// A whole number lies below the ceiling of `a / b` exactly when its product
/// with `b` lies below `a`.
proof fn lemma_below_ceiling(x: int, a: int, b: int)
    requires
        0 <= a,
        0 < b,
    ensures
        x < (a + b - 1) / b <==> x * b < a,
{
    let c = (a + b - 1) / b;
    assert((c - 1) * b < a <= c * b) by (nonlinear_arith)
        requires
            0 <= a,
            0 < b,
            c == (a + b - 1) / b,
    ;
    if x < c {
        assert(x * b <= (c - 1) * b) by (nonlinear_arith)
            requires
                x <= c - 1,
                0 < b,
        ;
    } else {
        assert(x * b >= c * b) by (nonlinear_arith)
            requires
                x >= c,
                0 < b,
        ;
    }
}

/// A target position below boundary `i` comes before `(i + 1) * target` once
/// it is multiplied by the source size, and the other way round.
pub proof fn lemma_below_boundary(x: int, i: int, source: int, target: int)
    requires
        0 <= i,
        0 < source,
        0 <= target,
    ensures
        x < boundary(i, source, target) <==> x * source < (i + 1) * target,
{
    assert(0 <= (i + 1) * target) by (nonlinear_arith)
        requires
            0 <= i,
            0 <= target,
    ;
    lemma_below_ceiling(x, (i + 1) * target, source);
}

/// The boundaries never decrease.
pub proof fn lemma_boundary_monotone(i: int, j: int, source: int, target: int)
    requires
        0 <= i <= j,
        0 < source,
        0 <= target,
    ensures
        boundary(i, source, target) <= boundary(j, source, target),
{
    let x = boundary(i, source, target) - 1;
    lemma_below_boundary(x, i, source, target);
    lemma_below_boundary(x, j, source, target);
    assert((i + 1) * target <= (j + 1) * target) by (nonlinear_arith)
        requires
            0 <= i <= j,
            0 <= target,
    ;
}

/// The last boundary is the target size.
pub proof fn lemma_boundary_last(source: int, target: int)
    requires
        0 < source,
        0 <= target,
    ensures
        boundary(source - 1, source, target) == target,
{
    lemma_below_boundary(target, source - 1, source, target);
    lemma_below_boundary(target - 1, source - 1, source, target);
    assert((source - 1 + 1) * target == target * source) by (nonlinear_arith);
    assert((target - 1) * source < target * source) by (nonlinear_arith)
        requires
            0 < source,
    ;
}

/// A target position inside the run of source position `i` shows exactly that
/// source position.
pub proof fn lemma_run_shows_source(x: int, i: int, source: int, target: int)
    requires
        0 <= i < source,
        0 < target,
        run_start(i, source, target) <= x < boundary(i, source, target),
    ensures
        source_index(x, source, target) == i,
        0 <= x < target,
{
    lemma_below_boundary(x, i, source, target);
    if i > 0 {
        lemma_below_boundary(x, i - 1, source, target);
        lemma_boundary_range(i - 1, source, target);
    }
    lemma_boundary_range(i, source, target);
    let p = x * source;
    assert(i * target <= p);
    assert(p < (i + 1) * target);
    assert(p / target == i) by (nonlinear_arith)
        requires
            i * target <= p < (i + 1) * target,
            0 < target,
    ;
}

/// The source position that a target position shows exists.
pub proof fn lemma_source_index_range(x: int, source: int, target: int)
    requires
        0 <= x < target,
        0 < source,
    ensures
        0 <= source_index(x, source, target) < source,
{
    let p = x * source;
    assert(0 <= p < source * target) by (nonlinear_arith)
        requires
            0 <= x < target,
            0 < source,
            p == x * source,
    ;
    assert(0 <= p / target < source) by (nonlinear_arith)
        requires
            0 <= p < source * target,
            0 < target,
    ;
}

/// Builds the boundary table for one axis.
pub fn generate_scaling_ratio(source: usize, target: usize) -> (table: Vec<u16>)
    requires
        target <= 0xFFFF,
    ensures
        is_boundary_table(table@, source as int, target as int),
{
    let mut table: Vec<u16> = Vec::new();
    let mut i: usize = 0;
    while i < source
        invariant
            i <= source,
            target <= 0xFFFF,
            table@.len() == i,
            forall|k: int| 0 <= k < i ==> #[trigger] table@[k] as int == boundary(k, source as int, target as int),
        decreases source - i,
    {
        proof {
            lemma_boundary_range(i as int, source as int, target as int);
            assert((i + 1) * target <= (usize::MAX as int) * 0xFFFF) by (nonlinear_arith)
                requires
                    0 <= i < usize::MAX,
                    0 <= target <= 0xFFFF,
            ;
        }
        let scaled: u128 = (i as u128 + 1) * (target as u128) + (source as u128 - 1);
        let edge: u128 = scaled / (source as u128);
        table.push(edge as u16);
        i += 1;
    }
    table
}

/// The sizes that a scaler can be built for: no axis of the source is empty,
/// the target has at least one column, and every boundary fits in 16 bits.
pub open spec fn dimensions_ok(in_height: int, in_width: int, out_height: int, out_width: int) -> bool {
    &&& 1 <= in_width
    &&& 1 <= in_height <= 0xFFFF
    &&& 1 <= out_width <= 0xFFFF
    &&& 0 <= out_height <= 0xFFFF
}

/// One source row stretched or squeezed to `target` columns: column `x` shows
/// the source pixel at `x * source / target`.
pub open spec fn scaled_row(row: Seq<u16>, source: int, target: int) -> Seq<u16> {
    Seq::new(target as nat, |x: int| row[source_index(x, source, target)])
}

/// `row` written out `times` times in a row.
pub open spec fn repeated(row: Seq<u16>, times: int) -> Seq<u16>
    decreases times,
{
    if times <= 0 {
        Seq::empty()
    } else {
        row + repeated(row, times - 1)
    }
}

/// The source row that follows `row`; after the last row of a frame comes the
/// first row of the next one.
pub open spec fn row_after(row: int, in_height: int) -> int {
    if row + 1 >= in_height {
        0
    } else {
        row + 1
    }
}

/// The scaled stream for `pixels`, a run of source pixels that starts at the
/// beginning of source row `row`. Each complete source row is scaled to
/// `out_width` columns and written out as often as its vertical run is long;
/// a last, incomplete row gives nothing.
pub open spec fn scaled_rows(
    pixels: Seq<u16>,
    row: int,
    in_height: int,
    in_width: int,
    out_height: int,
    out_width: int,
) -> Seq<u16>
    decreases pixels.len(),
{
    if in_width <= 0 || pixels.len() < in_width {
        Seq::empty()
    } else {
        repeated(
            scaled_row(pixels.take(in_width), in_width, out_width),
            run_length(row, in_height, out_height),
        ) + scaled_rows(
            pixels.skip(in_width),
            row_after(row, in_height),
            in_height,
            in_width,
            out_height,
            out_width,
        )
    }
}

/// What is still to be handed out of a scaled row that is held in `line`:
/// the rest of the copy in progress, then the copies not yet begun.
pub open spec fn pending_output(line: Seq<u16>, repeat: int, index: int) -> Seq<u16> {
    if repeat <= 0 {
        Seq::empty()
    } else {
        line.skip(index) + repeated(line, repeat - 1)
    }
}

/// A line of `width` zero pixels.
fn blank_line(width: usize) -> (line: Vec<u16>)
    ensures
        line@.len() == width,
{
    let mut line: Vec<u16> = Vec::new();
    let mut x: usize = 0;
    while x < width
        invariant
            x <= width,
            line@.len() == x,
        decreases width - x,
    {
        line.push(0);
        x += 1;
    }
    line
}

/// Writes `pixel` to the positions `from..to` of `line`.
fn fill_run(line: &mut Vec<u16>, from: usize, to: usize, pixel: u16)
    requires
        from <= to <= old(line)@.len(),
    ensures
        final(line)@.len() == old(line)@.len(),
        forall|x: int| from <= x < to ==> #[trigger] final(line)@[x] == pixel,
        forall|x: int| 0 <= x < from || to <= x < old(line)@.len() ==> #[trigger] final(line)@[x] == old(line)@[x],
{
    let mut x: usize = from;
    while x < to
        invariant
            from <= x <= to <= line@.len(),
            line@.len() == old(line)@.len(),
            forall|k: int| from <= k < x ==> #[trigger] line@[k] == pixel,
            forall|k: int| 0 <= k < from || x <= k < old(line)@.len() ==> #[trigger] line@[k] == old(line)@[k],
        decreases to - x,
    {
        line.set(x, pixel);
        x += 1;
    }
}

/// The boundary tables of both axes for one pair of source and target sizes.
pub struct ScreenScaler<
    const IN_HEIGHT: usize,
    const IN_WIDTH: usize,
    const OUT_HEIGHT: usize,
    const OUT_WIDTH: usize,
> {
    width_ceil_calcs: Vec<u16>,
    height_ceil_calcs: Vec<u16>,
}

impl<
    const IN_HEIGHT: usize,
    const IN_WIDTH: usize,
    const OUT_HEIGHT: usize,
    const OUT_WIDTH: usize,
> ScreenScaler<IN_HEIGHT, IN_WIDTH, OUT_HEIGHT, OUT_WIDTH> {
    /// The horizontal boundary table.
    pub closed spec fn width_table(&self) -> Seq<u16> {
        self.width_ceil_calcs@
    }

    /// The vertical boundary table.
    pub closed spec fn height_table(&self) -> Seq<u16> {
        self.height_ceil_calcs@
    }

    /// Both tables are the boundary tables of their axis.
    pub open spec fn wf(&self) -> bool {
        &&& dimensions_ok(IN_HEIGHT as int, IN_WIDTH as int, OUT_HEIGHT as int, OUT_WIDTH as int)
        &&& is_boundary_table(self.width_table(), IN_WIDTH as int, OUT_WIDTH as int)
        &&& is_boundary_table(self.height_table(), IN_HEIGHT as int, OUT_HEIGHT as int)
    }

    /// Computes both boundary tables.
    pub fn new() -> (scaler: Self)
        requires
            dimensions_ok(IN_HEIGHT as int, IN_WIDTH as int, OUT_HEIGHT as int, OUT_WIDTH as int),
        ensures
            scaler.wf(),
    {
        Self {
            width_ceil_calcs: generate_scaling_ratio(IN_WIDTH, OUT_WIDTH),
            height_ceil_calcs: generate_scaling_ratio(IN_HEIGHT, OUT_HEIGHT),
        }
    }

    /// The horizontal boundaries, one for each source column.
    pub fn width_boundaries(&self) -> (table: &[u16])
        ensures
            table@ == self.width_table(),
    {
        self.width_ceil_calcs.as_slice()
    }

    /// The vertical boundaries, one for each source row.
    pub fn height_boundaries(&self) -> (table: &[u16])
        ensures
            table@ == self.height_table(),
    {
        self.height_ceil_calcs.as_slice()
    }

    /// The scaled stream of `iterator`, which starts at the top of a frame.
    pub fn scale_iterator<'a, S: ScanlinePixelSource<Item = u16>>(&'a self, iterator: S) -> (scaled:
        ScalerIterator<'a, S, IN_HEIGHT, IN_WIDTH, OUT_HEIGHT, OUT_WIDTH>)
        requires
            self.wf(),
            iterator.valid(),
        ensures
            scaled.valid(),
            scaled.remaining() == scaled_rows(
                iterator.remaining(),
                0,
                IN_HEIGHT as int,
                IN_WIDTH as int,
                OUT_HEIGHT as int,
                OUT_WIDTH as int,
            ),
    {
        ScalerIterator::new(
            iterator,
            self.width_ceil_calcs.as_slice(),
            self.height_ceil_calcs.as_slice(),
        )
    }
}

/// The scaled stream of a pixel source, handed out pixel by pixel.
pub struct ScalerIterator<
    'a,
    S,
    const IN_HEIGHT: usize,
    const IN_WIDTH: usize,
    const OUT_HEIGHT: usize,
    const OUT_WIDTH: usize,
> {
    iterator: S,
    input_current_scan_line: u16,
    output_current_scan_line: u16,
    scaled_scan_line_buffer: Vec<u16>,
    width_ceil_calcs: &'a [u16],
    height_ceil_calcs: &'a [u16],
    scaled_line_buffer_repeat: u16,
    current_scaled_line_index: u16,
}

impl<
    'a,
    S: ScanlinePixelSource<Item = u16>,
    const IN_HEIGHT: usize,
    const IN_WIDTH: usize,
    const OUT_HEIGHT: usize,
    const OUT_WIDTH: usize,
> ScalerIterator<'a, S, IN_HEIGHT, IN_WIDTH, OUT_HEIGHT, OUT_WIDTH> {
    /// A scaled stream over `iterator`, which starts at the top of a frame.
    pub fn new(iterator: S, width_ceil_calcs: &'a [u16], height_ceil_calcs: &'a [u16]) -> (scaled:
        Self)
        requires
            dimensions_ok(IN_HEIGHT as int, IN_WIDTH as int, OUT_HEIGHT as int, OUT_WIDTH as int),
            is_boundary_table(width_ceil_calcs@, IN_WIDTH as int, OUT_WIDTH as int),
            is_boundary_table(height_ceil_calcs@, IN_HEIGHT as int, OUT_HEIGHT as int),
            iterator.valid(),
        ensures
            scaled.valid(),
            scaled.remaining() == scaled_rows(
                iterator.remaining(),
                0,
                IN_HEIGHT as int,
                IN_WIDTH as int,
                OUT_HEIGHT as int,
                OUT_WIDTH as int,
            ),
    {
        Self {
            iterator,
            input_current_scan_line: 0,
            output_current_scan_line: 0,
            scaled_scan_line_buffer: blank_line(OUT_WIDTH),
            scaled_line_buffer_repeat: 0,
            current_scaled_line_index: 0,
            width_ceil_calcs,
            height_ceil_calcs,
        }
    }
}

impl<
    'a,
    S: ScanlinePixelSource<Item = u16>,
    const IN_HEIGHT: usize,
    const IN_WIDTH: usize,
    const OUT_HEIGHT: usize,
    const OUT_WIDTH: usize,
> ScanlinePixelSource for ScalerIterator<'a, S, IN_HEIGHT, IN_WIDTH, OUT_HEIGHT, OUT_WIDTH> {
    type Item = u16;

    closed spec fn valid(&self) -> bool {
        &&& dimensions_ok(IN_HEIGHT as int, IN_WIDTH as int, OUT_HEIGHT as int, OUT_WIDTH as int)
        &&& is_boundary_table(self.width_ceil_calcs@, IN_WIDTH as int, OUT_WIDTH as int)
        &&& is_boundary_table(self.height_ceil_calcs@, IN_HEIGHT as int, OUT_HEIGHT as int)
        &&& self.iterator.valid()
        &&& self.scaled_scan_line_buffer@.len() == OUT_WIDTH
        &&& self.input_current_scan_line < IN_HEIGHT
        &&& self.output_current_scan_line as int == run_start(
            self.input_current_scan_line as int,
            IN_HEIGHT as int,
            OUT_HEIGHT as int,
        )
        &&& self.current_scaled_line_index < OUT_WIDTH
    }

    closed spec fn remaining(&self) -> Seq<u16> {
        pending_output(
            self.scaled_scan_line_buffer@,
            self.scaled_line_buffer_repeat as int,
            self.current_scaled_line_index as int,
        ) + scaled_rows(
            self.iterator.remaining(),
            self.input_current_scan_line as int,
            IN_HEIGHT as int,
            IN_WIDTH as int,
            OUT_HEIGHT as int,
            OUT_WIDTH as int,
        )
    }

    /// The next pixel of the scaled stream. Reads a whole source row whenever
    /// the row in hand has been written out often enough, and ends the stream
    /// when the source ends before a row is complete.
    fn next(&mut self) -> (pixel: Option<u16>) {
        loop
            invariant
                self.valid(),
                self.remaining() == old(self).remaining(),
            decreases self.iterator.remaining().len(),
        {
            if self.scaled_line_buffer_repeat > 0 {
                let pixel = self.scaled_scan_line_buffer[self.current_scaled_line_index as usize];
                let ghost line = self.scaled_scan_line_buffer@;
                let ghost index = self.current_scaled_line_index as int;
                let ghost repeat = self.scaled_line_buffer_repeat as int;
                let next_current_scaled_line_index = self.current_scaled_line_index + 1;
                if (next_current_scaled_line_index as usize) < OUT_WIDTH {
                    self.current_scaled_line_index = next_current_scaled_line_index;
                    proof {
                        assert(line.skip(index).skip(1) =~= line.skip(index + 1));
                        assert(pending_output(line, repeat, index).skip(1) =~= pending_output(
                            line,
                            repeat,
                            index + 1,
                        ));
                    }
                } else {
                    self.scaled_line_buffer_repeat -= 1;
                    self.current_scaled_line_index = 0;
                    proof {
                        assert(line.skip(0) =~= line);
                        assert(line.skip(index).len() == 1);
                        assert(pending_output(line, repeat, index).skip(1) =~= repeated(
                            line,
                            repeat - 1,
                        ));
                        assert(pending_output(line, repeat - 1, 0) =~= repeated(line, repeat - 1));
                    }
                }
                proof {
                    assert(pending_output(line, repeat, index)[0] == pixel);
                    assert(self.remaining() =~= old(self).remaining().skip(1));
                }
                return Some(pixel);
            }
            let ghost start = self.iterator.remaining();
            let ghost row = self.input_current_scan_line as int;
            let mut next_x_position: u16 = 0;
            let mut count: usize = 0;
            while count < IN_WIDTH
                invariant
                    self.valid(),
                    self.scaled_line_buffer_repeat == 0,
                    self.input_current_scan_line as int == row,
                    count <= IN_WIDTH,
                    count <= start.len(),
                    self.iterator.remaining() == start.skip(count as int),
                    next_x_position as int == run_start(count as int, IN_WIDTH as int, OUT_WIDTH as int),
                    forall|x: int|
                        0 <= x < next_x_position ==> #[trigger] self.scaled_scan_line_buffer@[x]
                            == start[source_index(x, IN_WIDTH as int, OUT_WIDTH as int)],
                    scaled_rows(
                        start,
                        row,
                        IN_HEIGHT as int,
                        IN_WIDTH as int,
                        OUT_HEIGHT as int,
                        OUT_WIDTH as int,
                    ) == old(self).remaining(),
                decreases IN_WIDTH - count,
            {
                let pixel = self.iterator.next();
                if pixel.is_none() {
                    proof {
                        assert(start.len() == count);
                    }
                    return None;
                }
                let last_pixel = self.width_ceil_calcs[count];
                proof {
                    lemma_boundary_range(count as int, IN_WIDTH as int, OUT_WIDTH as int);
                    if count > 0 {
                        lemma_boundary_monotone(
                            count as int - 1,
                            count as int,
                            IN_WIDTH as int,
                            OUT_WIDTH as int,
                        );
                    }
                    assert(start.skip(count as int).skip(1) =~= start.skip(count as int + 1));
                }
                let ghost before = self.scaled_scan_line_buffer@;
                fill_run(
                    &mut self.scaled_scan_line_buffer,
                    next_x_position as usize,
                    last_pixel as usize,
                    pixel.unwrap(),
                );
                proof {
                    assert forall|x: int| 0 <= x < last_pixel implies #[trigger] self.scaled_scan_line_buffer@[x]
                        == start[source_index(x, IN_WIDTH as int, OUT_WIDTH as int)] by {
                        if x >= next_x_position {
                            lemma_run_shows_source(
                                x,
                                count as int,
                                IN_WIDTH as int,
                                OUT_WIDTH as int,
                            );
                        } else {
                            assert(self.scaled_scan_line_buffer@[x] == before[x]);
                        }
                    }
                }
                next_x_position = last_pixel;
                count += 1;
            }
            proof {
                lemma_boundary_last(IN_WIDTH as int, OUT_WIDTH as int);
                assert(self.scaled_scan_line_buffer@ =~= scaled_row(
                    start.take(IN_WIDTH as int),
                    IN_WIDTH as int,
                    OUT_WIDTH as int,
                )) by {
                    assert forall|x: int| 0 <= x < OUT_WIDTH implies 0 <= #[trigger] source_index(
                        x,
                        IN_WIDTH as int,
                        OUT_WIDTH as int,
                    ) < IN_WIDTH by {
                        lemma_source_index_range(x, IN_WIDTH as int, OUT_WIDTH as int);
                    }
                }
                lemma_boundary_range(row, IN_HEIGHT as int, OUT_HEIGHT as int);
                if row > 0 {
                    lemma_boundary_monotone(row - 1, row, IN_HEIGHT as int, OUT_HEIGHT as int);
                }
            }
            let next_scan_line_start = self.height_ceil_calcs[self.input_current_scan_line as usize];
            self.scaled_line_buffer_repeat = next_scan_line_start - self.output_current_scan_line;
            self.output_current_scan_line = self.output_current_scan_line
                + self.scaled_line_buffer_repeat;
            if self.input_current_scan_line as usize >= IN_HEIGHT - 1 {
                self.output_current_scan_line = 0;
                self.input_current_scan_line = 0;
            } else {
                self.input_current_scan_line += 1;
            }
            self.current_scaled_line_index = 0;
            proof {
                let line = self.scaled_scan_line_buffer@;
                let repeat = self.scaled_line_buffer_repeat as int;
                assert(line.skip(0) =~= line);
                assert(pending_output(line, repeat, 0) =~= repeated(line, repeat));
                assert(repeat == run_length(row, IN_HEIGHT as int, OUT_HEIGHT as int));
            }
        }
    }
}

/// A boundary table never decreases, and its last entry is the target size.
pub proof fn lemma_table_monotone(table: Seq<u16>, source: int, target: int)
    requires
        is_boundary_table(table, source, target),
        0 < source,
        0 <= target,
    ensures
        forall|i: int, j: int| 0 <= i <= j < source ==> #[trigger] table[i] <= #[trigger] table[j],
        table[source - 1] as int == target,
{
    assert forall|i: int, j: int| 0 <= i <= j < source implies #[trigger] table[i] <= #[trigger] table[j] by {
        lemma_boundary_monotone(i, j, source, target);
    }
    lemma_boundary_last(source, target);
}

/// The lengths of the first `count` runs taken together.
pub open spec fn total_run_length(count: int, source: int, target: int) -> int
    decreases count,
{
    if count <= 0 {
        0
    } else {
        total_run_length(count - 1, source, target) + run_length(count - 1, source, target)
    }
}

/// The runs lie end to end: the first `count` of them fill the target up to
/// where run `count` starts, and all of them together fill the target exactly.
pub proof fn lemma_runs_fill_target(count: int, source: int, target: int)
    requires
        0 <= count <= source,
        0 < source,
        0 <= target,
    ensures
        total_run_length(count, source, target) == run_start(count, source, target),
        total_run_length(source, source, target) == target,
{
    lemma_runs_up_to(count, source, target);
    lemma_runs_up_to(source, source, target);
    lemma_boundary_last(source, target);
}

proof fn lemma_runs_up_to(count: int, source: int, target: int)
    requires
        0 <= count,
    ensures
        total_run_length(count, source, target) == run_start(count, source, target),
    decreases count,
{
    if count > 0 {
        lemma_runs_up_to(count - 1, source, target);
    }
}

/// No run is shorter than the whole part of `target / source`, and none is
/// longer than that ratio rounded up, so two runs differ by one at most.
pub proof fn lemma_run_length_bounds(i: int, source: int, target: int)
    requires
        0 <= i < source,
        0 <= target,
    ensures
        target / source <= run_length(i, source, target) <= (target + source - 1) / source,
{
    let low = target / source;
    let high = (target + source - 1) / source;
    assert(low * source <= target) by (nonlinear_arith)
        requires
            0 < source,
            0 <= target,
            low == target / source,
    ;
    assert(high * source >= target) by (nonlinear_arith)
        requires
            0 < source,
            0 <= target,
            high == (target + source - 1) / source,
    ;
    let end = boundary(i, source, target);
    if i == 0 {
        assert((0 + 1) * target == target) by (nonlinear_arith);
        assert(low <= high) by (nonlinear_arith)
            requires
                low * source <= target <= high * source,
                0 < source,
        ;
    } else {
        let start = boundary(i - 1, source, target);
        lemma_below_boundary(start, i - 1, source, target);
        lemma_below_boundary(start - 1, i - 1, source, target);
        lemma_below_boundary(start + high, i, source, target);
        lemma_below_boundary(start - 1 + low, i, source, target);
        assert((start + high) * source >= (i + 1) * target) by (nonlinear_arith)
            requires
                start * source >= (i - 1 + 1) * target,
                high * source >= target,
        ;
        assert((start - 1 + low) * source < (i + 1) * target) by (nonlinear_arith)
            requires
                (start - 1) * source < (i - 1 + 1) * target,
                low * source <= target,
        ;
    }
}

/// `row` written out `times` times is `times` times as long as `row`.
pub proof fn lemma_repeated_len(row: Seq<u16>, times: int)
    requires
        0 <= times,
    ensures
        repeated(row, times).len() == times * row.len(),
    decreases times,
{
    if times > 0 {
        lemma_repeated_len(row, times - 1);
        assert(times * row.len() == (times - 1) * row.len() + row.len()) by (nonlinear_arith);
    } else {
        assert(0 * row.len() == 0) by (nonlinear_arith);
    }
}

/// Source rows `row .. row + count` of one frame give as many target rows as
/// their vertical runs are long, each `out_width` pixels wide.
pub proof fn lemma_scaled_rows_len(
    pixels: Seq<u16>,
    row: int,
    count: int,
    in_height: int,
    in_width: int,
    out_height: int,
    out_width: int,
)
    requires
        dimensions_ok(in_height, in_width, out_height, out_width),
        0 <= row,
        0 <= count,
        row + count <= in_height,
        pixels.len() == count * in_width,
    ensures
        scaled_rows(pixels, row, in_height, in_width, out_height, out_width).len() == out_width * (
        run_start(row + count, in_height, out_height) - run_start(row, in_height, out_height)),
    decreases count,
{
    if count == 0 {
        assert(0 * in_width == 0) by (nonlinear_arith);
        assert(out_width * 0 == 0) by (nonlinear_arith);
    } else {
        assert(count * in_width == (count - 1) * in_width + in_width) by (nonlinear_arith);
        assert(0 <= (count - 1) * in_width) by (nonlinear_arith)
            requires
                1 <= count,
                1 <= in_width,
        ;
        let line = scaled_row(pixels.take(in_width), in_width, out_width);
        let times = run_length(row, in_height, out_height);
        lemma_boundary_range(row, in_height, out_height);
        if row > 0 {
            lemma_boundary_monotone(row - 1, row, in_height, out_height);
        }
        lemma_repeated_len(line, times);
        let rest = pixels.skip(in_width);
        if count == 1 {
            assert(rest.len() == 0);
            assert(scaled_rows(
                rest,
                row_after(row, in_height),
                in_height,
                in_width,
                out_height,
                out_width,
            ).len() == 0);
        } else {
            lemma_scaled_rows_len(
                rest,
                row + 1,
                count - 1,
                in_height,
                in_width,
                out_height,
                out_width,
            );
        }
        let a = run_start(row, in_height, out_height);
        let b = boundary(row, in_height, out_height);
        let c = run_start(row + count, in_height, out_height);
        assert(times * line.len() + out_width * (c - b) == out_width * (c - a)) by (nonlinear_arith)
            requires
                times == b - a,
                line.len() == out_width,
        ;
    }
}

/// One whole source frame gives one whole target frame.
pub proof fn lemma_frame_len(
    pixels: Seq<u16>,
    in_height: int,
    in_width: int,
    out_height: int,
    out_width: int,
)
    requires
        dimensions_ok(in_height, in_width, out_height, out_width),
        pixels.len() == in_height * in_width,
    ensures
        scaled_rows(pixels, 0, in_height, in_width, out_height, out_width).len() == out_width
            * out_height,
{
    lemma_scaled_rows_len(pixels, 0, in_height, in_height, in_width, out_height, out_width);
    lemma_boundary_last(in_height, out_height);
}

/// Copy `copy` of a repeated row holds the row's pixel `x` at position `x`.
pub proof fn lemma_repeated_index(row: Seq<u16>, times: int, copy: int, x: int)
    requires
        0 <= copy < times,
        0 <= x < row.len(),
    ensures
        0 <= copy * row.len() + x < repeated(row, times).len(),
        repeated(row, times)[copy * row.len() + x] == row[x],
    decreases times,
{
    lemma_repeated_len(row, times);
    lemma_repeated_len(row, times - 1);
    let width = row.len() as int;
    assert(0 <= copy * width + x < times * width) by (nonlinear_arith)
        requires
            0 <= copy < times,
            0 <= x < width,
    ;
    if copy == 0 {
        assert(0 * width == 0) by (nonlinear_arith);
    } else {
        lemma_repeated_index(row, times - 1, copy - 1, x);
        assert(copy * width + x - width == (copy - 1) * width + x) by (nonlinear_arith);
        assert(copy * width + x >= width) by (nonlinear_arith)
            requires
                1 <= copy,
                0 <= x,
                0 <= width,
        ;
    }
}

/// In the scaled stream of the source rows `row .. row + count` of a frame,
/// the pixel in column `x` of target row `y` is the source pixel that lies
/// nearest above and to the left of it: the one in source row
/// `y * in_height / out_height` and source column `x * in_width / out_width`.
pub proof fn lemma_scaled_rows_pixel(
    pixels: Seq<u16>,
    row: int,
    count: int,
    in_height: int,
    in_width: int,
    out_height: int,
    out_width: int,
    x: int,
    y: int,
)
    requires
        dimensions_ok(in_height, in_width, out_height, out_width),
        0 <= row,
        0 <= count,
        row + count <= in_height,
        pixels.len() == count * in_width,
        0 <= x < out_width,
        run_start(row, in_height, out_height) <= y < run_start(row + count, in_height, out_height),
    ensures
        row <= source_index(y, in_height, out_height) < row + count,
        0 <= source_index(x, in_width, out_width) < in_width,
        0 <= (y - run_start(row, in_height, out_height)) * out_width + x < scaled_rows(
            pixels,
            row,
            in_height,
            in_width,
            out_height,
            out_width,
        ).len(),
        0 <= (source_index(y, in_height, out_height) - row) * in_width + source_index(
            x,
            in_width,
            out_width,
        ) < pixels.len(),
        scaled_rows(pixels, row, in_height, in_width, out_height, out_width)[(y - run_start(
            row,
            in_height,
            out_height,
        )) * out_width + x] == pixels[(source_index(y, in_height, out_height) - row) * in_width
            + source_index(x, in_width, out_width)],
    decreases count,
{
    let start = run_start(row, in_height, out_height);
    let end = boundary(row, in_height, out_height);
    let sx = source_index(x, in_width, out_width);
    let sy = source_index(y, in_height, out_height);
    lemma_source_index_range(x, in_width, out_width);
    lemma_scaled_rows_len(pixels, row, count, in_height, in_width, out_height, out_width);
    assert(count >= 1);
    assert(count * in_width == (count - 1) * in_width + in_width) by (nonlinear_arith);
    assert(0 <= (count - 1) * in_width) by (nonlinear_arith)
        requires
            1 <= count,
            1 <= in_width,
    ;
    let first = pixels.take(in_width);
    let line = scaled_row(first, in_width, out_width);
    let times = run_length(row, in_height, out_height);
    let rest = pixels.skip(in_width);
    let tail = scaled_rows(
        rest,
        row_after(row, in_height),
        in_height,
        in_width,
        out_height,
        out_width,
    );
    let all = scaled_rows(pixels, row, in_height, in_width, out_height, out_width);
    assert(all == repeated(line, times) + tail);
    lemma_boundary_range(row, in_height, out_height);
    if row > 0 {
        lemma_boundary_monotone(row - 1, row, in_height, out_height);
    }
    lemma_repeated_len(line, times);
    let position = (y - start) * out_width + x;
    if y < end {
        lemma_run_shows_source(y, row, in_height, out_height);
        lemma_repeated_index(line, times, y - start, x);
        assert(sy == row);
        assert((sy - row) * in_width == 0) by (nonlinear_arith)
            requires
                sy == row,
        ;
        assert(all[position] == line[x]);
        assert(line[x] == first[sx]);
        assert(first[sx] == pixels[sx]);
    } else {
        assert(count >= 2) by {
            if count == 1 {
                assert(run_start(row + 1, in_height, out_height) == end);
            }
        }
        assert(row_after(row, in_height) == row + 1);
        lemma_scaled_rows_pixel(
            rest,
            row + 1,
            count - 1,
            in_height,
            in_width,
            out_height,
            out_width,
            x,
            y,
        );
        lemma_scaled_rows_len(
            rest,
            row + 1,
            count - 1,
            in_height,
            in_width,
            out_height,
            out_width,
        );
        let block = times * out_width;
        assert(position - block == (y - end) * out_width + x) by (nonlinear_arith)
            requires
                position == (y - start) * out_width + x,
                block == times * out_width,
                times == end - start,
        ;
        assert(position >= block) by (nonlinear_arith)
            requires
                position - block == (y - end) * out_width + x,
                y >= end,
                0 <= x,
                0 < out_width,
        ;
        assert(repeated(line, times).len() == block);
        assert(all[position] == tail[position - block]);
        let inner = (sy - (row + 1)) * in_width + sx;
        assert(rest[inner] == pixels[inner + in_width]);
        assert(inner + in_width == (sy - row) * in_width + sx) by (nonlinear_arith)
            requires
                inner == (sy - (row + 1)) * in_width + sx,
        ;
    }
}

/// In the scaled stream of one whole frame, the pixel in column `x` of target
/// row `y` is the source pixel in row `y * in_height / out_height` and column
/// `x * in_width / out_width`.
pub proof fn lemma_frame_pixel(
    pixels: Seq<u16>,
    in_height: int,
    in_width: int,
    out_height: int,
    out_width: int,
    x: int,
    y: int,
)
    requires
        dimensions_ok(in_height, in_width, out_height, out_width),
        pixels.len() == in_height * in_width,
        0 <= x < out_width,
        0 <= y < out_height,
    ensures
        0 <= y * out_width + x < scaled_rows(
            pixels,
            0,
            in_height,
            in_width,
            out_height,
            out_width,
        ).len(),
        0 <= source_index(y, in_height, out_height) * in_width + source_index(
            x,
            in_width,
            out_width,
        ) < pixels.len(),
        scaled_rows(pixels, 0, in_height, in_width, out_height, out_width)[y * out_width + x]
            == pixels[source_index(y, in_height, out_height) * in_width + source_index(
            x,
            in_width,
            out_width,
        )],
{
    lemma_boundary_last(in_height, out_height);
    lemma_scaled_rows_pixel(
        pixels,
        0,
        in_height,
        in_height,
        in_width,
        out_height,
        out_width,
        x,
        y,
    );
}

} // verus!
