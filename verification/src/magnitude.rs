//! Row-major matrices of constant-Q responses, and the stacking of the
//! per-octave responses into one spectrogram.
use vstd::prelude::*;

use vstd::arithmetic::div_mod::lemma_fundamental_div_mod_converse;

use crate::chunk::FREQUENCY_BINS;

verus! {

/// The errors of the constant-Q transform.
#[derive(Debug)]
pub enum CqtError {
    /// The transform's parameters or intermediate shapes are inconsistent.
    InvalidParameters(String),
    /// Resampling a signal between octaves failed.
    Resample(String),
    /// A Fourier transform failed.
    Fft(String),
}

impl CqtError {
    /// The report of the error: a prefix naming its kind, then its message.
    pub fn to_string(&self) -> (report: String)
        ensures
            report@ == match self {
                CqtError::InvalidParameters(m) => "invalid parameters: "@ + m@,
                CqtError::Resample(m) => "resampling failed: "@ + m@,
                CqtError::Fft(m) => "FFT failed: "@ + m@,
            },
    {
        match self {
            CqtError::InvalidParameters(message) => {
                let mut report = String::from_str("invalid parameters: ");
                report.append(message.as_str());
                report
            },
            CqtError::Resample(message) => {
                let mut report = String::from_str("resampling failed: ");
                report.append(message.as_str());
                report
            },
            CqtError::Fft(message) => {
                let mut report = String::from_str("FFT failed: ");
                report.append(message.as_str());
                report
            },
        }
    }
}

/// A matrix of `rows` by `columns` values in row-major order.
pub struct Magnitude<T> {
    data: Vec<T>,
    rows: usize,
    columns: usize,
}

impl<T> Magnitude<T> {
    /// The matrix holds exactly `rows * columns` values; every matrix does.
    #[verifier::type_invariant]
    pub closed spec fn wf(self) -> bool {
        &&& self.data@.len() == self.rows * self.columns
        &&& self.rows * self.columns <= usize::MAX
    }

    /// The number of rows.
    pub closed spec fn row_count(self) -> nat {
        self.rows as nat
    }

    /// The number of columns.
    pub closed spec fn column_count(self) -> nat {
        self.columns as nat
    }

    /// The values, row after row.
    pub closed spec fn values(self) -> Seq<T> {
        self.data@
    }

    /// The value in row `row` and column `column`.
    pub open spec fn entry(self, row: int, column: int) -> T {
        self.values()[row * self.column_count() + column]
    }

    /// The number of rows.
    pub fn rows(&self) -> (rows: usize)
        ensures
            rows == self.row_count(),
            self.values().len() == self.row_count() * self.column_count(),
    {
        proof {
            use_type_invariant(self);
        }
        self.rows
    }

    /// The number of columns.
    pub fn cols(&self) -> (columns: usize)
        ensures
            columns == self.column_count(),
            self.values().len() == self.row_count() * self.column_count(),
    {
        proof {
            use_type_invariant(self);
        }
        self.columns
    }

    /// The number of rows and of columns.
    pub fn shape(&self) -> (shape: (usize, usize))
        ensures
            shape.0 == self.row_count(),
            shape.1 == self.column_count(),
    {
        (self.rows, self.columns)
    }

    /// The values, row after row.
    pub fn as_slice(&self) -> (values: &[T])
        ensures
            values@ == self.values(),
            values@.len() == self.row_count() * self.column_count(),
    {
        proof {
            use_type_invariant(self);
        }
        self.data.as_slice()
    }

    /// The matrix with `rows` rows of `columns` values taken from `data`;
    /// `None` unless `data` holds exactly `rows * columns` values.
    pub fn from_vec(data: Vec<T>, rows: usize, columns: usize) -> (matrix: Option<Self>)
        ensures
            matrix is Some <==> data@.len() == rows * columns,
            matrix matches Some(m) ==> m.wf() && m.row_count() == rows && m.column_count() == columns
                && m.values() == data@,
    {
        let available = data.len();
        match rows.checked_mul(columns) {
            Some(length) => {
                if available == length {
                    Some(Magnitude { data, rows, columns })
                } else {
                    None
                }
            },
            None => None,
        }
    }

    /// Row `row`: `None` when the matrix has columns but not that row.
    pub fn row(&self, row: usize) -> (values: Option<&[T]>)
        ensures
            values is Some <==> (self.column_count() == 0 || row < self.row_count()),
            values matches Some(v) ==> v@.len() == self.column_count(),
            values matches Some(v) ==> v@ == self.values().subrange(
                row * self.column_count(),
                row * self.column_count() + self.column_count(),
            ),
    {
        proof {
            use_type_invariant(self);
        }
        if self.columns == 0 {
            return Some(&self.data.as_slice()[0..0]);
        }
        if row >= self.rows {
            return None;
        }
        proof {
            assert(row * self.columns + self.columns <= self.rows * self.columns) by (nonlinear_arith)
                requires
                    row < self.rows,
            ;
        }
        let start = row * self.columns;
        let end = start + self.columns;
        Some(&self.data.as_slice()[start..end])
    }

    /// Sets the value in row `row` and column `column` to `value`; a place
    /// outside the matrix leaves it unchanged and is reported by `false`.
    pub fn set(&mut self, row: usize, column: usize, value: T) -> (done: bool)
        ensures
            final(self).wf(),
            done <==> (row < old(self).row_count() && column < old(self).column_count()),
            final(self).row_count() == old(self).row_count(),
            final(self).column_count() == old(self).column_count(),
            done ==> final(self).values() == old(self).values().update(
                row * old(self).column_count() + column,
                value,
            ),
            !done ==> final(self).values() == old(self).values(),
    {
        proof {
            use_type_invariant(&*self);
        }
        if row >= self.rows || column >= self.columns {
            return false;
        }
        proof {
            assert(row * self.columns + column < self.rows * self.columns) by (nonlinear_arith)
                requires
                    row < self.rows,
                    column < self.columns,
            ;
        }
        let index = row * self.columns + column;
        let mut taken = Magnitude { data: Vec::new(), rows: 0, columns: 0 };
        std::mem::swap(&mut taken, self);
        let Magnitude { mut data, rows, columns } = taken;
        data.set(index, value);
        *self = Magnitude { data, rows, columns };
        true
    }
}

impl<T: Copy> Magnitude<T> {
    /// The matrix of the same shape with `transform` applied to every value.
    pub fn map<U, F: Fn(T) -> U>(&self, transform: F) -> (mapped: Magnitude<U>)
        requires
            forall|i: int| 0 <= i < self.values().len() ==> call_requires(transform, (#[trigger] self.values()[i],)),
        ensures
            mapped.wf(),
            mapped.row_count() == self.row_count(),
            mapped.column_count() == self.column_count(),
            mapped.values().len() == self.values().len(),
            forall|i: int|
                0 <= i < self.values().len() ==> call_ensures(
                    transform,
                    (self.values()[i],),
                    #[trigger] mapped.values()[i],
                ),
    {
        proof {
            use_type_invariant(self);
        }
        let mut data: Vec<U> = Vec::new();
        let mut i: usize = 0;
        while i < self.data.len()
            invariant
                self.wf(),
                forall|k: int| 0 <= k < self.values().len() ==> call_requires(transform, (#[trigger] self.values()[k],)),
                i <= self.data@.len(),
                data@.len() == i,
                forall|k: int|
                    0 <= k < i ==> call_ensures(transform, (self.values()[k],), #[trigger] data@[k]),
            decreases self.data@.len() - i,
        {
            assert(call_requires(transform, (self.values()[i as int],)));
            let value = self.data[i];
            data.push(transform(value));
            i = i + 1;
        }
        Magnitude { data, rows: self.rows, columns: self.columns }
    }

    /// The `rows` by `columns` matrix with every value `zero`; refused when
    /// the number of values overflows a machine word.
    pub fn zeros(rows: usize, columns: usize, zero: T) -> (matrix: Result<Self, CqtError>)
        ensures
            matrix is Ok <==> rows * columns <= usize::MAX,
            matrix matches Ok(m) ==> {
                &&& m.wf()
                &&& m.row_count() == rows
                &&& m.column_count() == columns
                &&& m.values().len() == rows * columns
                &&& forall|i: int| 0 <= i < rows * columns ==> #[trigger] m.values()[i] == zero
            },
            matrix matches Err(e) ==> (e matches CqtError::InvalidParameters(m) && m@
                == "CQT matrix size overflow"@),
    {
        let length = match rows.checked_mul(columns) {
            Some(length) => length,
            None => {
                return Err(CqtError::InvalidParameters(String::from_str("CQT matrix size overflow")));
            },
        };
        let mut data: Vec<T> = Vec::new();
        let mut i: usize = 0;
        while i < length
            invariant
                i <= length,
                data@.len() == i,
                forall|j: int| 0 <= j < i ==> #[trigger] data@[j] == zero,
            decreases length - i,
        {
            data.push(zero);
            i = i + 1;
        }
        Ok(Magnitude { data, rows, columns })
    }

    /// The value in row `row` and column `column`.
    pub fn get(&self, row: usize, column: usize) -> (value: T)
        requires
            row < self.row_count(),
            column < self.column_count(),
        ensures
            value == self.entry(row as int, column as int),
    {
        proof {
            use_type_invariant(self);
            assert(row * self.columns + column < self.rows * self.columns) by (nonlinear_arith)
                requires
                    row < self.rows,
                    column < self.columns,
            ;
        }
        self.data[row * self.columns + column]
    }
}

/// The octave processed at step `step` of the stacking: the responses are
/// stacked from the last (highest) to the first.
pub open spec fn octave_at<T>(responses: Seq<(Magnitude<T>, usize)>, step: int) -> (
    Magnitude<T>,
    usize,
) {
    responses[responses.len() - 1 - step]
}

/// The number of rows an octave of `bins` bins contributes when `offset`
/// output rows are already filled.
pub open spec fn rows_copied(offset: int, bins: int) -> int {
    if bins <= FREQUENCY_BINS - offset {
        bins
    } else {
        FREQUENCY_BINS - offset
    }
}

/// The number of output rows filled after `step` steps of the stacking.
pub open spec fn offset_after<T>(responses: Seq<(Magnitude<T>, usize)>, step: int) -> int
    decreases step,
{
    if step <= 0 {
        0
    } else {
        let offset = offset_after(responses, step - 1);
        offset + rows_copied(offset, octave_at(responses, step - 1).1 as int)
    }
}

/// The first row of an octave's response that is kept: an octave of `bins`
/// bins keeps its last `bins` rows.
pub open spec fn rows_skipped<T>(magnitude: Magnitude<T>, bins: int) -> int {
    if magnitude.row_count() >= bins {
        magnitude.row_count() - bins
    } else {
        0
    }
}

/// The octave of step `step` has every row it must contribute.
pub open spec fn octave_fits<T>(responses: Seq<(Magnitude<T>, usize)>, step: int) -> bool {
    let (magnitude, bins) = octave_at(responses, step);
    let copied = rows_copied(offset_after(responses, step), bins as int);
    ||| copied == 0
    ||| magnitude.column_count() == 0
    ||| rows_skipped(magnitude, bins as int) + copied <= magnitude.row_count()
}

/// The fewest frames among the responses.
pub open spec fn min_columns<T>(responses: Seq<(Magnitude<T>, usize)>) -> int
    decreases responses.len(),
{
    if responses.len() <= 1 {
        responses[0].0.column_count() as int
    } else {
        let rest = min_columns(responses.drop_last());
        let last = responses.last().0.column_count() as int;
        if last < rest {
            last
        } else {
            rest
        }
    }
}

/// The value of the stacked spectrogram in row `row` and column `column`,
/// looked up from step `step` on: the row comes from the octave whose rows
/// cover it, and rows no octave covers keep the value `zero`.
pub open spec fn stacked_entry<T>(
    responses: Seq<(Magnitude<T>, usize)>,
    zero: T,
    row: int,
    column: int,
    step: int,
) -> T
    decreases responses.len() - step,
{
    if step >= responses.len() || step < 0 {
        zero
    } else if row < offset_after(responses, step + 1) {
        let (magnitude, bins) = octave_at(responses, step);
        magnitude.entry(
            rows_skipped(magnitude, bins as int) + row - offset_after(responses, step),
            column,
        )
    } else {
        stacked_entry(responses, zero, row, column, step + 1)
    }
}

/// The stacking fills rows in order and never more than 105.
proof fn lemma_offsets_grow<T>(responses: Seq<(Magnitude<T>, usize)>, earlier: int, later: int)
    requires
        0 <= earlier <= later,
    ensures
        0 <= offset_after(responses, earlier) <= offset_after(responses, later) <= FREQUENCY_BINS,
    decreases later - earlier,
{
    if earlier < later {
        lemma_offsets_grow(responses, earlier, later - 1);
    } else {
        lemma_offsets_bounded(responses, later);
    }
}

proof fn lemma_offsets_bounded<T>(responses: Seq<(Magnitude<T>, usize)>, step: int)
    requires
        0 <= step,
    ensures
        0 <= offset_after(responses, step) <= FREQUENCY_BINS,
    decreases step,
{
    if step > 0 {
        lemma_offsets_bounded(responses, step - 1);
    }
}

/// A row filled at step `step` is looked up at that step.
proof fn lemma_lookup_reaches_step<T>(
    responses: Seq<(Magnitude<T>, usize)>,
    zero: T,
    row: int,
    column: int,
    from: int,
    step: int,
)
    requires
        0 <= from <= step,
        offset_after(responses, step) <= row,
    ensures
        stacked_entry(responses, zero, row, column, from) == stacked_entry(
            responses,
            zero,
            row,
            column,
            step,
        ),
    decreases step - from,
{
    if from < step {
        lemma_offsets_grow(responses, from + 1, step);
        lemma_lookup_reaches_step(responses, zero, row, column, from + 1, step);
    }
}

/// Setting one value of a matrix changes that entry and no other.
proof fn lemma_entry_after_set<T>(
    before: Magnitude<T>,
    after: Magnitude<T>,
    row: int,
    column: int,
    value: T,
)
    requires
        before.wf(),
        before.column_count() == after.column_count(),
        0 <= column < before.column_count(),
        0 <= row < before.row_count(),
        after.values() == before.values().update(row * before.column_count() + column, value),
    ensures
        forall|r: int, c: int|
            0 <= r < before.row_count() && 0 <= c < before.column_count() ==> #[trigger] after.entry(
                r,
                c,
            ) == (if r
                == row && c == column {
                value
            } else {
                before.entry(r, c)
            }),
{
    let width = before.column_count() as int;
    let height = before.row_count() as int;
    assert forall|r: int, c: int| 0 <= r < height && 0 <= c < width implies #[trigger] after.entry(
        r,
        c,
    ) == (if r == row && c == column {
        value
    } else {
        before.entry(r, c)
    }) by {
        assert(r * width + c < height * width) by (nonlinear_arith)
            requires
                0 <= r < height,
                0 <= c < width,
        ;
        assert(0 <= r * width) by (nonlinear_arith)
            requires
                0 <= r,
                0 <= width,
        ;
        assert(row * width + column < height * width) by (nonlinear_arith)
            requires
                0 <= row < height,
                0 <= column < width,
        ;
        let i = r * width + c;
        let j = row * width + column;
        if i == j {
            lemma_fundamental_div_mod_converse(i, width, r, c);
            lemma_fundamental_div_mod_converse(j, width, row, column);
            assert(after.values()[i] == value);
        } else {
            assert(after.values()[i] == before.values()[i]);
            if r == row && c == column {
                assert(false);
            }
        }
    }
}

/// The fewest frames are no more than any response's.
proof fn lemma_min_columns_bound<T>(responses: Seq<(Magnitude<T>, usize)>, k: int)
    requires
        0 <= k < responses.len(),
    ensures
        min_columns(responses) <= responses[k].0.column_count(),
    decreases responses.len(),
{
    if responses.len() > 1 && k < responses.len() - 1 {
        lemma_min_columns_bound(responses.drop_last(), k);
    }
}

/// Stacks per-octave responses into the 105-row spectrogram: from the last
/// response to the first, each contributes the last `bins` rows of its
/// response (fewer when the output is nearly full), truncated to the
/// fewest frames among the responses; rows no octave reaches hold `zero`.
/// Fails when there is no response, when the output size overflows, or when
/// an octave lacks rows it must contribute.
pub fn stack_octaves<T: Copy>(responses: &[(Magnitude<T>, usize)], zero: T) -> (result: Result<
    Magnitude<T>,
    CqtError,
>)
    ensures
        result is Ok <==> {
            &&& responses@.len() > 0
            &&& FREQUENCY_BINS * min_columns(responses@) <= usize::MAX
            &&& forall|step: int|
                0 <= step < responses@.len() ==> #[trigger] octave_fits(responses@, step)
        },
        result matches Ok(stacked) ==> {
            &&& stacked.wf()
            &&& stacked.row_count() == FREQUENCY_BINS
            &&& stacked.column_count() == min_columns(responses@)
            &&& forall|row: int, column: int|
                0 <= row < FREQUENCY_BINS && 0 <= column < stacked.column_count()
                    ==> #[trigger] stacked.entry(row, column) == stacked_entry(
                    responses@,
                    zero,
                    row,
                    column,
                    0,
                )
        },
        result matches Err(e) ==> e is InvalidParameters,
        responses@.len() == 0 ==> (result matches Err(CqtError::InvalidParameters(m)) && m@
            == "CQT produced no octaves"@),
        responses@.len() > 0 && FREQUENCY_BINS * min_columns(responses@) > usize::MAX ==> (
        result matches Err(CqtError::InvalidParameters(m)) && m@ == "CQT matrix size overflow"@),
        responses@.len() > 0 && FREQUENCY_BINS * min_columns(responses@) <= usize::MAX && (exists|
            step: int,
        | 0 <= step < responses@.len() && !#[trigger] octave_fits(responses@, step)) ==> (
        result matches Err(CqtError::InvalidParameters(m)) && m@ == "CQT octave row is missing"@),
{
    let count = responses.len();
    if count == 0 {
        return Err(CqtError::InvalidParameters(String::from_str("CQT produced no octaves")));
    }
    let mut frame_count = responses[0].0.cols();
    let mut i: usize = 1;
    assert(responses@.take(1).len() == 1);
    while i < count
        invariant
            count == responses@.len(),
            1 <= i <= count,
            frame_count == min_columns(responses@.take(i as int)),
        decreases count - i,
    {
        let columns = responses[i].0.cols();
        proof {
            assert(responses@.take(i + 1).drop_last() =~= responses@.take(i as int));
        }
        if columns < frame_count {
            frame_count = columns;
        }
        i = i + 1;
    }
    assert(responses@.take(count as int) =~= responses@);
    let mut output = match Magnitude::zeros(FREQUENCY_BINS, frame_count, zero) {
        Ok(output) => output,
        Err(e) => {
            return Err(e);
        },
    };
    assert forall|row: int, column: int|
        0 <= row < FREQUENCY_BINS && 0 <= column < frame_count implies #[trigger] output.entry(
        row,
        column,
    ) == zero by {
        assert(row * frame_count + column < FREQUENCY_BINS * frame_count) by (nonlinear_arith)
            requires
                0 <= row < FREQUENCY_BINS,
                0 <= column < frame_count,
        ;
        assert(0 <= row * frame_count) by (nonlinear_arith)
            requires
                0 <= row,
        ;
    }
    let mut row_offset: usize = 0;
    let mut step: usize = 0;
    while step < count
        invariant
            count == responses@.len(),
            step <= count,
            frame_count == min_columns(responses@),
            FREQUENCY_BINS * frame_count <= usize::MAX,
            output.wf(),
            output.row_count() == FREQUENCY_BINS,
            output.column_count() == frame_count,
            row_offset == offset_after(responses@, step as int),
            row_offset <= FREQUENCY_BINS,
            forall|s: int| 0 <= s < step ==> #[trigger] octave_fits(responses@, s),
            forall|row: int, column: int|
                0 <= row < row_offset && 0 <= column < frame_count ==> #[trigger] output.entry(
                    row,
                    column,
                ) == stacked_entry(responses@, zero, row, column, 0),
            forall|row: int, column: int|
                row_offset <= row < FREQUENCY_BINS && 0 <= column < frame_count
                    ==> #[trigger] output.entry(row, column) == zero,
        decreases count - step,
    {
        let index = count - 1 - step;
        let magnitude = &responses[index].0;
        proof {
            use_type_invariant(magnitude);
        }
        let bins = responses[index].1;
        let rows = magnitude.rows();
        let skip = rows.saturating_sub(bins);
        let room = FREQUENCY_BINS - row_offset;
        let copied = if bins <= room {
            bins
        } else {
            room
        };
        let ghost offset = row_offset as int;
        proof {
            lemma_offsets_grow(responses@, step as int, step as int + 1);
            lemma_min_columns_bound(responses@, index as int);
        }
        let mut bin: usize = 0;
        while bin < copied
            invariant
                count == responses@.len(),
                step < count,
                index == count - 1 - step,
                *magnitude == responses@[index as int].0,
                bins == responses@[index as int].1,
                magnitude.wf(),
                rows == magnitude.row_count(),
                skip == rows_skipped(*magnitude, bins as int),
                copied == rows_copied(offset, bins as int),
                offset == row_offset,
                row_offset == offset_after(responses@, step as int),
                offset_after(responses@, step as int + 1) == row_offset + copied,
                row_offset + copied <= FREQUENCY_BINS,
                bin <= copied,
                frame_count == min_columns(responses@),
                frame_count <= magnitude.column_count(),
                output.wf(),
                output.row_count() == FREQUENCY_BINS,
                output.column_count() == frame_count,
                magnitude.column_count() == 0 || skip + bin <= rows,
                forall|row: int, column: int|
                    0 <= row < row_offset + bin && 0 <= column < frame_count
                        ==> #[trigger] output.entry(row, column) == stacked_entry(
                        responses@,
                        zero,
                        row,
                        column,
                        0,
                    ),
                forall|row: int, column: int|
                    row_offset + bin <= row < FREQUENCY_BINS && 0 <= column < frame_count
                        ==> #[trigger] output.entry(row, column) == zero,
            decreases copied - bin,
        {
            let source = match magnitude.row(skip + bin) {
                Some(source) => source,
                None => {
                    proof {
                        assert(!octave_fits(responses@, step as int));
                    }
                    return Err(
                        CqtError::InvalidParameters(String::from_str("CQT octave row is missing")),
                    );
                },
            };
            let target = row_offset + bin;
            let ghost before = output;
            let mut column: usize = 0;
            while column < frame_count
                invariant
                    target < FREQUENCY_BINS,
                    source@.len() == magnitude.column_count(),
                    frame_count <= magnitude.column_count(),
                    column <= frame_count,
                    output.wf(),
                    output.row_count() == FREQUENCY_BINS,
                    output.column_count() == frame_count,
                    before.column_count() == frame_count,
                    forall|row: int, c: int|
                        0 <= row < FREQUENCY_BINS && 0 <= c < frame_count ==> #[trigger] output.entry(
                            row,
                            c,
                        ) == (if row == target && c < column {
                            source@[c]
                        } else {
                            before.entry(row, c)
                        }),
                decreases frame_count - column,
            {
                let value = source[column];
                proof {
                    use_type_invariant(&output);
                }
                let ghost previous = output;
                output.set(target, column, value);
                proof {
                    lemma_entry_after_set(previous, output, target as int, column as int, value);
                }
                column = column + 1;
            }
            proof {
                assert forall|row: int, c: int|
                    0 <= row < row_offset + bin + 1 && 0 <= c < frame_count implies #[trigger] output.entry(
                    row,
                    c,
                ) == stacked_entry(responses@, zero, row, c, 0) by {
                    if row == target {
                        lemma_lookup_reaches_step(responses@, zero, row, c, 0, step as int);
                        assert((skip + bin) * magnitude.column_count() + c < magnitude.values().len()) by (nonlinear_arith)
                            requires
                                skip + bin < magnitude.row_count(),
                                0 <= c < magnitude.column_count(),
                                magnitude.values().len() == magnitude.row_count() * magnitude.column_count(),
                        ;
                        let start = (skip + bin) * magnitude.column_count();
                        assert(start + magnitude.column_count() <= magnitude.values().len() && 0 <= start) by (nonlinear_arith)
                            requires
                                skip + bin < magnitude.row_count(),
                                start == (skip + bin) * magnitude.column_count(),
                                magnitude.values().len() == magnitude.row_count() * magnitude.column_count(),
                        ;
                        assert(source@ == magnitude.values().subrange(
                            start,
                            start + magnitude.column_count(),
                        ));
                        assert(source@[c] == magnitude.values()[start + c]);
                        assert(source@[c] == magnitude.entry(skip + bin, c));
                    }
                }
            }
            bin = bin + 1;
        }
        row_offset = row_offset + copied;
        step = step + 1;
    }
    proof {
        use_type_invariant(&output);
    }
    assert forall|row: int, column: int|
        0 <= row < FREQUENCY_BINS && 0 <= column < frame_count implies #[trigger] output.entry(
        row,
        column,
    ) == stacked_entry(responses@, zero, row, column, 0) by {
        if row >= row_offset {
            lemma_lookup_reaches_step(responses@, zero, row, column, 0, count as int);
        }
    }
    Ok(output)
}

} // verus!
