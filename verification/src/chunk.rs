//! The partition of a log-magnitude spectrogram into fixed-width model
//! windows: the frames are split into as few balanced chunks as fit the
//! model's 512-frame input, and each chunk is cycled to fill that input.
use vstd::prelude::*;
use vstd::arithmetic::div_mod::{
    lemma_div_is_ordered, lemma_fundamental_div_mod, lemma_fundamental_div_mod_converse,
};

use crate::Error;

verus! {

/// Rows of the constant-Q spectrogram the model reads (frequency bins).
pub const FREQUENCY_BINS: usize = 105;

/// Frames in one model input window.
pub const MODEL_FRAMES: usize = 512;

/// A model input: its shape and its values in row-major order.
pub struct ChunkTensor<T> {
    pub shape: Vec<usize>,
    pub data: Vec<T>,
}

/// One model window of a spectrogram, with the number of spectrogram frames
/// it was cut from (the window repeats them to fill its 512 frames).
pub struct PreparedChunk<T> {
    pub tensor: ChunkTensor<T>,
    pub source_frames: usize,
}

/// The number of windows for a spectrogram of `columns` frames: the fewest
/// that hold at most 512 frames each.
pub open spec fn chunk_count(columns: int) -> int {
    (columns + MODEL_FRAMES - 1) / (MODEL_FRAMES as int)
}

/// The first frame of window `index` when `columns` frames are cut into
/// `count` windows.
pub open spec fn chunk_start(columns: int, count: int, index: int) -> int {
    index * columns / count
}

/// The number of frames of window `index`.
pub open spec fn chunk_frames(columns: int, count: int, index: int) -> int {
    chunk_start(columns, count, index + 1) - chunk_start(columns, count, index)
}

/// The value at flat position `position` of window `index`: row
/// `position / 512`, frame `position % 512` cycled over the window's frames.
pub open spec fn chunk_value<T>(
    values: Seq<T>,
    columns: int,
    count: int,
    index: int,
    position: int,
) -> T {
    let row = position / (MODEL_FRAMES as int);
    let frame = position % (MODEL_FRAMES as int);
    values[row * columns + chunk_start(columns, count, index) + frame % chunk_frames(
        columns,
        count,
        index,
    )]
}

/// `chunk` is window `index` of the row-major spectrogram `values` with
/// `columns` frames cut into `count` windows.
pub open spec fn is_chunk<T>(
    chunk: PreparedChunk<T>,
    values: Seq<T>,
    columns: int,
    count: int,
    index: int,
) -> bool {
    &&& chunk.source_frames == chunk_frames(columns, count, index)
    &&& chunk.tensor.shape@ == seq![1usize, 1usize, FREQUENCY_BINS, MODEL_FRAMES]
    &&& chunk.tensor.data@.len() == FREQUENCY_BINS * MODEL_FRAMES
    &&& forall|p: int|
        0 <= p < FREQUENCY_BINS * MODEL_FRAMES ==> #[trigger] chunk.tensor.data@[p] == chunk_value(
            values,
            columns,
            count,
            index,
            p,
        )
}

/// The spectrogram buffer can be partitioned: 105 rows of `columns > 0`
/// frames, `values_len == rows * columns`, and no machine-word overflow in
/// the size or in the window bounds.
pub open spec fn valid_spectrogram(values_len: int, rows: int, columns: int) -> bool {
    &&& spectrogram_shape(values_len, rows, columns)
    &&& chunk_count(columns) * columns <= usize::MAX
}

/// The buffer holds 105 rows of `columns > 0` frames, `rows * columns`
/// values in all, a number that fits a machine word.
pub open spec fn spectrogram_shape(values_len: int, rows: int, columns: int) -> bool {
    &&& rows * columns <= usize::MAX
    &&& rows == FREQUENCY_BINS
    &&& columns > 0
    &&& values_len == rows * columns
}

/// Cutting `a + c` and `a` frames into `n` parts differ by the quotient of
/// `c`, rounded down or up: `c / n <= (a + c) / n - a / n <= ceil(c / n)`.
proof fn lemma_window_bounds(a: int, c: int, n: int)
    requires
        0 <= a,
        0 <= c,
        0 < n,
    ensures
        c / n <= (a + c) / n - a / n <= (c + n - 1) / n,
{
    lemma_fundamental_div_mod(a, n);
    let q = a / n;
    let r = a % n;
    assert(0 <= r < n) by {
        vstd::arithmetic::div_mod::lemma_mod_pos_bound(a, n);
    }
    lemma_fundamental_div_mod(r + c, n);
    let q2 = (r + c) / n;
    let r2 = (r + c) % n;
    assert(0 <= r2 < n) by {
        vstd::arithmetic::div_mod::lemma_mod_pos_bound(r + c, n);
    }
    assert(a + c == (q + q2) * n + r2) by (nonlinear_arith)
        requires
            a == n * q + r,
            r + c == n * q2 + r2,
    ;
    lemma_fundamental_div_mod_converse(a + c, n, q + q2, r2);
    lemma_div_is_ordered(c, r + c, n);
    lemma_div_is_ordered(r + c, c + n - 1, n);
}

/// The facts about the window count: for `columns > 0` there is at least one
/// window, no more windows than frames, and no window needs more than 512
/// frames.
proof fn lemma_count_facts(columns: int)
    requires
        columns > 0,
    ensures
        1 <= chunk_count(columns) <= columns,
        columns <= chunk_count(columns) * (MODEL_FRAMES as int),
        (columns + chunk_count(columns) - 1) / chunk_count(columns) <= MODEL_FRAMES,
        columns / chunk_count(columns) >= 1,
{
    let n = chunk_count(columns);
    lemma_fundamental_div_mod(columns + 511, 512);
    vstd::arithmetic::div_mod::lemma_mod_pos_bound(columns + 511, 512);
    assert(columns <= n * 512);
    assert(n >= 1);
    assert(n <= columns);
    assert((columns + n - 1) / n <= 512) by {
        lemma_fundamental_div_mod(columns + n - 1, n);
        vstd::arithmetic::div_mod::lemma_mod_pos_bound(columns + n - 1, n);
        let q = (columns + n - 1) / n;
        let r = (columns + n - 1) % n;
        assert(q <= 512) by (nonlinear_arith)
            requires
                columns + n - 1 == n * q + r,
                0 <= r,
                columns <= n * 512,
                n >= 1,
        ;
    }
    assert(columns / n >= 1) by {
        lemma_div_is_ordered(n, columns, n);
        vstd::arithmetic::div_mod::lemma_div_by_self(n);
    }
}

/// Window `index` starts no later than it ends, and within the spectrogram.
proof fn lemma_window_in_range(columns: int, index: int)
    requires
        columns > 0,
        0 <= index < chunk_count(columns),
    ensures
        0 <= chunk_start(columns, chunk_count(columns), index),
        1 <= chunk_frames(columns, chunk_count(columns), index) <= MODEL_FRAMES,
        chunk_start(columns, chunk_count(columns), index + 1) <= columns,
{
    let n = chunk_count(columns);
    lemma_count_facts(columns);
    assert((index + 1) * columns == index * columns + columns) by (nonlinear_arith);
    assert(0 <= index * columns) by (nonlinear_arith)
        requires
            0 <= index,
            0 < columns,
    ;
    lemma_window_bounds(index * columns, columns, n);
    vstd::arithmetic::div_mod::lemma_div_pos_is_pos(index * columns, n);
    assert((index + 1) * columns <= n * columns) by (nonlinear_arith)
        requires
            index + 1 <= n,
            0 < columns,
    ;
    lemma_div_is_ordered((index + 1) * columns, n * columns, n);
    assert(n * columns / n == columns) by {
        lemma_fundamental_div_mod_converse(n * columns, n, columns, 0);
    }
}

/// The windows tile the spectrogram: the first starts at frame 0, each ends
/// where the next starts (by definition of `chunk_frames`), the last ends at
/// the last frame, and every window holds between 1 and 512 frames.
pub proof fn lemma_chunks_tile_columns(columns: int)
    requires
        columns > 0,
    ensures
        chunk_start(columns, chunk_count(columns), 0) == 0,
        chunk_start(columns, chunk_count(columns), chunk_count(columns)) == columns,
        forall|i: int|
            0 <= i < chunk_count(columns) ==> 1 <= #[trigger] chunk_frames(
                columns,
                chunk_count(columns),
                i,
            ) <= MODEL_FRAMES,
{
    let n = chunk_count(columns);
    lemma_count_facts(columns);
    assert(0 * columns == 0);
    vstd::arithmetic::div_mod::lemma_div_of0(n);
    assert(n * columns / n == columns) by {
        lemma_fundamental_div_mod_converse(n * columns, n, columns, 0);
    }
    assert forall|i: int| 0 <= i < n implies 1 <= #[trigger] chunk_frames(columns, n, i)
        <= MODEL_FRAMES by {
        lemma_window_in_range(columns, i);
    }
}

/// The windows are balanced: the frame counts of any two windows differ by
/// at most one.
pub proof fn lemma_chunks_balanced(columns: int, i: int, j: int)
    requires
        columns > 0,
        0 <= i < chunk_count(columns),
        0 <= j < chunk_count(columns),
    ensures
        chunk_frames(columns, chunk_count(columns), i) - chunk_frames(
            columns,
            chunk_count(columns),
            j,
        ) <= 1,
{
    let n = chunk_count(columns);
    lemma_count_facts(columns);
    assert((i + 1) * columns == i * columns + columns) by (nonlinear_arith);
    assert((j + 1) * columns == j * columns + columns) by (nonlinear_arith);
    assert(0 <= i * columns) by (nonlinear_arith)
        requires
            0 <= i,
            0 < columns,
    ;
    assert(0 <= j * columns) by (nonlinear_arith)
        requires
            0 <= j,
            0 < columns,
    ;
    lemma_window_bounds(i * columns, columns, n);
    lemma_window_bounds(j * columns, columns, n);
    lemma_fundamental_div_mod(columns, n);
    vstd::arithmetic::div_mod::lemma_mod_pos_bound(columns, n);
    let q = columns / n;
    let r = columns % n;
    lemma_fundamental_div_mod(columns + n - 1, n);
    vstd::arithmetic::div_mod::lemma_mod_pos_bound(columns + n - 1, n);
    let q2 = (columns + n - 1) / n;
    let r2 = (columns + n - 1) % n;
    assert(q2 <= q + 1) by (nonlinear_arith)
        requires
            columns == n * q + r,
            columns + n - 1 == n * q2 + r2,
            0 <= r < n,
            0 <= r2 < n,
    ;
}

/// A window reads only its own frames, repeated: every value of window `i`
/// at row `r` and frame `f < 512` is the spectrogram's value at row `r`,
/// column `start + f % frames`, where the `n = ceil(columns / 512)` windows
/// start at `i * columns / n` and window `i` spans `frames` columns up to the
/// next window's start.
pub proof fn lemma_window_reads_own_frames<T>(
    chunk: PreparedChunk<T>,
    values: Seq<T>,
    columns: int,
    index: int,
)
    requires
        columns > 0,
        0 <= index < (columns + 511) / 512,
        is_chunk(chunk, values, columns, chunk_count(columns), index),
    ensures
        chunk.tensor.data@.len() == 105 * 512,
        forall|r: int, f: int|
            0 <= r < 105 && 0 <= f < 512 ==> {
                let n = (columns + 511) / 512;
                let start = index * columns / n;
                let frames = (index + 1) * columns / n - start;
                &&& 1 <= frames <= 512
                &&& start + frames <= columns
                &&& #[trigger] chunk.tensor.data@[r * 512 + f] == values[r * columns + start + f
                    % frames]
            },
{
    lemma_window_in_range(columns, index);
    assert forall|r: int, f: int| 0 <= r < 105 && 0 <= f < 512 implies {
        let n = (columns + 511) / 512;
        let start = index * columns / n;
        let frames = (index + 1) * columns / n - start;
        &&& 1 <= frames <= 512
        &&& start + frames <= columns
        &&& #[trigger] chunk.tensor.data@[r * 512 + f] == values[r * columns + start + f % frames]
    } by {
        let p = r * 512 + f;
        assert(0 <= p < 105 * 512) by (nonlinear_arith)
            requires
                0 <= r < 105,
                0 <= f < 512,
                p == r * 512 + f,
        ;
        lemma_fundamental_div_mod_converse(p, 512, r, f);
        assert(chunk.tensor.data@[p] == chunk_value(values, columns, chunk_count(columns), index, p));
    }
}

/// Row `row` of window `index` is complete in `data` up to frame `frames`:
/// the first `row * 512 + frames` values are those of the window.
spec fn gathered<T>(
    data: Seq<T>,
    values: Seq<T>,
    columns: int,
    count: int,
    index: int,
    filled: int,
) -> bool {
    &&& data.len() == filled
    &&& forall|p: int|
        0 <= p < filled ==> #[trigger] data[p] == chunk_value(values, columns, count, index, p)
}

/// Builds window `index` of a valid spectrogram.
fn gather_chunk<T: Copy>(
    values: &[T],
    columns: usize,
    count: usize,
    index: usize,
    start: usize,
    end: usize,
) -> (chunk: PreparedChunk<T>)
    requires
        spectrogram_shape(values@.len() as int, FREQUENCY_BINS as int, columns as int),
        count == chunk_count(columns as int),
        index < count,
        start == chunk_start(columns as int, count as int, index as int),
        end == chunk_start(columns as int, count as int, index as int + 1),
    ensures
        is_chunk(chunk, values@, columns as int, count as int, index as int),
{
    proof {
        lemma_window_in_range(columns as int, index as int);
    }
    let frames = end - start;
    let mut data: Vec<T> = Vec::new();
    let mut row: usize = 0;
    while row < FREQUENCY_BINS
        invariant
            spectrogram_shape(values@.len() as int, FREQUENCY_BINS as int, columns as int),
            count == chunk_count(columns as int),
            index < count,
            start == chunk_start(columns as int, count as int, index as int),
            frames == chunk_frames(columns as int, count as int, index as int),
            1 <= frames <= MODEL_FRAMES,
            start + frames <= columns,
            row <= FREQUENCY_BINS,
            gathered(data@, values@, columns as int, count as int, index as int, row * 512),
        decreases FREQUENCY_BINS - row,
    {
        assert(row * columns + columns <= FREQUENCY_BINS * columns) by (nonlinear_arith)
            requires
                row < FREQUENCY_BINS,
                columns > 0,
        ;
        let row_start = row * columns;
        let mut frame: usize = 0;
        while frame < MODEL_FRAMES
            invariant
                spectrogram_shape(values@.len() as int, FREQUENCY_BINS as int, columns as int),
                count == chunk_count(columns as int),
                start == chunk_start(columns as int, count as int, index as int),
                frames == chunk_frames(columns as int, count as int, index as int),
                1 <= frames <= MODEL_FRAMES,
                start + frames <= columns,
                row < FREQUENCY_BINS,
                row_start == row * columns,
                row * columns + columns <= FREQUENCY_BINS * columns,
                frame <= MODEL_FRAMES,
                gathered(
                    data@,
                    values@,
                    columns as int,
                    count as int,
                    index as int,
                    row * 512 + frame,
                ),
            decreases MODEL_FRAMES - frame,
        {
            let position = row_start + start + frame % frames;
            let value = values[position];
            proof {
                let p = row * 512 + frame;
                lemma_fundamental_div_mod_converse(p, 512, row as int, frame as int);
            }
            data.push(value);
            frame = frame + 1;
        }
        row = row + 1;
    }
    let mut shape: Vec<usize> = Vec::new();
    shape.push(1);
    shape.push(1);
    shape.push(FREQUENCY_BINS);
    shape.push(MODEL_FRAMES);
    assert(shape@ =~= seq![1usize, 1usize, FREQUENCY_BINS, MODEL_FRAMES]);
    PreparedChunk { tensor: ChunkTensor { shape, data }, source_frames: frames }
}

/// Cuts a row-major spectrogram of `rows` frequency bins by `columns` frames
/// into model windows: `ceil(columns / 512)` windows, window `i` taking
/// frames `i * columns / n .. (i + 1) * columns / n` of every row and
/// repeating them to fill 512 frames. The buffer must have 105 rows, at least
/// one frame and exactly `rows * columns` values; anything else is refused as
/// invalid audio.
pub fn chunk_spectrogram<T: Copy>(values: &[T], rows: usize, columns: usize) -> (result: Result<
    Vec<PreparedChunk<T>>,
    Error,
>)
    ensures
        result is Ok <==> valid_spectrogram(values@.len() as int, rows as int, columns as int),
        result matches Ok(chunks) ==> {
            &&& chunks@.len() == chunk_count(columns as int)
            &&& forall|i: int|
                0 <= i < chunks@.len() ==> is_chunk(
                    #[trigger] chunks@[i],
                    values@,
                    columns as int,
                    chunk_count(columns as int),
                    i,
                )
        },
        result matches Err(e) ==> e is InvalidAudio,
        rows * columns > usize::MAX ==> (result matches Err(Error::InvalidAudio(m)) && m@
            == "CQT shape overflow"@),
        spectrogram_shape(values@.len() as int, rows as int, columns as int) && chunk_count(
            columns as int,
        ) * columns > usize::MAX ==> (result matches Err(Error::InvalidAudio(m)) && m@
            == "CQT chunk end overflow"@),
{
    let expected_values = match rows.checked_mul(columns) {
        Some(n) => n,
        None => {
            return Err(Error::InvalidAudio(String::from_str("CQT shape overflow")));
        },
    };
    if rows != FREQUENCY_BINS || columns == 0 || values.len() != expected_values {
        let mut message = String::from_str("invalid CQT buffer: ");
        message.append(rows.to_string().as_str());
        message.append("x");
        message.append(columns.to_string().as_str());
        message.append(" for ");
        message.append(values.len().to_string().as_str());
        message.append(" values");
        return Err(Error::InvalidAudio(message));
    }
    let count = columns / MODEL_FRAMES + if columns % MODEL_FRAMES == 0 {
        0
    } else {
        1
    };
    assert(count == chunk_count(columns as int)) by {
        lemma_fundamental_div_mod(columns as int, 512);
        vstd::arithmetic::div_mod::lemma_mod_pos_bound(columns as int, 512);
        lemma_fundamental_div_mod_converse(
            columns + 511,
            512,
            count as int,
            (columns as int + 511) - count * 512,
        );
    }
    proof {
        lemma_count_facts(columns as int);
    }
    let mut chunks: Vec<PreparedChunk<T>> = Vec::new();
    let mut index: usize = 0;
    while index < count
        invariant
            rows == FREQUENCY_BINS,
            columns > 0,
            values@.len() == rows * columns,
            rows * columns <= usize::MAX,
            count == chunk_count(columns as int),
            1 <= count <= columns,
            index <= count,
            chunks@.len() == index,
            forall|i: int|
                0 <= i < index ==> is_chunk(
                    #[trigger] chunks@[i],
                    values@,
                    columns as int,
                    count as int,
                    i,
                ),
            index * columns <= usize::MAX,
        decreases count - index,
    {
        let end_product = match (index + 1).checked_mul(columns) {
            Some(n) => n,
            None => {
                proof {
                    assert(count * columns >= (index + 1) * columns) by (nonlinear_arith)
                        requires
                            index + 1 <= count,
                            columns > 0,
                    ;
                }
                return Err(Error::InvalidAudio(String::from_str("CQT chunk end overflow")));
            },
        };
        let start = index * columns / count;
        let end = end_product / count;
        proof {
            lemma_window_in_range(columns as int, index as int);
        }
        let chunk = gather_chunk(values, columns, count, index, start, end);
        chunks.push(chunk);
        index = index + 1;
    }
    proof {
        assert(valid_spectrogram(values@.len() as int, rows as int, columns as int));
    }
    Ok(chunks)
}

} // verus!
