//! Addressing of the Engram tables of DeepSeek-V4.1: which bytes hold the rows that are asked for,
//! and which rows the n-grams of a token stream ask for.
//!
//! The tables are far too large to load. A step reads the rows of its own n-grams and no others.

use super::config::DeepseekV41Config;
use super::token_map;
use super::token_map::{build_compressed_token_map, token_map_fingerprint};
use crate::accounting;
use crate::accounting::push_shape;
use crate::config;
use crate::config::quote;
use crate::primes;
use crate::primes::next_unseen_prime;
use crate::storage;
use crate::storage::{DType, StorageError, TensorIndex, TensorInfo};
use crate::text;
use crate::text::push_decimal;
use crate::lists::{copied, same_shape};
use vstd::prelude::*;
use vstd::string::*;

verus! {

pub const RELEASE_COMPRESSED_VOCAB_SIZE: u64 = 99_092;

pub const MAX_ROW_READ_BYTES: usize = 65_536;

pub const RELEASE_TOKEN_MAP_FNV1A64: u64 = 0x6b5c_fa68_a5f5_7ba6;

#[derive(Debug)]
pub enum EngramError {
    Invalid(String),
    Checkpoint(StorageError),
    UnknownTokenId(u32),
}

/// The same error, over plain values.
pub enum EngramProblem {
    Invalid(Seq<char>),
    Checkpoint(storage::StorageProblem),
    UnknownTokenId(u32),
}

impl View for EngramError {
    type V = EngramProblem;

    open spec fn view(&self) -> EngramProblem {
        match self {
            EngramError::Invalid(reason) => EngramProblem::Invalid(reason@),
            EngramError::Checkpoint(error) => EngramProblem::Checkpoint(error@),
            EngramError::UnknownTokenId(token) => EngramProblem::UnknownTokenId(*token),
        }
    }
}

impl EngramError {
    /// What this module says of its own refusals; the other errors speak for themselves and have
    /// none.
    pub open spec fn text(self) -> Option<Seq<char>> {
        match self {
            EngramError::Invalid(reason) => Some(
                "invalid DeepSeek-V4.1 Engram state: "@ + reason@,
            ),
            _ => None,
        }
    }

    pub fn message(&self) -> (text: Option<String>)
        ensures
            match text {
                Some(text) => self.text() == Some(text@),
                None => self.text() is None,
            },
    {
        match self {
            EngramError::Invalid(reason) => {
                let mut text = "invalid DeepSeek-V4.1 Engram state: ".to_owned();
                text.append(reason.as_str());
                Some(text)
            },
            _ => None,
        }
    }
}

pub open spec fn problem<T>(result: Result<T, EngramError>) -> Option<EngramProblem> {
    match result {
        Ok(_) => None,
        Err(error) => Some(error@),
    }
}

fn invalid<T>(reason: &str) -> (result: Result<T, EngramError>)
    ensures
        problem(result) == Some(EngramProblem::Invalid(reason@)),
{
    Err(EngramError::Invalid(reason.to_owned()))
}

/// A validated view of one native table.
#[derive(Debug)]
pub struct EngramTable {
    pub weight_name: String,
    pub scale_name: String,
    pub rows: usize,
    pub width: usize,
    /// Whether the values stand before the scales in the checkpoint.
    pub values_first: bool,
}

pub open spec fn table_name(layer: nat, part: Seq<char>) -> Seq<char> {
    "layers."@ + text::decimal(layer) + ".engram.embed."@ + part
}

pub open spec fn layout_message(
    name: Seq<char>,
    kind: Seq<char>,
    expected: Seq<u64>,
    info: TensorInfo,
) -> Seq<char> {
    config::quoted(name) + " must be "@ + kind + " ["@ + accounting::shown(expected) + "], got "@
        + info.dtype.label() + " ["@ + accounting::shown(info.shape@) + "]"@
}

/// Why a tensor cannot hold one part of a table.
pub open spec fn part_problem(
    name: Seq<char>,
    dtype: DType,
    expected: Seq<u64>,
    info: TensorInfo,
) -> Option<EngramProblem> {
    if info.dtype != dtype || info.shape@ != expected {
        Some(EngramProblem::Invalid(layout_message(name, dtype.label(), expected, info)))
    } else {
        None
    }
}

pub open spec fn table_problem(
    index: storage::IndexView,
    layer: nat,
    rows: usize,
    width: usize,
) -> Option<EngramProblem> {
    let weight_name = table_name(layer, "weight"@);
    let scale_name = table_name(layer, "scale"@);
    if rows == 0 || width == 0 || width % 32 != 0 {
        Some(
            EngramProblem::Invalid(
                "table rows and width must be non-zero and width must be divisible by 32"@,
            ),
        )
    } else {
        match (index.require(weight_name), index.require(scale_name)) {
            (Err(error), _) => Some(EngramProblem::Checkpoint(error)),
            (_, Err(error)) => Some(EngramProblem::Checkpoint(error)),
            (Ok(weight), Ok(scale)) => {
                let values = part_problem(
                    weight_name,
                    DType::F8E4M3,
                    seq![rows as u64, width as u64],
                    weight,
                );
                if values is Some {
                    values
                } else {
                    part_problem(
                        scale_name,
                        DType::F8E8M0,
                        seq![rows as u64, (width / 32) as u64],
                        scale,
                    )
                }
            },
        }
    }
}

/// Whether one tensor is stored no later than another.
pub open spec fn stands_first(one: TensorInfo, other: TensorInfo) -> bool {
    one.shard < other.shard || (one.shard == other.shard && one.data_offset <= other.data_offset)
}

fn check_part(name: &str, dtype: DType, expected: Vec<u64>, info: &TensorInfo) -> (result: Result<
    (),
    EngramError,
>)
    ensures
        problem(result) == part_problem(name@, dtype, expected@, *info),
{
    if info.dtype != dtype || !same_shape(info.shape.as_slice(), expected.as_slice()) {
        let mut reason = quote(name);
        reason.append(" must be ");
        reason.append(dtype.name());
        reason.append(" [");
        push_shape(&mut reason, &expected);
        reason.append("], got ");
        reason.append(info.dtype.name());
        reason.append(" [");
        push_shape(&mut reason, &info.shape);
        reason.append("]");
        return Err(EngramError::Invalid(reason));
    }
    Ok(())
}

fn make_table_name(layer: usize, part: &str) -> (name: String)
    ensures
        name@ == table_name(layer as nat, part@),
{
    let mut name = "layers.".to_owned();
    push_decimal(&mut name, layer as u64);
    name.append(".engram.embed.");
    name.append(part);
    name
}

/// One contiguous read of a tensor.
#[derive(Debug, Clone, Copy, PartialEq, Eq, Structural)]
pub struct RowRead {
    pub offset: u64,
    pub length: usize,
}

/// Where the run of adjacent rows that begins at `start` ends, no run being longer than `cap`.
pub open spec fn run_end(rows: Seq<usize>, start: int, end: int, cap: int) -> int
    decreases rows.len() - end,
{
    if 0 < end < rows.len() && end - start < cap && rows[end - 1] + 1 == rows[end] {
        run_end(rows, start, end + 1, cap)
    } else {
        end
    }
}

pub proof fn lemma_run_end(rows: Seq<usize>, start: int, end: int, cap: int)
    requires
        0 <= start < end,
    ensures
        end <= run_end(rows, start, end, cap),
        end <= rows.len() ==> run_end(rows, start, end, cap) <= rows.len(),
        end - start <= cap ==> run_end(rows, start, end, cap) - start <= cap,
        forall|j: int|
            end <= j < run_end(rows, start, end, cap) ==> #[trigger] rows[j] == rows[j - 1] + 1,
        ({
            let last = run_end(rows, start, end, cap);
            last < rows.len() && last - start < cap ==> rows[last] != rows[last - 1] + 1
        }),
    decreases rows.len() - end,
{
    if end < rows.len() && end - start < cap && rows[end - 1] + 1 == rows[end] {
        lemma_run_end(rows, start, end + 1, cap);
    }
}

/// The runs of adjacent rows from `start` on, as first places and ends.
pub open spec fn runs(rows: Seq<usize>, start: int, cap: int) -> Seq<(int, int)>
    decreases rows.len() - start,
{
    if start < 0 || start >= rows.len() {
        Seq::empty()
    } else {
        let end = run_end(rows, start, start + 1, cap);
        proof {
            lemma_run_end(rows, start, start + 1, cap);
        }
        seq![(start, end)] + runs(rows, end, cap)
    }
}

/// How many rows of `width` bytes one read may take.
pub open spec fn rows_per_read(width: int) -> int {
    accounting::larger(MAX_ROW_READ_BYTES as int / width, 1)
}

pub open spec fn read_of(rows: Seq<usize>, width: int, run: (int, int)) -> RowRead {
    RowRead { offset: (rows[run.0] * width) as u64, length: ((run.1 - run.0) * width) as usize }
}

/// One read for each run.
pub open spec fn reads_of(rows: Seq<usize>, width: int, list: Seq<(int, int)>) -> Seq<RowRead> {
    Seq::new(list.len(), |i: int| read_of(rows, width, list[i]))
}

pub open spec fn starts_beyond(rows: Seq<usize>, width: int, run: (int, int)) -> bool {
    rows[run.0] * width > usize::MAX
}

/// Why rows cannot be read.
pub open spec fn reads_problem(rows: Seq<usize>, width: int) -> Option<EngramProblem> {
    let list = runs(rows, 0, rows_per_read(width));
    if rows.len() * width > usize::MAX {
        Some(EngramProblem::Invalid("requested table rows overflow allocation size"@))
    } else if exists|i: int|
        0 <= i < list.len() && #[trigger] starts_beyond(rows, width, list[i]) {
        Some(EngramProblem::Invalid("table row offset overflows"@))
    } else {
        None
    }
}

/// The reads that fetch the rows, in order: one for each run of adjacent rows, of at most 64 KiB,
/// or of one row where a row is wider. No row that was not asked for is read.
pub fn plan_row_reads(rows: &Vec<usize>, width: usize) -> (result: Result<
    Vec<RowRead>,
    EngramError,
>)
    requires
        width > 0,
    ensures
        problem(result) == reads_problem(rows@, width as int),
        result matches Ok(reads) ==> reads@ == reads_of(
            rows@,
            width as int,
            runs(rows@, 0, rows_per_read(width as int)),
        ),
{
    let count: usize = rows.len();
    match count.checked_mul(width) {
        Some(_) => {},
        None => {
            return invalid("requested table rows overflow allocation size");
        },
    }
    let share: usize = MAX_ROW_READ_BYTES / width;
    let cap: usize = if share >= 1 {
        share
    } else {
        1
    };
    let mut reads: Vec<RowRead> = Vec::new();
    let mut start: usize = 0;
    let ghost all = runs(rows@, 0, cap as int);
    proof {
        assert(all =~= all.take(0) + runs(rows@, 0, cap as int));
    }
    while start < count
        invariant
            width > 0,
            count == rows@.len(),
            count * width <= usize::MAX,
            cap == rows_per_read(width as int),
            start <= count,
            all == runs(rows@, 0, cap as int),
            reads@.len() <= all.len(),
            all == all.take(reads@.len() as int) + runs(rows@, start as int, cap as int),
            reads@ == reads_of(rows@, width as int, all.take(reads@.len() as int)),
            forall|i: int|
                0 <= i < reads@.len() ==> !#[trigger] starts_beyond(rows@, width as int, all[i]),
        decreases count - start,
    {
        let end = find_run_end(rows, start, cap);
        let ghost rest = runs(rows@, start as int, cap as int);
        proof {
            lemma_run_end(rows@, start as int, start + 1, cap as int);
            assert(rest[0] == (start as int, end as int));
            assert(all[reads@.len() as int] == rest[0]);
            assert((end - start) * width <= usize::MAX) by (nonlinear_arith)
                requires
                    start < end <= count,
                    count * width <= usize::MAX,
                    width > 0,
            ;
        }
        let first: usize = rows[start];
        match first.checked_mul(width) {
            Some(offset) => {
                reads.push(RowRead { offset: offset as u64, length: (end - start) * width });
                proof {
                    let taken = reads@.len() as int;
                    assert(all.take(taken) =~= all.take(taken - 1).push(rest[0]));
                    assert(rest =~= seq![rest[0]] + runs(rows@, end as int, cap as int));
                    assert(all =~= all.take(taken) + runs(rows@, end as int, cap as int));
                    assert(reads@ =~= reads_of(rows@, width as int, all.take(taken)));
                }
            },
            None => {
                proof {
                    assert(starts_beyond(rows@, width as int, all[reads@.len() as int]));
                }
                return invalid("table row offset overflows");
            },
        }
        start = end;
    }
    proof {
        assert(all.take(reads@.len() as int) =~= all);
    }
    Ok(reads)
}

fn find_run_end(rows: &Vec<usize>, start: usize, cap: usize) -> (end: usize)
    requires
        start < rows@.len(),
    ensures
        end == run_end(rows@, start as int, start + 1, cap as int),
        start < end <= rows@.len(),
{
    let count: usize = rows.len();
    let mut end: usize = start + 1;
    while end < count && end - start < cap && rows[end - 1] < usize::MAX && rows[end - 1] + 1
        == rows[end]
        invariant
            count == rows@.len(),
            start < end <= count,
            run_end(rows@, start as int, end as int, cap as int) == run_end(
                rows@,
                start as int,
                start + 1,
                cap as int,
            ),
        decreases rows@.len() - end,
    {
        end = end + 1;
    }
    end
}

/// Every run holds adjacent rows, is no longer than one read may be, ends only where the next row
/// is not adjacent or the read is full, and begins where the one before it ends; the first begins
/// with the first row and the last ends with the last.
pub proof fn runs_cover_the_rows(rows: Seq<usize>, cap: int)
    requires
        cap >= 1,
    ensures
        covers(rows, runs(rows, 0, cap), 0, cap),
{
    lemma_runs_cover(rows, 0, cap);
}

/// What `runs_cover_the_rows` states, from a place on.
pub open spec fn covers(rows: Seq<usize>, list: Seq<(int, int)>, start: int, cap: int) -> bool {
    &&& list.len() == 0 ==> start == rows.len()
    &&& list.len() > 0 ==> list[0].0 == start && list.last().1 == rows.len()
    &&& forall|i: int| 0 <= i < list.len() ==> #[trigger] is_run(rows, list[i], cap)
    &&& forall|i: int| 0 < i < list.len() ==> #[trigger] list[i].0 == list[i - 1].1
}

pub open spec fn is_run(rows: Seq<usize>, run: (int, int), cap: int) -> bool {
    &&& 0 <= run.0 < run.1 <= rows.len()
    &&& run.1 - run.0 <= cap
    &&& forall|j: int| run.0 <= j < run.1 ==> #[trigger] rows[j] == rows[run.0] + (j - run.0)
    &&& run.1 < rows.len() && run.1 - run.0 < cap ==> rows[run.1] != rows[run.1 - 1] + 1
}

proof fn lemma_runs_cover(rows: Seq<usize>, start: int, cap: int)
    requires
        0 <= start <= rows.len(),
        cap >= 1,
    ensures
        covers(rows, runs(rows, start, cap), start, cap),
    decreases rows.len() - start,
{
    if start < rows.len() {
        let end = run_end(rows, start, start + 1, cap);
        lemma_run_end(rows, start, start + 1, cap);
        lemma_runs_cover(rows, end, cap);
        let rest = runs(rows, end, cap);
        let list = runs(rows, start, cap);
        assert(list =~= seq![(start, end)] + rest);
        assert(is_run(rows, (start, end), cap)) by {
            assert forall|j: int| start <= j < end implies #[trigger] rows[j] == rows[start] + (j
                - start) by {
                lemma_adjacent(rows, start, end, j);
            }
        }
        assert forall|i: int| 0 <= i < list.len() implies #[trigger] is_run(
            rows,
            list[i],
            cap,
        ) by {
            if i > 0 {
                assert(list[i] == rest[i - 1]);
                assert(is_run(rows, rest[i - 1], cap));
            }
        }
        assert forall|i: int| 0 < i < list.len() implies #[trigger] list[i].0 == list[i - 1].1 by {
            assert(list[i] == rest[i - 1]);
            if i > 1 {
                assert(list[i - 1] == rest[i - 2]);
            }
        }
    }
}

proof fn lemma_adjacent(rows: Seq<usize>, start: int, end: int, j: int)
    requires
        0 <= start <= j < end,
        forall|k: int| start + 1 <= k < end ==> #[trigger] rows[k] == rows[k - 1] + 1,
    ensures
        rows[j] == rows[start] + (j - start),
    decreases j,
{
    if j > start {
        lemma_adjacent(rows, start, end, j - 1);
    }
}

/// The rows that are asked for, each once and in order.
pub open spec fn is_sorted_unique(sorted: Seq<usize>, rows: Seq<usize>) -> bool {
    &&& forall|i: int, j: int| 0 <= i < j < sorted.len() ==> sorted[i] < sorted[j]
    &&& forall|row: usize| #[trigger] sorted.contains(row) == rows.contains(row)
}

/// What `is_sorted_unique` describes.
pub open spec fn sorted_rows(request: Seq<usize>) -> Seq<usize> {
    choose|sorted: Seq<usize>| is_sorted_unique(sorted, request)
}

fn sort_unique(rows: &Vec<usize>) -> (sorted: Vec<usize>)
    ensures
        is_sorted_unique(sorted@, rows@),
{
    let mut sorted: Vec<usize> = Vec::new();
    let mut i: usize = 0;
    while i < rows.len()
        invariant
            i <= rows@.len(),
            is_sorted_unique(sorted@, rows@.take(i as int)),
        decreases rows@.len() - i,
    {
        let row: usize = rows[i];
        let place = find_place(&sorted, row);
        let ghost before = sorted@;
        let ghost earlier = rows@.take(i as int);
        if place == sorted.len() || sorted[place] != row {
            sorted.insert(place, row);
        }
        proof {
            let now = rows@.take(i + 1);
            assert(now =~= earlier.push(row));
            assert forall|value: usize| #[trigger] sorted@.contains(value) == now.contains(value) by {
                assert(before.contains(value) == earlier.contains(value));
                lemma_inserted(before, place as int, row, value);
                lemma_pushed(earlier, row, value);
                if before.len() > place && before[place as int] == row {
                    assert(before.contains(row));
                }
            }
        }
        i = i + 1;
    }
    proof {
        assert(rows@.take(i as int) =~= rows@);
    }
    sorted
}

proof fn lemma_pushed(list: Seq<usize>, row: usize, value: usize)
    ensures
        list.push(row).contains(value) == (list.contains(value) || value == row),
{
    if list.contains(value) {
        let at = choose|at: int| 0 <= at < list.len() && list[at] == value;
        assert(list.push(row)[at] == value);
    }
    assert(list.push(row)[list.len() as int] == row);
}

proof fn lemma_inserted(list: Seq<usize>, place: int, row: usize, value: usize)
    requires
        0 <= place <= list.len(),
    ensures
        list.insert(place, row).contains(value) == (list.contains(value) || value == row),
{
    let longer = list.insert(place, row);
    assert(longer[place] == row);
    if list.contains(value) {
        let at = choose|at: int| 0 <= at < list.len() && list[at] == value;
        if at < place {
            assert(longer[at] == value);
        } else {
            assert(longer[at + 1] == value);
        }
    }
    if longer.contains(value) && value != row {
        let at = choose|at: int| 0 <= at < longer.len() && longer[at] == value;
        if at < place {
            assert(list[at] == value);
        } else {
            assert(list[at - 1] == value);
        }
    }
}

/// The first place whose row is not smaller.
fn find_place(sorted: &Vec<usize>, row: usize) -> (place: usize)
    requires
        forall|i: int, j: int| 0 <= i < j < sorted@.len() ==> sorted@[i] < sorted@[j],
    ensures
        place <= sorted@.len(),
        forall|i: int| 0 <= i < place ==> sorted@[i] < row,
        place < sorted@.len() ==> sorted@[place as int] >= row,
{
    let mut low: usize = 0;
    let mut high: usize = sorted.len();
    while low < high
        invariant
            low <= high <= sorted@.len(),
            forall|i: int, j: int| 0 <= i < j < sorted@.len() ==> sorted@[i] < sorted@[j],
            forall|i: int| 0 <= i < low ==> sorted@[i] < row,
            high < sorted@.len() ==> sorted@[high as int] >= row,
        decreases high - low,
    {
        let middle: usize = low + (high - low) / 2;
        if sorted[middle] < row {
            low = middle + 1;
        } else {
            high = middle;
        }
    }
    low
}

/// Which reads a request takes, and where its rows are found in what was read.
#[derive(Debug)]
pub struct RowPlan {
    /// The rows that are read, each once, in order.
    pub rows: Vec<usize>,
    /// For each row of the request its place among the rows that are read.
    pub places: Vec<usize>,
    pub value_reads: Vec<RowRead>,
    pub scale_reads: Vec<RowRead>,
    pub values_first: bool,
}

pub open spec fn outside_message(row: usize, rows: usize) -> Seq<char> {
    "row "@ + text::decimal(row as nat) + " is outside table with "@ + text::decimal(rows as nat)
        + " rows"@
}

/// The first row of a request that the table does not have.
pub open spec fn stray_row(request: Seq<usize>, rows: usize) -> Option<usize>
    decreases request.len(),
{
    if request.len() == 0 {
        None
    } else if request[0] >= rows {
        Some(request[0])
    } else {
        stray_row(request.skip(1), rows)
    }
}

/// The earlier of two problems.
pub open spec fn earlier_of(
    one: Option<EngramProblem>,
    other: Option<EngramProblem>,
) -> Option<EngramProblem> {
    if one is Some {
        one
    } else {
        other
    }
}

/// A row number is first reported where the table ends, then where reading fails, in the order in
/// which the two parts are read.
pub open spec fn request_problem(
    table: EngramTable,
    request: Seq<usize>,
) -> Option<EngramProblem> {
    let sorted = sorted_rows(request);
    let values = reads_problem(sorted, table.width as int);
    let scales = reads_problem(sorted, table.width as int / 32);
    match stray_row(request, table.rows) {
        Some(row) => Some(EngramProblem::Invalid(outside_message(row, table.rows))),
        None => if request.len() == 0 {
            None
        } else if table.values_first {
            earlier_of(values, scales)
        } else {
            earlier_of(scales, values)
        },
    }
}

/// The whole plan for a request.
pub open spec fn is_plan(table: EngramTable, request: Seq<usize>, plan: RowPlan) -> bool {
    let sorted = plan.rows@;
    let values = table.width as int;
    let scales = table.width as int / 32;
    &&& sorted == sorted_rows(request)
    &&& is_sorted_unique(sorted, request)
    &&& plan.places@.len() == request.len()
    &&& forall|i: int|
        0 <= i < request.len() ==> #[trigger] plan.places@[i] < sorted.len()
            && sorted[plan.places@[i] as int] == request[i]
    &&& plan.value_reads@ == reads_of(sorted, values, runs(sorted, 0, rows_per_read(values)))
    &&& plan.scale_reads@ == reads_of(sorted, scales, runs(sorted, 0, rows_per_read(scales)))
    &&& plan.values_first == table.values_first
}

/// An E4M3 code that is no number.
pub open spec fn is_e4m3_nan(code: u8) -> bool {
    code % 128 == 127
}

/// Why the columns from `column` on cannot be decoded: a value that is no number, or a scale whose
/// decoding failed with the text that stands for it in `scales`.
pub open spec fn row_problem(
    row: usize,
    values: Seq<u8>,
    scales: Seq<Option<String>>,
    column: int,
) -> Option<EngramProblem>
    decreases values.len() - column,
{
    if column < 0 || column >= values.len() {
        None
    } else if is_e4m3_nan(values[column]) {
        Some(
            EngramProblem::Invalid(
                "row "@ + text::decimal(row as nat) + ", column "@ + text::decimal(column as nat)
                    + " contains an E4M3 NaN"@,
            ),
        )
    } else {
        match scales[column / 32] {
            Some(error) => Some(
                EngramProblem::Invalid(
                    "row "@ + text::decimal(row as nat) + ", scale group "@ + text::decimal(
                        (column / 32) as nat,
                    ) + ": "@ + error@,
                ),
            ),
            None => row_problem(row, values, scales, column + 1),
        }
    }
}

/// Checks the codes of one row before they are decoded. `scales` holds, for each group of 32
/// columns, the error of decoding its scale.
pub fn check_row(row: usize, values: &Vec<u8>, scales: &Vec<Option<String>>) -> (result: Result<
    (),
    EngramError,
>)
    requires
        values@.len() <= 32 * scales@.len(),
    ensures
        problem(result) == row_problem(row, values@, scales@, 0),
{
    let mut column: usize = 0;
    while column < values.len()
        invariant
            values@.len() <= 32 * scales@.len(),
            column <= values@.len(),
            row_problem(row, values@, scales@, 0) == row_problem(
                row,
                values@,
                scales@,
                column as int,
            ),
        decreases values@.len() - column,
    {
        if values[column] % 128 == 127 {
            let mut reason = "row ".to_owned();
            push_decimal(&mut reason, row as u64);
            reason.append(", column ");
            push_decimal(&mut reason, column as u64);
            reason.append(" contains an E4M3 NaN");
            return Err(EngramError::Invalid(reason));
        }
        match &scales[column / 32] {
            Some(error) => {
                let mut reason = "row ".to_owned();
                push_decimal(&mut reason, row as u64);
                reason.append(", scale group ");
                push_decimal(&mut reason, (column / 32) as u64);
                reason.append(": ");
                reason.append(error.as_str());
                return Err(EngramError::Invalid(reason));
            },
            None => {},
        }
        column = column + 1;
    }
    Ok(())
}

proof fn lemma_stray_prefix(request: Seq<usize>, rows: usize, count: int)
    requires
        0 <= count <= request.len(),
        forall|k: int| 0 <= k < count ==> request[k] < rows,
    ensures
        stray_row(request, rows) == stray_row(request.skip(count), rows),
    decreases count,
{
    if count == 0 {
        assert(request.skip(0) =~= request);
    } else {
        lemma_stray_prefix(request.skip(1), rows, count - 1);
        assert(request.skip(1).skip(count - 1) =~= request.skip(count));
    }
}

fn find_stray_row(request: &Vec<usize>, rows: usize) -> (row: Option<usize>)
    ensures
        row == stray_row(request@, rows),
{
    let mut i: usize = 0;
    while i < request.len()
        invariant
            i <= request@.len(),
            forall|k: int| 0 <= k < i ==> request@[k] < rows,
        decreases request@.len() - i,
    {
        if request[i] >= rows {
            proof {
                lemma_stray_prefix(request@, rows, i as int);
                assert(request@.skip(i as int)[0] == request@[i as int]);
            }
            return Some(request[i]);
        }
        i = i + 1;
    }
    proof {
        lemma_stray_prefix(request@, rows, i as int);
    }
    None
}

fn find_places(request: &Vec<usize>, sorted: &Vec<usize>) -> (places: Vec<usize>)
    requires
        is_sorted_unique(sorted@, request@),
    ensures
        places@.len() == request@.len(),
        forall|i: int|
            0 <= i < request@.len() ==> #[trigger] places@[i] < sorted@.len()
                && sorted@[places@[i] as int] == request@[i],
{
    let mut places: Vec<usize> = Vec::new();
    let mut i: usize = 0;
    while i < request.len()
        invariant
            is_sorted_unique(sorted@, request@),
            i <= request@.len(),
            places@.len() == i,
            forall|k: int|
                0 <= k < i ==> #[trigger] places@[k] < sorted@.len() && sorted@[places@[k] as int]
                    == request@[k],
        decreases request@.len() - i,
    {
        let place = find_place(sorted, request[i]);
        proof {
            assert(request@.contains(request@[i as int]));
            assert(sorted@.contains(request@[i as int]));
            let at = choose|at: int| 0 <= at < sorted@.len() && sorted@[at] == request@[i as int];
            if at > place {
                assert(sorted@[place as int] < sorted@[at]);
            }
        }
        places.push(place);
        i = i + 1;
    }
    places
}

impl EngramTable {
    pub open spec fn well_formed(self) -> bool {
        self.rows > 0 && self.width > 0 && self.width % 32 == 0
    }

    /// Recognizes the table of a layer in the checkpoint.
    pub fn open(index: &TensorIndex, layer: usize, rows: usize, width: usize) -> (result: Result<
        Self,
        EngramError,
    >)
        requires
            index@.well_formed(),
        ensures
            problem(result) == table_problem(index@, layer as nat, rows, width),
            result matches Ok(table) ==> {
                &&& table.well_formed()
                &&& table.weight_name@ == table_name(layer as nat, "weight"@)
                &&& table.scale_name@ == table_name(layer as nat, "scale"@)
                &&& table.rows == rows
                &&& table.width == width
                &&& table.values_first == stands_first(
                    index@.require(table.weight_name@)->Ok_0,
                    index@.require(table.scale_name@)->Ok_0,
                )
            },
    {
        if rows == 0 || width == 0 || width % 32 != 0 {
            return invalid(
                "table rows and width must be non-zero and width must be divisible by 32",
            );
        }
        let weight_name = make_table_name(layer, "weight");
        let scale_name = make_table_name(layer, "scale");
        let weight = match index.require(weight_name.as_str()) {
            Ok(info) => info,
            Err(error) => {
                return Err(EngramError::Checkpoint(error));
            },
        };
        let scale = match index.require(scale_name.as_str()) {
            Ok(info) => info,
            Err(error) => {
                return Err(EngramError::Checkpoint(error));
            },
        };
        let values: Vec<u64> = vec![rows as u64, width as u64];
        let scales: Vec<u64> = vec![rows as u64, (width / 32) as u64];
        proof {
            assert(values@ =~= seq![rows as u64, width as u64]);
            assert(scales@ =~= seq![rows as u64, (width / 32) as u64]);
        }
        check_part(weight_name.as_str(), DType::F8E4M3, values, weight)?;
        check_part(scale_name.as_str(), DType::F8E8M0, scales, scale)?;
        let values_first: bool = weight.shard < scale.shard || (weight.shard == scale.shard
            && weight.data_offset <= scale.data_offset);
        Ok(EngramTable { weight_name, scale_name, rows, width, values_first })
    }

    /// Plans the reads of the rows of a request. Every row is read once, however often it is asked
    /// for; values and scales are read apart, in the order in which they are stored.
    pub fn plan_rows(&self, request: &Vec<usize>) -> (result: Result<RowPlan, EngramError>)
        requires
            self.well_formed(),
        ensures
            problem(result) == request_problem(*self, request@),
            result matches Ok(plan) ==> is_plan(*self, request@, plan),
    {
        let rows = sort_unique(request);
        proof {
            sorted_rows_are_unique(request@, rows@, sorted_rows(request@));
        }
        match find_stray_row(request, self.rows) {
            Some(row) => {
                let mut reason = "row ".to_owned();
                push_decimal(&mut reason, row as u64);
                reason.append(" is outside table with ");
                push_decimal(&mut reason, self.rows as u64);
                reason.append(" rows");
                return Err(EngramError::Invalid(reason));
            },
            None => {},
        }
        proof {
            if request@.len() == 0 {
                if rows@.len() > 0 {
                    assert(rows@.contains(rows@[0]));
                    assert(request@.contains(rows@[0]));
                }
                assert(0 * self.width == 0);
                assert(0 * (self.width as int / 32) == 0);
                assert(reads_problem(rows@, self.width as int) is None);
                assert(reads_problem(rows@, self.width as int / 32) is None);
            }
        }
        let scale_width: usize = self.width / 32;
        let (value_reads, scale_reads) = if self.values_first {
            let values = plan_row_reads(&rows, self.width)?;
            (values, plan_row_reads(&rows, scale_width)?)
        } else {
            let scales = plan_row_reads(&rows, scale_width)?;
            (plan_row_reads(&rows, self.width)?, scales)
        };
        let places = find_places(request, &rows);
        Ok(RowPlan { rows, places, value_reads, scale_reads, values_first: self.values_first })
    }

    /// How many bytes one row takes: its values, and a scale for every 32 of them.
    pub fn row_storage_bytes(&self) -> (bytes: usize)
        requires
            self.width + self.width / 32 <= usize::MAX,
        ensures
            bytes == self.width + self.width / 32,
    {
        self.width + self.width / 32
    }
}

/// A request has one sorted list.
pub proof fn sorted_rows_are_unique(request: Seq<usize>, one: Seq<usize>, other: Seq<usize>)
    requires
        is_sorted_unique(one, request),
        is_sorted_unique(other, request),
    ensures
        one == other,
{
    lemma_same_members(one, other);
}

proof fn lemma_same_members(one: Seq<usize>, other: Seq<usize>)
    requires
        forall|i: int, j: int| 0 <= i < j < one.len() ==> one[i] < one[j],
        forall|i: int, j: int| 0 <= i < j < other.len() ==> other[i] < other[j],
        forall|row: usize| #[trigger] one.contains(row) == other.contains(row),
    ensures
        one == other,
    decreases one.len(),
{
    if one.len() == 0 {
        if other.len() > 0 {
            assert(other.contains(other[0]));
            assert(one.contains(other[0]));
        }
        assert(one =~= other);
    } else {
        assert(one.contains(one.last()));
        assert(other.contains(one.last()));
        assert(other.contains(other.last()));
        assert(one.contains(other.last()));
        let p = choose|p: int| 0 <= p < other.len() && other[p] == one.last();
        let q = choose|q: int| 0 <= q < one.len() && one[q] == other.last();
        assert(p < other.len() - 1 ==> other[p] < other.last());
        assert(q < one.len() - 1 ==> one[q] < one.last());
        assert(one.last() == other.last());
        let a = one.drop_last();
        let b = other.drop_last();
        assert forall|row: usize| #[trigger] a.contains(row) == b.contains(row) by {
            if a.contains(row) {
                let at = choose|at: int| 0 <= at < a.len() && a[at] == row;
                assert(one[at] == row);
                assert(one.contains(row));
                assert(other.contains(row));
                let to = choose|to: int| 0 <= to < other.len() && other[to] == row;
                assert(one[at] < one.last());
                assert(b[to] == row);
            }
            if b.contains(row) {
                let at = choose|at: int| 0 <= at < b.len() && b[at] == row;
                assert(other[at] == row);
                assert(other.contains(row));
                assert(one.contains(row));
                let to = choose|to: int| 0 <= to < one.len() && one[to] == row;
                assert(other[at] < other.last());
                assert(a[to] == row);
            }
        }
        lemma_same_members(a, b);
        assert(one =~= a.push(one.last()));
        assert(other =~= b.push(other.last()));
    }
}

/// The multipliers of the n-gram hashes of the layer at this place.
pub open spec fn release_multipliers(place: int) -> Seq<u64> {
    if place == 0 {
        seq![
            76_632_096_046_245u64,
            4_839_876_093_313,
            35_959_672_319_349,
            73_987_337_458_391,
        ]
    } else {
        seq![
            67_716_810_739_261u64,
            51_510_806_800_915,
            30_921_347_202_721,
            82_619_226_485_591,
        ]
    }
}

fn make_multipliers(place: usize) -> (list: Vec<u64>)
    ensures
        list@ == release_multipliers(place as int),
{
    let list: Vec<u64> = if place == 0 {
        vec![
            76_632_096_046_245u64,
            4_839_876_093_313,
            35_959_672_319_349,
            73_987_337_458_391,
        ]
    } else {
        vec![
            67_716_810_739_261u64,
            51_510_806_800_915,
            30_921_347_202_721,
            82_619_226_485_591,
        ]
    };
    assert(list@ =~= release_multipliers(place as int));
    list
}

pub open spec fn hex_digit(value: u64) -> Seq<char> {
    if value == 0 {
        "0"@
    } else if value == 1 {
        "1"@
    } else if value == 2 {
        "2"@
    } else if value == 3 {
        "3"@
    } else if value == 4 {
        "4"@
    } else if value == 5 {
        "5"@
    } else if value == 6 {
        "6"@
    } else if value == 7 {
        "7"@
    } else if value == 8 {
        "8"@
    } else if value == 9 {
        "9"@
    } else if value == 10 {
        "a"@
    } else if value == 11 {
        "b"@
    } else if value == 12 {
        "c"@
    } else if value == 13 {
        "d"@
    } else if value == 14 {
        "e"@
    } else {
        "f"@
    }
}

/// The last `count` hexadecimal digits of a number.
pub open spec fn hex_digits(value: u64, count: nat) -> Seq<char>
    decreases count,
{
    if count == 0 {
        Seq::empty()
    } else {
        hex_digits(value / 16, (count - 1) as nat) + hex_digit(value % 16)
    }
}

fn push_hex_digit(text: &mut String, value: u64)
    ensures
        final(text)@ == old(text)@ + hex_digit(value),
{
    if value == 0 {
        text.append("0");
    } else if value == 1 {
        text.append("1");
    } else if value == 2 {
        text.append("2");
    } else if value == 3 {
        text.append("3");
    } else if value == 4 {
        text.append("4");
    } else if value == 5 {
        text.append("5");
    } else if value == 6 {
        text.append("6");
    } else if value == 7 {
        text.append("7");
    } else if value == 8 {
        text.append("8");
    } else if value == 9 {
        text.append("9");
    } else if value == 10 {
        text.append("a");
    } else if value == 11 {
        text.append("b");
    } else if value == 12 {
        text.append("c");
    } else if value == 13 {
        text.append("d");
    } else if value == 14 {
        text.append("e");
    } else {
        text.append("f");
    }
}

fn push_hex_digits(text: &mut String, value: u64, count: usize)
    ensures
        final(text)@ == old(text)@ + hex_digits(value, count as nat),
    decreases count,
{
    if count > 0 {
        push_hex_digits(text, value / 16, count - 1);
        push_hex_digit(text, value % 16);
    }
    proof {
        assert(text@ =~= old(text)@ + hex_digits(value, count as nat));
    }
}

/// The number above every id of a token map.
pub open spec fn map_size(token_map: Seq<u32>) -> int
    decreases token_map.len(),
{
    if token_map.len() == 0 {
        0
    } else {
        accounting::larger(map_size(token_map.drop_last()), token_map.last() + 1)
    }
}

fn find_map_size(token_map: &Vec<u32>) -> (size: u64)
    ensures
        size == map_size(token_map@),
{
    let mut size: u64 = 0;
    let mut i: usize = 0;
    while i < token_map.len()
        invariant
            i <= token_map@.len(),
            size == map_size(token_map@.take(i as int)),
        decreases token_map@.len() - i,
    {
        proof {
            assert(token_map@.take(i + 1).drop_last() =~= token_map@.take(i as int));
        }
        let next: u64 = token_map[i] as u64 + 1;
        if next > size {
            size = next;
        }
        i = i + 1;
    }
    proof {
        assert(token_map@.take(i as int) =~= token_map@);
    }
    size
}

/// The sizes of the buckets of one n-gram length: `count` primes after `start`, none of them used
/// before.
pub open spec fn head_primes(start: int, seen: Seq<u64>, count: nat) -> Option<Seq<u64>>
    decreases count,
{
    if count == 0 {
        Some(Seq::empty())
    } else {
        match head_primes(start, seen, (count - 1) as nat) {
            None => None,
            Some(list) => {
                let current = if list.len() == 0 {
                    start
                } else {
                    list.last() as int
                };
                match primes::next_unseen(current, seen + list) {
                    None => None,
                    Some(next) => Some(list.push(next)),
                }
            },
        }
    }
}

/// The lists, one after the other.
pub open spec fn flat(lists: Seq<Seq<u64>>) -> Seq<u64>
    decreases lists.len(),
{
    if lists.len() == 0 {
        Seq::empty()
    } else {
        flat(lists.drop_last()) + lists.last()
    }
}

/// The bucket sizes of the first `ngrams` n-gram lengths of one layer.
pub open spec fn layer_primes(start: int, seen: Seq<u64>, ngrams: nat, heads: nat) -> Option<
    Seq<Seq<u64>>,
>
    decreases ngrams,
{
    if ngrams == 0 {
        Some(Seq::empty())
    } else {
        match layer_primes(start, seen, (ngrams - 1) as nat, heads) {
            None => None,
            Some(lists) => match head_primes(start, seen + flat(lists), heads) {
                None => None,
                Some(list) => Some(lists.push(list)),
            },
        }
    }
}

/// All bucket sizes of some layers, in order.
pub open spec fn used_primes(layers: Seq<Seq<Seq<u64>>>) -> Seq<u64>
    decreases layers.len(),
{
    if layers.len() == 0 {
        Seq::empty()
    } else {
        used_primes(layers.drop_last()) + flat(layers.last())
    }
}

/// The bucket sizes of the first `count` layers: no prime is used twice. Nothing where no 64-bit
/// prime is left.
pub open spec fn bucket_primes(start: int, count: nat, ngrams: nat, heads: nat) -> Option<
    Seq<Seq<Seq<u64>>>,
>
    decreases count,
{
    if count == 0 {
        Some(Seq::empty())
    } else {
        match bucket_primes(start, (count - 1) as nat, ngrams, heads) {
            None => None,
            Some(layers) => match layer_primes(start, used_primes(layers), ngrams, heads) {
                None => None,
                Some(lists) => Some(layers.push(lists)),
            },
        }
    }
}

pub open spec fn sum(list: Seq<u64>) -> int
    decreases list.len(),
{
    if list.len() == 0 {
        0
    } else {
        sum(list.drop_last()) + list.last()
    }
}

/// Where each bucket begins.
pub open spec fn bucket_offsets(sizes: Seq<u64>) -> Seq<u64> {
    Seq::new(sizes.len(), |i: int| sum(sizes.take(i)) as u64)
}

pub open spec fn lists_of(lists: Seq<Vec<u64>>) -> Seq<Seq<u64>> {
    Seq::new(lists.len(), |i: int| lists[i]@)
}

pub open spec fn layers_of(layers: Seq<Vec<Vec<u64>>>) -> Seq<Seq<Seq<u64>>> {
    Seq::new(layers.len(), |i: int| lists_of(layers[i]@))
}

proof fn lemma_head_count(start: int, seen: Seq<u64>, count: nat)
    ensures
        head_primes(start, seen, count) matches Some(list) ==> list.len() == count,
    decreases count,
{
    if count > 0 {
        lemma_head_count(start, seen, (count - 1) as nat);
    }
}

proof fn lemma_head_stops(start: int, seen: Seq<u64>, shorter: nat, count: nat)
    requires
        shorter <= count,
        head_primes(start, seen, shorter) is None,
    ensures
        head_primes(start, seen, count) is None,
    decreases count,
{
    if shorter < count {
        lemma_head_stops(start, seen, shorter, (count - 1) as nat);
    }
}

proof fn lemma_layer_stops(start: int, seen: Seq<u64>, shorter: nat, ngrams: nat, heads: nat)
    requires
        shorter <= ngrams,
        layer_primes(start, seen, shorter, heads) is None,
    ensures
        layer_primes(start, seen, ngrams, heads) is None,
    decreases ngrams,
{
    if shorter < ngrams {
        lemma_layer_stops(start, seen, shorter, (ngrams - 1) as nat, heads);
    }
}

proof fn lemma_buckets_stop(start: int, shorter: nat, count: nat, ngrams: nat, heads: nat)
    requires
        shorter <= count,
        bucket_primes(start, shorter, ngrams, heads) is None,
    ensures
        bucket_primes(start, count, ngrams, heads) is None,
    decreases count,
{
    if shorter < count {
        lemma_buckets_stop(start, shorter, (count - 1) as nat, ngrams, heads);
    }
}

/// Finds the bucket sizes of one n-gram length and notes them as used.
fn find_head_primes(start: u64, seen: &mut Vec<u64>, count: usize) -> (result: Option<Vec<u64>>)
    ensures
        result is Some == (head_primes(start as int, old(seen)@, count as nat) is Some),
        result matches Some(list) ==> {
            &&& Some(list@) == head_primes(start as int, old(seen)@, count as nat)
            &&& final(seen)@ == old(seen)@ + list@
        },
{
    let ghost before = seen@;
    let mut list: Vec<u64> = Vec::new();
    let mut current: u64 = start;
    let mut i: usize = 0;
    proof {
        assert(before + list@ =~= before);
    }
    while i < count
        invariant
            i <= count,
            before == old(seen)@,
            list@.len() == i,
            current == (if i == 0 {
                start
            } else {
                list@.last()
            }),
            Some(list@) == head_primes(start as int, before, i as nat),
            seen@ == before + list@,
        decreases count - i,
    {
        match next_unseen_prime(current, seen) {
            Some(next) => {
                seen.push(next);
                list.push(next);
                current = next;
                assert(seen@ =~= before + list@);
            },
            None => {
                proof {
                    lemma_head_stops(start as int, before, (i + 1) as nat, count as nat);
                }
                return None;
            },
        }
        i = i + 1;
    }
    Some(list)
}

fn find_layer_primes(start: u64, seen: &mut Vec<u64>, ngrams: usize, heads: usize) -> (result:
    Option<Vec<Vec<u64>>>)
    ensures
        result is Some == (layer_primes(start as int, old(seen)@, ngrams as nat, heads as nat)
            is Some),
        result matches Some(lists) ==> {
            &&& Some(lists_of(lists@)) == layer_primes(
                start as int,
                old(seen)@,
                ngrams as nat,
                heads as nat,
            )
            &&& final(seen)@ == old(seen)@ + flat(lists_of(lists@))
        },
{
    let ghost before = seen@;
    let mut lists: Vec<Vec<u64>> = Vec::new();
    let mut i: usize = 0;
    proof {
        assert(lists_of(lists@) =~= Seq::<Seq<u64>>::empty());
        assert(before + flat(lists_of(lists@)) =~= before);
    }
    while i < ngrams
        invariant
            i <= ngrams,
            before == old(seen)@,
            Some(lists_of(lists@)) == layer_primes(start as int, before, i as nat, heads as nat),
            seen@ == before + flat(lists_of(lists@)),
        decreases ngrams - i,
    {
        let ghost earlier = lists_of(lists@);
        match find_head_primes(start, seen, heads) {
            Some(list) => {
                let ghost added = list@;
                lists.push(list);
                proof {
                    assert(lists_of(lists@) =~= earlier.push(added));
                    assert(earlier.push(added).drop_last() =~= earlier);
                    assert(seen@ =~= before + flat(lists_of(lists@)));
                }
            },
            None => {
                proof {
                    lemma_layer_stops(
                        start as int,
                        before,
                        (i + 1) as nat,
                        ngrams as nat,
                        heads as nat,
                    );
                }
                return None;
            },
        }
        i = i + 1;
    }
    Some(lists)
}

fn find_bucket_primes(start: u64, count: usize, ngrams: usize, heads: usize) -> (result: Option<
    Vec<Vec<Vec<u64>>>,
>)
    ensures
        result is Some == (bucket_primes(start as int, count as nat, ngrams as nat, heads as nat)
            is Some),
        result matches Some(layers) ==> Some(layers_of(layers@)) == bucket_primes(
            start as int,
            count as nat,
            ngrams as nat,
            heads as nat,
        ),
{
    let mut seen: Vec<u64> = Vec::new();
    let mut layers: Vec<Vec<Vec<u64>>> = Vec::new();
    let mut i: usize = 0;
    proof {
        assert(layers_of(layers@) =~= Seq::<Seq<Seq<u64>>>::empty());
    }
    while i < count
        invariant
            i <= count,
            Some(layers_of(layers@)) == bucket_primes(
                start as int,
                i as nat,
                ngrams as nat,
                heads as nat,
            ),
            seen@ == used_primes(layers_of(layers@)),
        decreases count - i,
    {
        let ghost earlier = layers_of(layers@);
        match find_layer_primes(start, &mut seen, ngrams, heads) {
            Some(lists) => {
                let ghost added = lists_of(lists@);
                layers.push(lists);
                proof {
                    assert(layers_of(layers@) =~= earlier.push(added));
                    assert(earlier.push(added).drop_last() =~= earlier);
                }
            },
            None => {
                proof {
                    lemma_buckets_stop(
                        start as int,
                        (i + 1) as nat,
                        count as nat,
                        ngrams as nat,
                        heads as nat,
                    );
                }
                return None;
            },
        }
        i = i + 1;
    }
    Some(layers)
}

/// The sizes that the configuration asks for.
pub open spec fn config_buckets(config: DeepseekV41Config) -> Option<Seq<Seq<Seq<u64>>>> {
    let text = config.text_config;
    bucket_primes(
        text.engram_vocab_size - 1,
        text.engram_layer_ids@.len(),
        (text.engram_max_ngram_size - 1) as nat,
        text.engram_n_heads as nat,
    )
}

/// The rows of a table with buckets of these sizes can be numbered with 64 bits.
pub open spec fn is_numbered(sizes: Seq<Seq<u64>>) -> bool {
    sum(flat(sizes)) <= u64::MAX
}

/// There are as many 64-bit primes as the configuration needs, and the tables that they make can be
/// numbered with 64 bits.
pub open spec fn buckets_fit(config: DeepseekV41Config) -> bool {
    match config_buckets(config) {
        None => false,
        Some(layers) => forall|i: int|
            0 <= i < layers.len() ==> #[trigger] is_numbered(layers[i]),
    }
}

proof fn lemma_sum_prefix(list: Seq<u64>, count: int)
    requires
        0 <= count <= list.len(),
    ensures
        0 <= sum(list.take(count)) <= sum(list),
    decreases list.len(),
{
    if count == list.len() {
        assert(list.take(count) =~= list);
        if list.len() > 0 {
            lemma_sum_prefix(list.drop_last(), count - 1);
        }
    } else {
        lemma_sum_prefix(list.drop_last(), count);
        assert(list.drop_last().take(count) =~= list.take(count));
    }
}

/// The sizes of one layer as one list.
fn flatten(lists: &Vec<Vec<u64>>) -> (list: Vec<u64>)
    ensures
        list@ == flat(lists_of(lists@)),
{
    let mut list: Vec<u64> = Vec::new();
    let mut i: usize = 0;
    proof {
        assert(lists_of(lists@).take(0) =~= Seq::<Seq<u64>>::empty());
    }
    while i < lists.len()
        invariant
            i <= lists@.len(),
            list@ == flat(lists_of(lists@).take(i as int)),
        decreases lists@.len() - i,
    {
        let ghost all = lists_of(lists@);
        let ghost start = list@;
        let mut j: usize = 0;
        assert(start + lists@[i as int]@.take(0) =~= start);
        while j < lists[i].len()
            invariant
                i < lists@.len(),
                j <= lists@[i as int]@.len(),
                list@ == start + lists@[i as int]@.take(j as int),
            decreases lists@[i as int]@.len() - j,
        {
            list.push(lists[i][j]);
            assert(list@ =~= start + lists@[i as int]@.take(j + 1));
            j = j + 1;
        }
        proof {
            assert(lists@[i as int]@.take(j as int) =~= lists@[i as int]@);
            assert(all.take(i + 1).drop_last() =~= all.take(i as int));
            assert(all.take(i + 1).last() == lists@[i as int]@);
        }
        i = i + 1;
    }
    proof {
        assert(lists_of(lists@).take(i as int) =~= lists_of(lists@));
    }
    list
}

/// Where each bucket begins, and where the last one ends; nothing where that takes more than 64
/// bits.
fn find_offsets(sizes: &Vec<u64>) -> (result: Option<(Vec<u64>, u64)>)
    ensures
        result is Some == (sum(sizes@) <= u64::MAX),
        result matches Some((offsets, total)) ==> offsets@ == bucket_offsets(sizes@) && total
            == sum(sizes@),
{
    let mut offsets: Vec<u64> = Vec::new();
    let mut running: u64 = 0;
    let mut i: usize = 0;
    proof {
        assert(sizes@.take(0) =~= Seq::<u64>::empty());
    }
    while i < sizes.len()
        invariant
            i <= sizes@.len(),
            running == sum(sizes@.take(i as int)),
            offsets@ == bucket_offsets(sizes@).take(i as int),
        decreases sizes@.len() - i,
    {
        proof {
            assert(sizes@.take(i + 1).drop_last() =~= sizes@.take(i as int));
            lemma_sum_prefix(sizes@, i + 1);
        }
        offsets.push(running);
        assert(offsets@ =~= bucket_offsets(sizes@).take(i + 1));
        match running.checked_add(sizes[i]) {
            Some(next) => {
                running = next;
            },
            None => {
                return None;
            },
        }
        i = i + 1;
    }
    proof {
        assert(sizes@.take(i as int) =~= sizes@);
        assert(bucket_offsets(sizes@).take(i as int) =~= bucket_offsets(sizes@));
    }
    Some((offsets, running))
}

/// Whether `NgramHashState` can be made for the configuration at all.
pub fn can_plan_buckets(config: &DeepseekV41Config) -> (result: bool)
    requires
        config.text_config.engram_vocab_size >= 1,
        config.text_config.engram_max_ngram_size >= 1,
    ensures
        result == buckets_fit(*config),
{
    let text = &config.text_config;
    let layers = match find_bucket_primes(
        text.engram_vocab_size as u64 - 1,
        text.engram_layer_ids.len(),
        text.engram_max_ngram_size - 1,
        text.engram_n_heads,
    ) {
        Some(layers) => layers,
        None => {
            return false;
        },
    };
    let ghost all = layers_of(layers@);
    let mut i: usize = 0;
    while i < layers.len()
        invariant
            i <= layers@.len(),
            all == layers_of(layers@),
            config_buckets(*config) is Some,
            config_buckets(*config)->0 == all,
            forall|k: int| 0 <= k < i ==> #[trigger] is_numbered(all[k]),
        decreases layers@.len() - i,
    {
        let sizes = flatten(&layers[i]);
        assert(all[i as int] == lists_of(layers@[i as int]@));
        match find_offsets(&sizes) {
            Some(_) => {},
            None => {
                assert(!is_numbered(all[i as int]));
                return false;
            },
        }
        i = i + 1;
    }
    true
}

/// How the n-grams of one layer are hashed.
#[derive(Debug, Clone)]
pub struct HashLayer {
    pub primes: Vec<Vec<u64>>,
    pub offsets: Vec<u64>,
    pub multipliers: Vec<u64>,
}

/// A hash layer over plain values.
#[verifier::ext_equal]
pub struct LayerHash {
    pub primes: Seq<Seq<u64>>,
    pub offsets: Seq<u64>,
    pub multipliers: Seq<u64>,
}

impl View for HashLayer {
    type V = LayerHash;

    open spec fn view(&self) -> LayerHash {
        LayerHash {
            primes: lists_of(self.primes@),
            offsets: self.offsets@,
            multipliers: self.multipliers@,
        }
    }
}

impl LayerHash {
    /// The layer at a place, with buckets of these sizes.
    pub open spec fn release(place: int, sizes: Seq<Seq<u64>>) -> LayerHash {
        LayerHash {
            primes: sizes,
            offsets: bucket_offsets(flat(sizes)),
            multipliers: release_multipliers(place),
        }
    }

    /// A size for every head of every n-gram length, a beginning for each, and no bucket that ends
    /// beyond 64 bits.
    pub open spec fn well_formed(self, ngrams: int, heads: int) -> bool {
        &&& self.multipliers.len() == 4
        &&& self.primes.len() == ngrams
        &&& self.offsets.len() == ngrams * heads
        &&& forall|n: int| 0 <= n < ngrams ==> (#[trigger] self.primes[n]).len() == heads
        &&& forall|n: int, head: int|
            0 <= n < ngrams && 0 <= head < heads ==> #[trigger] self.bucket_is_sound(
                n,
                head,
                heads,
            )
    }

    pub open spec fn bucket_is_sound(self, n: int, head: int, heads: int) -> bool {
        self.primes[n][head] > 0 && self.offsets[n * heads + head] + self.primes[n][head]
            <= u64::MAX
    }
}

/// Stateful hasher of n-grams. It carries the compressed token ids across calls.
#[derive(Debug, Clone)]
pub struct NgramHashState {
    token_map: Vec<u32>,
    pad_id: u64,
    max_ngram_size: usize,
    n_heads: usize,
    layers: Vec<HashLayer>,
    cache: Vec<Option<u64>>,
}

pub open spec fn layer_views(layers: Seq<HashLayer>) -> Seq<LayerHash> {
    Seq::new(layers.len(), |i: int| layers[i]@)
}

/// The hasher over plain values. Tokens that take no part stand as `None` in the history.
#[verifier::ext_equal]
pub struct HashView {
    pub token_map: Seq<u32>,
    pub pad_id: u64,
    pub max_ngram_size: usize,
    pub n_heads: usize,
    pub layers: Seq<LayerHash>,
    pub cache: Seq<Option<u64>>,
}

impl View for NgramHashState {
    type V = HashView;

    closed spec fn view(&self) -> HashView {
        HashView {
            token_map: self.token_map@,
            pad_id: self.pad_id,
            max_ngram_size: self.max_ngram_size,
            n_heads: self.n_heads,
            layers: layer_views(self.layers@),
            cache: self.cache@,
        }
    }
}

/// Whether an n-gram that ends at `position` is cut off at or before the token `shift` places
/// back: by the beginning, or by a token that takes no part.
pub open spec fn is_blocked(cache: Seq<Option<u64>>, position: int, shift: nat) -> bool
    decreases shift,
{
    ||| position < shift
    ||| cache[position - shift] is None
    ||| shift > 0 && is_blocked(cache, position, (shift - 1) as nat)
}

pub open spec fn token_at(cache: Seq<Option<u64>>, pad: u64, position: int, shift: nat) -> u64 {
    if is_blocked(cache, position, shift) {
        pad
    } else {
        cache[position - shift]->0
    }
}

/// The low 64 bits of a product.
pub open spec fn wrapped(a: u64, b: u64) -> u64 {
    ((a * b) % 0x1_0000_0000_0000_0000) as u64
}

impl HashView {
    pub open spec fn well_formed(self) -> bool {
        &&& self.max_ngram_size >= 1
        &&& self.n_heads * (self.max_ngram_size - 1) <= usize::MAX
        &&& forall|i: int|
            0 <= i < self.layers.len() ==> (#[trigger] self.layers[i]).well_formed(
                self.max_ngram_size - 1,
                self.n_heads as int,
            )
    }

    /// The products of the last `shift + 1` tokens with their multipliers, mixed.
    pub open spec fn rolling(self, layer: int, position: int, shift: nat) -> u64
        decreases shift,
    {
        let product = wrapped(
            token_at(self.cache, self.pad_id, position, shift),
            self.layers[layer].multipliers[shift as int],
        );
        if shift == 0 {
            product
        } else {
            self.rolling(layer, position, (shift - 1) as nat) ^ product
        }
    }

    /// The row that one head reads for the n-gram of `n + 2` tokens that ends at `position`.
    pub open spec fn row(self, layer: int, position: int, n: int, head: int) -> u64 {
        let size = self.layers[layer].primes[n][head];
        let offset = self.layers[layer].offsets[n * self.n_heads + head];
        (self.rolling(layer, position, (n + 1) as nat) % size + offset) as u64
    }

    /// The rows that one layer reads at a position: every head of the bigrams, then of the
    /// trigrams, and so on.
    pub open spec fn layer_rows(self, layer: int, position: int) -> Seq<u64> {
        Seq::new(
            ((self.max_ngram_size - 1) * self.n_heads) as nat,
            |column: int|
                self.row(layer, position, column / (self.n_heads as int), column % (
                self.n_heads as int)),
        )
    }

    pub open spec fn rows(self, position: int) -> Seq<Seq<u64>> {
        Seq::new(self.layers.len(), |layer: int| self.layer_rows(layer, position))
    }

    pub open spec fn with_cache(self, cache: Seq<Option<u64>>) -> HashView {
        HashView { cache, ..self }
    }

    /// What stands in the history for a token.
    pub open spec fn entry(self, token: u32, live: bool) -> Option<u64> {
        if live {
            Some(self.token_map[token as int] as u64)
        } else {
            None
        }
    }

    /// The history after some tokens.
    pub open spec fn extended(self, tokens: Seq<u32>, mask: Option<Seq<bool>>) -> HashView {
        self.with_cache(
            self.cache + Seq::new(tokens.len(), |i: int| self.entry(tokens[i], is_live(mask, i))),
        )
    }

    /// The rows that some tokens read, each hashed over the history up to itself.
    pub open spec fn outputs(self, tokens: Seq<u32>, mask: Option<Seq<bool>>) -> Seq<
        Seq<Seq<u64>>,
    > {
        Seq::new(
            tokens.len(),
            |i: int|
                self.extended(tokens.take(i + 1), mask).rows(self.cache.len() + i),
        )
    }

    pub open spec fn truncated(self, length: int) -> HashView {
        self.with_cache(self.cache.take(length))
    }
}

pub open spec fn is_live(mask: Option<Seq<bool>>, i: int) -> bool {
    match mask {
        None => true,
        Some(mask) => mask[i],
    }
}

/// The place of the first token that the map does not know, or the count of tokens.
pub open spec fn known_tokens(tokens: Seq<u32>, size: nat, from: int) -> int
    decreases tokens.len() - from,
{
    if 0 <= from < tokens.len() && tokens[from] < size {
        known_tokens(tokens, size, from + 1)
    } else {
        from
    }
}

pub open spec fn gap_message(start: usize, length: nat) -> Seq<char> {
    "start_pos="@ + text::decimal(start as nat) + " leaves a gap after cached length "@
        + text::decimal(length)
}

/// Why a span of tokens is refused before the history changes.
pub open spec fn span_problem(
    state: HashView,
    start: usize,
    tokens: Seq<u32>,
    mask: Option<Seq<bool>>,
) -> Option<EngramProblem> {
    if mask is Some && mask->0.len() != tokens.len() {
        Some(EngramProblem::Invalid("Engram token mask length differs from token span"@))
    } else if start > state.cache.len() {
        Some(EngramProblem::Invalid(gap_message(start, state.cache.len())))
    } else {
        None
    }
}

pub open spec fn mask_view(mask: Option<&[bool]>) -> Option<Seq<bool>> {
    match mask {
        None => None,
        Some(list) => Some(list@),
    }
}

pub open spec fn map_message(
    config: DeepseekV41Config,
    token_map: Seq<u32>,
) -> Seq<char> {
    "token map mismatch: tokenizer="@ + text::decimal(token_map.len()) + ", compressed="@
        + text::decimal(map_size(token_map) as nat) + ", fnv1a64=0x"@ + hex_digits(
        token_map::fnv1a(token_map::list_bytes(token_map)),
        16,
    ) + "; expected "@ + text::decimal(config.text_config.vocab_size as nat) + ", "@
        + text::decimal(config.text_config.engram_compressed_vocab_size as nat) + ", 0x"@
        + hex_digits(RELEASE_TOKEN_MAP_FNV1A64, 16)
}

/// Whether a token map is the one that the tables were trained with.
pub open spec fn is_release_map(config: DeepseekV41Config, token_map: Seq<u32>) -> bool {
    &&& token_map.len() == config.text_config.vocab_size
    &&& map_size(token_map) == RELEASE_COMPRESSED_VOCAB_SIZE
    &&& map_size(token_map) == config.text_config.engram_compressed_vocab_size
    &&& token_map::fnv1a(token_map::list_bytes(token_map)) == RELEASE_TOKEN_MAP_FNV1A64
}

pub open spec fn layer_id_message(layer: usize) -> Seq<char> {
    "no pinned release multipliers for Engram layer "@ + text::decimal(layer as nat)
}

pub open spec fn bucket_sum_message(layer: usize, total: int, rows: usize) -> Seq<char> {
    "Engram layer "@ + text::decimal(layer as nat) + " bucket sum "@ + text::decimal(total as nat)
        + " differs from table rows "@ + text::decimal(rows as nat)
}

/// Why one layer cannot be hashed.
pub open spec fn layer_problem(
    config: DeepseekV41Config,
    sizes: Seq<Seq<u64>>,
    place: int,
) -> Option<EngramProblem> {
    let layer = config.text_config.engram_layer_ids@[place];
    let rows = config.text_config.engram_num_embeddings@[place];
    let total = sum(flat(sizes));
    if place >= 2 || !(layer == 1 || layer == 14) {
        Some(EngramProblem::Invalid(layer_id_message(layer)))
    } else if total != rows {
        Some(EngramProblem::Invalid(bucket_sum_message(layer, total, rows)))
    } else {
        None
    }
}

/// The first problem of the layers from `place` on.
pub open spec fn layers_problem(
    config: DeepseekV41Config,
    sizes: Seq<Seq<Seq<u64>>>,
    place: int,
) -> Option<EngramProblem>
    decreases sizes.len() - place,
{
    if place < 0 || place >= sizes.len() {
        None
    } else {
        earlier_of(
            layer_problem(config, sizes[place], place),
            layers_problem(config, sizes, place + 1),
        )
    }
}

/// Why no hasher can be made.
pub open spec fn hasher_problem(config: DeepseekV41Config, token_map: Seq<u32>) -> Option<
    EngramProblem,
> {
    if !is_release_map(config, token_map) {
        Some(EngramProblem::Invalid(map_message(config, token_map)))
    } else {
        layers_problem(config, config_buckets(config)->0, 0)
    }
}

/// The hasher of a configuration, before any token.
pub open spec fn fresh_hasher(config: DeepseekV41Config, token_map: Seq<u32>) -> HashView {
    let sizes = config_buckets(config)->0;
    HashView {
        token_map,
        pad_id: token_map[config.text_config.engram_pad_token_id as int] as u64,
        max_ngram_size: config.text_config.engram_max_ngram_size,
        n_heads: config.text_config.engram_n_heads,
        layers: Seq::new(sizes.len(), |i: int| LayerHash::release(i, sizes[i])),
        cache: Seq::empty(),
    }
}

/// What every configuration that was accepted meets.
pub open spec fn can_hash(config: DeepseekV41Config) -> bool {
    let text = config.text_config;
    &&& text.engram_vocab_size >= 1
    &&& text.engram_max_ngram_size >= 1
    &&& text.engram_n_heads * (text.engram_max_ngram_size - 1) <= usize::MAX
    &&& text.engram_layer_ids@.len() <= text.engram_num_embeddings@.len()
    &&& text.engram_pad_token_id < text.vocab_size
    &&& buckets_fit(config)
}

proof fn lemma_bucket_shape(start: int, seen: Seq<u64>, ngrams: nat, heads: nat)
    ensures
        layer_primes(start, seen, ngrams, heads) matches Some(lists) ==> {
            &&& lists.len() == ngrams
            &&& forall|n: int| 0 <= n < ngrams ==> (#[trigger] lists[n]).len() == heads
        },
    decreases ngrams,
{
    if ngrams > 0 {
        lemma_bucket_shape(start, seen, (ngrams - 1) as nat, heads);
        match layer_primes(start, seen, (ngrams - 1) as nat, heads) {
            Some(lists) => {
                lemma_head_count(start, seen + flat(lists), heads);
            },
            None => {},
        }
    }
}

proof fn lemma_layers_shape(start: int, count: nat, ngrams: nat, heads: nat)
    ensures
        bucket_primes(start, count, ngrams, heads) matches Some(layers) ==> {
            &&& layers.len() == count
            &&& forall|i: int| 0 <= i < count ==> (#[trigger] layers[i]).len() == ngrams
            &&& forall|i: int, n: int|
                0 <= i < count && 0 <= n < ngrams ==> (#[trigger] layers[i][n]).len() == heads
            &&& forall|i: int, n: int, head: int|
                0 <= i < count && 0 <= n < ngrams && 0 <= head < heads
                    ==> #[trigger] layers[i][n][head] > 0
        },
    decreases count,
{
    if count > 0 {
        lemma_layers_shape(start, (count - 1) as nat, ngrams, heads);
        match bucket_primes(start, (count - 1) as nat, ngrams, heads) {
            Some(layers) => {
                lemma_bucket_shape(start, used_primes(layers), ngrams, heads);
                lemma_layer_positive(start, used_primes(layers), ngrams, heads);
            },
            None => {},
        }
    }
}

proof fn lemma_head_positive(start: int, seen: Seq<u64>, count: nat)
    ensures
        head_primes(start, seen, count) matches Some(list) ==> forall|i: int|
            0 <= i < list.len() ==> #[trigger] list[i] > 0,
    decreases count,
{
    if count > 0 {
        lemma_head_positive(start, seen, (count - 1) as nat);
        match head_primes(start, seen, (count - 1) as nat) {
            Some(list) => {
                let current = if list.len() == 0 {
                    start
                } else {
                    list.last() as int
                };
                primes::lemma_next_exists(current, seen + list);
            },
            None => {},
        }
    }
}

proof fn lemma_layer_positive(start: int, seen: Seq<u64>, ngrams: nat, heads: nat)
    ensures
        layer_primes(start, seen, ngrams, heads) matches Some(lists) ==> forall|n: int, head: int|
            0 <= n < lists.len() && 0 <= head < lists[n].len() ==> #[trigger] lists[n][head] > 0,
    decreases ngrams,
{
    if ngrams > 0 {
        lemma_layer_positive(start, seen, (ngrams - 1) as nat, heads);
        match layer_primes(start, seen, (ngrams - 1) as nat, heads) {
            Some(lists) => {
                lemma_head_positive(start, seen + flat(lists), heads);
            },
            None => {},
        }
    }
}

/// Lists of equal length, one after the other.
proof fn lemma_flat(lists: Seq<Seq<u64>>, width: int)
    requires
        forall|n: int| 0 <= n < lists.len() ==> (#[trigger] lists[n]).len() == width,
    ensures
        flat(lists).len() == lists.len() * width,
        forall|n: int, head: int|
            0 <= n < lists.len() && 0 <= head < width ==> #[trigger] lists[n][head] == flat(lists)[n
                * width + head],
    decreases lists.len(),
{
    if lists.len() > 0 {
        let front = lists.drop_last();
        lemma_flat(front, width);
        let last = lists.len() - 1;
        assert(lists.last().len() == width);
        assert(lists.len() * width == last * width + width) by (nonlinear_arith)
            requires
                last == lists.len() - 1,
        ;
        assert forall|n: int, head: int|
            0 <= n < lists.len() && 0 <= head < width implies #[trigger] lists[n][head] == flat(
            lists,
        )[n * width + head] by {
            if n < last {
                assert(front[n][head] == flat(front)[n * width + head]);
                assert(0 <= n * width + head < last * width) by (nonlinear_arith)
                    requires
                        0 <= n < last,
                        0 <= head < width,
                ;
            }
        }
    } else {
        assert(0 * width == 0);
    }
}

/// A bucket ends where the next one begins, the last one where the table ends.
pub proof fn buckets_follow_one_another(sizes: Seq<u64>, i: int)
    requires
        sum(sizes) <= u64::MAX,
        0 <= i < sizes.len(),
    ensures
        bucket_offsets(sizes)[i] + sizes[i] <= sum(sizes),
        i + 1 < sizes.len() ==> bucket_offsets(sizes)[i] + sizes[i] == bucket_offsets(sizes)[i + 1],
        i + 1 == sizes.len() ==> bucket_offsets(sizes)[i] + sizes[i] == sum(sizes),
        i == 0 ==> bucket_offsets(sizes)[i] == 0,
{
    lemma_sum_prefix(sizes, i);
    lemma_sum_prefix(sizes, i + 1);
    assert(sizes.take(i + 1).drop_last() =~= sizes.take(i));
    assert(sizes.take(i + 1).last() == sizes[i]);
    if i + 1 == sizes.len() {
        assert(sizes.take(i + 1) =~= sizes);
    }
    if i == 0 {
        assert(sizes.take(0) =~= Seq::<u64>::empty());
    }
}

/// Every row that a head reads lies in its own bucket, and so in the table.
pub proof fn rows_fall_in_their_buckets(
    state: HashView,
    layer: int,
    position: int,
    n: int,
    head: int,
)
    requires
        state.well_formed(),
        0 <= layer < state.layers.len(),
        0 <= n < state.max_ngram_size - 1,
        0 <= head < state.n_heads,
    ensures
        ({
            let offset = state.layers[layer].offsets[n * state.n_heads + head];
            let size = state.layers[layer].primes[n][head];
            offset <= state.row(layer, position, n, head) < offset + size
        }),
{
    let hash = state.layers[layer];
    assert(hash.well_formed(state.max_ngram_size - 1, state.n_heads as int));
    assert(hash.bucket_is_sound(n, head, state.n_heads as int));
    let mixed = state.rolling(layer, position, (n + 1) as nat);
    let size = hash.primes[n][head];
    assert(mixed % size < size);
}

proof fn lemma_release_layer(sizes: Seq<Seq<u64>>, place: int, ngrams: int, heads: int)
    requires
        sizes.len() == ngrams,
        0 <= heads,
        forall|n: int| 0 <= n < ngrams ==> (#[trigger] sizes[n]).len() == heads,
        forall|n: int, head: int|
            0 <= n < ngrams && 0 <= head < heads ==> #[trigger] sizes[n][head] > 0,
        sum(flat(sizes)) <= u64::MAX,
    ensures
        LayerHash::release(place, sizes).well_formed(ngrams, heads),
{
    let hash = LayerHash::release(place, sizes);
    lemma_flat(sizes, heads);
    assert forall|n: int, head: int|
        0 <= n < ngrams && 0 <= head < heads implies #[trigger] hash.bucket_is_sound(
        n,
        head,
        heads,
    ) by {
        assert(sizes[n][head] > 0);
        assert(sizes[n][head] == flat(sizes)[n * heads + head]);
        assert(0 <= n * heads + head < ngrams * heads) by (nonlinear_arith)
            requires
                0 <= n < ngrams,
                0 <= head < heads,
        ;
        buckets_follow_one_another(flat(sizes), n * heads + head);
    }
}

fn map_mismatch<T>(config: &DeepseekV41Config, token_map: &Vec<u32>, size: u64, fingerprint: u64) -> (
result: Result<T, EngramError>)
    requires
        size == map_size(token_map@),
        fingerprint == token_map::fnv1a(token_map::list_bytes(token_map@)),
    ensures
        problem(result) == Some(EngramProblem::Invalid(map_message(*config, token_map@))),
{
    let mut reason = "token map mismatch: tokenizer=".to_owned();
    push_decimal(&mut reason, token_map.len() as u64);
    reason.append(", compressed=");
    push_decimal(&mut reason, size);
    reason.append(", fnv1a64=0x");
    push_hex_digits(&mut reason, fingerprint, 16);
    reason.append("; expected ");
    push_decimal(&mut reason, config.text_config.vocab_size as u64);
    reason.append(", ");
    push_decimal(&mut reason, config.text_config.engram_compressed_vocab_size as u64);
    reason.append(", 0x");
    push_hex_digits(&mut reason, RELEASE_TOKEN_MAP_FNV1A64, 16);
    Err(EngramError::Invalid(reason))
}

/// Makes the hash layer at a place, or refuses it.
fn make_layer(config: &DeepseekV41Config, sizes: Vec<Vec<u64>>, place: usize) -> (result: Result<
    HashLayer,
    EngramError,
>)
    requires
        place < config.text_config.engram_layer_ids@.len(),
        place < config.text_config.engram_num_embeddings@.len(),
        sum(flat(lists_of(sizes@))) <= u64::MAX,
    ensures
        problem(result) == layer_problem(*config, lists_of(sizes@), place as int),
        result matches Ok(layer) ==> layer@ == LayerHash::release(
            place as int,
            lists_of(sizes@),
        ),
{
    let layer: usize = config.text_config.engram_layer_ids[place];
    if place >= 2 || !(layer == 1 || layer == 14) {
        let mut reason = "no pinned release multipliers for Engram layer ".to_owned();
        push_decimal(&mut reason, layer as u64);
        return Err(EngramError::Invalid(reason));
    }
    let list = flatten(&sizes);
    let rows: usize = config.text_config.engram_num_embeddings[place];
    let (offsets, total): (Vec<u64>, u64) = match find_offsets(&list) {
        Some(found) => found,
        None => (Vec::new(), 0),
    };
    if total != rows as u64 {
        let mut reason = "Engram layer ".to_owned();
        push_decimal(&mut reason, layer as u64);
        reason.append(" bucket sum ");
        push_decimal(&mut reason, total);
        reason.append(" differs from table rows ");
        push_decimal(&mut reason, rows as u64);
        return Err(EngramError::Invalid(reason));
    }
    Ok(HashLayer { primes: sizes, offsets, multipliers: make_multipliers(place) })
}

impl NgramHashState {
    /// Makes the hasher of a configuration for a vocabulary. `decoded` holds the text of each token
    /// alone and `raw` its raw content.
    pub fn new(config: &DeepseekV41Config, decoded: &Vec<String>, raw: &Vec<String>) -> (result:
        Result<Self, EngramError>)
        requires
            can_hash(*config),
            decoded@.len() == raw@.len(),
            decoded@.len() <= u32::MAX,
        ensures
            ({
                let token_map = token_map::compressed(token_map::token_keys(decoded@, raw@));
                &&& problem(result) == hasher_problem(*config, token_map)
                &&& result matches Ok(state) ==> state@ == fresh_hasher(*config, token_map)
                    && state@.well_formed()
            }),
    {
        let token_map = build_compressed_token_map(decoded, raw);
        NgramHashState::from_token_map(config, token_map)
    }

    /// Makes the hasher of a configuration with a token map, which must be the one that the tables
    /// were trained with.
    pub fn from_token_map(config: &DeepseekV41Config, token_map: Vec<u32>) -> (result: Result<
        Self,
        EngramError,
    >)
        requires
            can_hash(*config),
        ensures
            problem(result) == hasher_problem(*config, token_map@),
            result matches Ok(state) ==> state@ == fresh_hasher(*config, token_map@)
                && state@.well_formed(),
    {
        let text = &config.text_config;
        let size: u64 = find_map_size(&token_map);
        let fingerprint: u64 = token_map_fingerprint(&token_map);
        if token_map.len() != text.vocab_size || size != RELEASE_COMPRESSED_VOCAB_SIZE || size
            != text.engram_compressed_vocab_size as u64 || fingerprint
            != RELEASE_TOKEN_MAP_FNV1A64 {
            return map_mismatch(config, &token_map, size, fingerprint);
        }
        let ghost sizes = config_buckets(*config)->0;
        let ghost ngrams = text.engram_max_ngram_size - 1;
        let ghost heads = text.engram_n_heads as int;
        proof {
            lemma_layers_shape(
                text.engram_vocab_size - 1,
                text.engram_layer_ids@.len(),
                ngrams as nat,
                heads as nat,
            );
        }
        let pad_id: u64 = token_map[text.engram_pad_token_id as usize] as u64;
        let mut found: Vec<Vec<Vec<u64>>> = match find_bucket_primes(
            text.engram_vocab_size as u64 - 1,
            text.engram_layer_ids.len(),
            text.engram_max_ngram_size - 1,
            text.engram_n_heads,
        ) {
            Some(layers) => layers,
            None => Vec::new(),
        };
        let count: usize = found.len();
        let mut layers: Vec<HashLayer> = Vec::new();
        let mut i: usize = 0;
        while i < count
            invariant
                can_hash(*config),
                is_release_map(*config, token_map@),
                config_buckets(*config) == Some(sizes),
                sizes.len() == count == text.engram_layer_ids@.len(),
                text == &config.text_config,
                i <= count,
                layers@.len() == i,
                found@.len() == count - i,
                forall|k: int| 0 <= k < count - i ==> lists_of((#[trigger] found@[k])@) == sizes[k + i],
                forall|k: int|
                    0 <= k < i ==> (#[trigger] layers@[k])@ == LayerHash::release(k, sizes[k]),
                layers_problem(*config, sizes, 0) == layers_problem(*config, sizes, i as int),
            decreases count - i,
        {
            let ghost before = found@;
            let lists = found.remove(0);
            proof {
                assert(lists_of(before[0]@) == sizes[i as int]);
                assert(is_numbered(sizes[i as int]));
                assert forall|k: int| 0 <= k < count - i - 1 implies lists_of(
                    (#[trigger] found@[k])@,
                ) == sizes[k + i + 1] by {
                    assert(found@[k] == before[k + 1]);
                }
            }
            let layer = make_layer(config, lists, i)?;
            layers.push(layer);
            i = i + 1;
        }
        let state = NgramHashState {
            token_map,
            pad_id,
            max_ngram_size: text.engram_max_ngram_size,
            n_heads: text.engram_n_heads,
            layers,
            cache: Vec::new(),
        };
        proof {
            assert(state@.layers =~= fresh_hasher(*config, token_map@).layers);
            assert(state@ =~= fresh_hasher(*config, token_map@));
            assert forall|k: int| 0 <= k < state@.layers.len() implies (
            #[trigger] state@.layers[k]).well_formed(ngrams, heads) by {
                assert(is_numbered(sizes[k]));
                lemma_release_layer(sizes[k], k, ngrams, heads);
            }
        }
        Ok(state)
    }

    /// How many tokens the history holds.
    pub fn cached_tokens(&self) -> (count: usize)
        ensures
            count == self@.cache.len(),
    {
        self.cache.len()
    }

    /// The length of the history, to which a failed step goes back.
    pub fn checkpoint(&self) -> (length: usize)
        ensures
            length == self@.cache.len(),
    {
        self.cache.len()
    }

    /// Discards the history after `checkpoint`.
    pub fn rollback(&mut self, checkpoint: usize) -> (result: Result<(), EngramError>)
        ensures
            problem(result) == (if checkpoint > old(self)@.cache.len() {
                Some(
                    EngramProblem::Invalid(
                        "Engram rollback checkpoint is beyond the cached token history"@,
                    ),
                )
            } else {
                None
            }),
            result is Ok ==> final(self)@ == old(self)@.truncated(checkpoint as int),
            result is Err ==> final(self)@ == old(self)@,
    {
        if checkpoint > self.cache.len() {
            return invalid("Engram rollback checkpoint is beyond the cached token history");
        }
        self.cache.truncate(checkpoint);
        Ok(())
    }
}

fn multiply_wrapping(a: u64, b: u64) -> (result: u64)
    ensures
        result == wrapped(a, b),
{
    a.wrapping_mul(b)
}

proof fn lemma_column(n: int, head: int, ngrams: int, heads: int)
    requires
        0 <= n < ngrams,
        0 <= head < heads,
    ensures
        (n * heads + head) / heads == n,
        (n * heads + head) % heads == head,
        0 <= n * heads + head < ngrams * heads,
{
    assert(0 <= n * heads + head < ngrams * heads) by (nonlinear_arith)
        requires
            0 <= n < ngrams,
            0 <= head < heads,
    ;
    vstd::arithmetic::div_mod::lemma_fundamental_div_mod_converse(
        n * heads + head,
        heads,
        n,
        head,
    );
}

proof fn lemma_known(tokens: Seq<u32>, size: nat, from: int)
    requires
        0 <= from <= tokens.len(),
    ensures
        from <= known_tokens(tokens, size, from) <= tokens.len(),
    decreases tokens.len() - from,
{
    if from < tokens.len() && tokens[from] < size {
        lemma_known(tokens, size, from + 1);
    }
}

impl NgramHashState {
    /// The tokens of the longest n-gram that ends at a position, the last one first.
    fn list_tokens(&self, position: usize) -> (tokens: Vec<u64>)
        requires
            position < self@.cache.len(),
        ensures
            tokens@.len() == self@.max_ngram_size,
            forall|shift: int|
                0 <= shift < tokens@.len() ==> #[trigger] tokens@[shift] == token_at(
                    self@.cache,
                    self@.pad_id,
                    position as int,
                    shift as nat,
                ),
    {
        let mut tokens: Vec<u64> = Vec::new();
        let mut blocked: bool = false;
        let mut shift: usize = 0;
        while shift < self.max_ngram_size
            invariant
                position < self@.cache.len(),
                shift <= self.max_ngram_size,
                tokens@.len() == shift,
                blocked == (shift > 0 && is_blocked(
                    self@.cache,
                    position as int,
                    (shift - 1) as nat,
                )),
                forall|k: int|
                    0 <= k < shift ==> #[trigger] tokens@[k] == token_at(
                        self@.cache,
                        self@.pad_id,
                        position as int,
                        k as nat,
                    ),
            decreases self.max_ngram_size - shift,
        {
            let entry: Option<u64> = if position < shift {
                None
            } else {
                self.cache[position - shift]
            };
            match entry {
                Some(token) => {
                    tokens.push(if blocked {
                        self.pad_id
                    } else {
                        token
                    });
                },
                None => {
                    blocked = true;
                    tokens.push(self.pad_id);
                },
            }
            shift = shift + 1;
        }
        tokens
    }

    /// The rows that one layer reads for a list of tokens.
    fn hash_layer(&self, layer: usize, position: usize, tokens: &Vec<u64>) -> (hashes: Vec<u64>)
        requires
            self@.well_formed(),
            self@.max_ngram_size <= 4,
            layer < self@.layers.len(),
            position < self@.cache.len(),
            tokens@.len() == self@.max_ngram_size,
            forall|shift: int|
                0 <= shift < tokens@.len() ==> #[trigger] tokens@[shift] == token_at(
                    self@.cache,
                    self@.pad_id,
                    position as int,
                    shift as nat,
                ),
        ensures
            hashes@ == self@.layer_rows(layer as int, position as int),
    {
        let hash: &HashLayer = &self.layers[layer];
        let heads: usize = self.n_heads;
        let ghost ngrams = self.max_ngram_size - 1;
        let ghost all = self@.layer_rows(layer as int, position as int);
        assert(self@.layers[layer as int] == hash@);
        assert(hash@.well_formed(ngrams, heads as int));
        let mut rolling: u64 = multiply_wrapping(tokens[0], hash.multipliers[0]);
        let mut hashes: Vec<u64> = Vec::new();
        let mut n: usize = 0;
        proof {
            assert(0 * heads == 0);
        }
        while n < self.max_ngram_size - 1
            invariant
                self@.well_formed(),
                self@.max_ngram_size <= 4,
                layer < self@.layers.len(),
                position < self@.cache.len(),
                tokens@.len() == self@.max_ngram_size == self.max_ngram_size,
                forall|shift: int|
                    0 <= shift < tokens@.len() ==> #[trigger] tokens@[shift] == token_at(
                        self@.cache,
                        self@.pad_id,
                        position as int,
                        shift as nat,
                    ),
                ngrams == self.max_ngram_size - 1,
                heads == self.n_heads,
                hash@.well_formed(ngrams, heads as int),
                self@.layers[layer as int] == hash@,
                all == self@.layer_rows(layer as int, position as int),
                n <= ngrams,
                rolling == self@.rolling(layer as int, position as int, n as nat),
                hashes@.len() == n * heads,
                forall|column: int| 0 <= column < n * heads ==> hashes@[column] == all[column],
            decreases ngrams - n,
        {
            let product = multiply_wrapping(tokens[n + 1], hash.multipliers[n + 1]);
            rolling = rolling ^ product;
            let mut head: usize = 0;
            proof {
                assert(hash@.primes[n as int].len() == heads);
                assert(rolling == self@.rolling(layer as int, position as int, (n + 1) as nat));
            }
            while head < heads
                invariant
                    self@.well_formed(),
                    layer < self@.layers.len(),
                    ngrams == self.max_ngram_size - 1,
                    heads == self.n_heads,
                    hash@.well_formed(ngrams, heads as int),
                    self@.layers[layer as int] == hash@,
                    all == self@.layer_rows(layer as int, position as int),
                    n < ngrams,
                    head <= heads,
                    hash.primes@[n as int]@.len() == heads,
                    rolling == self@.rolling(layer as int, position as int, (n + 1) as nat),
                    hashes@.len() == n * heads + head,
                    forall|column: int|
                        0 <= column < n * heads + head ==> hashes@[column] == all[column],
                decreases heads - head,
            {
                proof {
                    lemma_column(n as int, head as int, ngrams, heads as int);
                    assert(hash@.bucket_is_sound(n as int, head as int, heads as int));
                    assert(ngrams * heads == heads * ngrams) by (nonlinear_arith);
                    assert(0 <= n * heads <= n * heads + head);
                }
                let column: usize = n * heads + head;
                let size: u64 = hash.primes[n][head];
                let offset: u64 = hash.offsets[column];
                proof {
                    assert(hash@.primes[n as int][head as int] == size);
                    assert(rolling % size < size);
                    assert(all[column as int] == self@.row(
                        layer as int,
                        position as int,
                        n as int,
                        head as int,
                    ));
                }
                hashes.push(rolling % size + offset);
                head = head + 1;
            }
            proof {
                assert((n + 1) * heads == n * heads + heads) by (nonlinear_arith);
            }
            n = n + 1;
        }
        proof {
            assert(ngrams * heads == heads * ngrams) by (nonlinear_arith);
            assert(hashes@ =~= all);
        }
        hashes
    }

    fn hash_position(&self, position: usize) -> (rows: Vec<Vec<u64>>)
        requires
            self@.well_formed(),
            self@.max_ngram_size <= 4,
            position < self@.cache.len(),
        ensures
            lists_of(rows@) == self@.rows(position as int),
    {
        let tokens = self.list_tokens(position);
        let mut rows: Vec<Vec<u64>> = Vec::new();
        let mut layer: usize = 0;
        while layer < self.layers.len()
            invariant
                self@.well_formed(),
                self@.max_ngram_size <= 4,
                position < self@.cache.len(),
                tokens@.len() == self@.max_ngram_size,
                forall|shift: int|
                    0 <= shift < tokens@.len() ==> #[trigger] tokens@[shift] == token_at(
                        self@.cache,
                        self@.pad_id,
                        position as int,
                        shift as nat,
                    ),
                layer <= self.layers@.len() == self@.layers.len(),
                rows@.len() == layer,
                forall|k: int|
                    0 <= k < layer ==> (#[trigger] rows@[k])@ == self@.layer_rows(
                        k,
                        position as int,
                    ),
            decreases self.layers@.len() - layer,
        {
            let list = self.hash_layer(layer, position, &tokens);
            rows.push(list);
            layer = layer + 1;
        }
        proof {
            assert(lists_of(rows@) =~= self@.rows(position as int));
        }
        rows
    }

    /// Hashes a span of tokens that begins at `start`, which may overwrite the end of the history.
    /// A token whose mark in `participates` is `false` takes no part in any n-gram. The rows come
    /// by token, layer and column. A token that the map does not know ends the span; the tokens
    /// before it stay in the history.
    pub fn push(&mut self, start: usize, tokens: &[u32], participates: Option<&[bool]>) -> (result:
        Result<Vec<Vec<Vec<u64>>>, EngramError>)
        requires
            old(self)@.well_formed(),
            old(self)@.max_ngram_size <= 4,
        ensures
            final(self)@.well_formed(),
            match span_problem(old(self)@, start, tokens@, mask_view(participates)) {
                Some(reason) => problem(result) == Some(reason) && final(self)@ == old(self)@,
                None => {
                    let base = old(self)@.truncated(start as int);
                    let known = known_tokens(tokens@, base.token_map.len(), 0);
                    &&& final(self)@ == base.extended(
                        tokens@.take(known),
                        mask_view(participates),
                    )
                    &&& known < tokens@.len() ==> problem(result) == Some(
                        EngramProblem::UnknownTokenId(tokens@[known]),
                    )
                    &&& known == tokens@.len() ==> result is Ok
                    &&& result matches Ok(rows) ==> known == tokens@.len() && layers_of(rows@)
                        == base.outputs(tokens@, mask_view(participates))
                },
            },
    {
        let ghost mask = mask_view(participates);
        match participates {
            Some(list) => {
                if list.len() != tokens.len() {
                    return invalid("Engram token mask length differs from token span");
                }
            },
            None => {},
        }
        if start > self.cache.len() {
            let mut reason = "start_pos=".to_owned();
            push_decimal(&mut reason, start as u64);
            reason.append(" leaves a gap after cached length ");
            push_decimal(&mut reason, self.cache.len() as u64);
            return Err(EngramError::Invalid(reason));
        }
        self.cache.truncate(start);
        let ghost base = self@;
        let mut output: Vec<Vec<Vec<u64>>> = Vec::new();
        let mut i: usize = 0;
        proof {
            assert(base =~= old(self)@.truncated(start as int));
            assert(base.extended(tokens@.take(0), mask) =~= base);
        }
        while i < tokens.len()
            invariant
                mask == mask_view(participates),
                mask is Some ==> mask->0.len() == tokens@.len(),
                base == old(self)@.truncated(start as int),
                base.cache.len() == start,
                span_problem(old(self)@, start, tokens@, mask) is None,
                base.max_ngram_size <= 4,
                base.well_formed(),
                i <= tokens@.len(),
                self@ == base.extended(tokens@.take(i as int), mask),
                known_tokens(tokens@, base.token_map.len(), 0) == known_tokens(
                    tokens@,
                    base.token_map.len(),
                    i as int,
                ),
                output@.len() == i,
                forall|k: int|
                    0 <= k < i ==> lists_of((#[trigger] output@[k])@) == base.outputs(
                        tokens@,
                        mask,
                    )[k],
            decreases tokens@.len() - i,
        {
            let token: u32 = tokens[i];
            if token as u64 >= self.token_map.len() as u64 {
                return Err(EngramError::UnknownTokenId(token));
            }
            let compressed: u32 = self.token_map[token as usize];
            let live: bool = match participates {
                Some(list) => list[i],
                None => true,
            };
            let entry: Option<u64> = if live {
                Some(compressed as u64)
            } else {
                None
            };
            self.cache.push(entry);
            proof {
                let next = base.extended(tokens@.take(i + 1), mask);
                assert(self@.cache =~= next.cache);
                assert(self@ =~= next);
                assert(self@.well_formed());
            }
            let rows = self.hash_position(self.cache.len() - 1);
            output.push(rows);
            i = i + 1;
        }
        proof {
            assert(tokens@.take(i as int) =~= tokens@);
            assert(layers_of(output@) =~= base.outputs(tokens@, mask));
        }
        Ok(output)
    }
}

/// Hashing a span in two parts gives the rows, and leaves the history, of hashing it in one.
pub proof fn spans_can_be_split(
    state: HashView,
    tokens: Seq<u32>,
    mask: Option<Seq<bool>>,
    count: int,
)
    requires
        0 <= count <= tokens.len(),
        mask is Some ==> mask->0.len() == tokens.len(),
    ensures
        ({
            let later_mask = match mask {
                None => None,
                Some(list) => Some(list.skip(count)),
            };
            let middle = state.extended(tokens.take(count), mask);
            &&& middle.extended(tokens.skip(count), later_mask) == state.extended(tokens, mask)
            &&& state.outputs(tokens.take(count), mask) + middle.outputs(
                tokens.skip(count),
                later_mask,
            ) == state.outputs(tokens, mask)
        }),
{
    let later_mask = match mask {
        None => None,
        Some(list) => Some(list.skip(count)),
    };
    let middle = state.extended(tokens.take(count), mask);
    let later = tokens.skip(count);
    assert(middle.extended(later, later_mask).cache =~= state.extended(tokens, mask).cache);
    let first = state.outputs(tokens.take(count), mask);
    let second = middle.outputs(later, later_mask);
    let whole = state.outputs(tokens, mask);
    assert forall|i: int| 0 <= i < whole.len() implies (first + second)[i] == whole[i] by {
        if i < count {
            assert(tokens.take(count).take(i + 1) =~= tokens.take(i + 1));
        } else {
            let k = i - count;
            assert(middle.extended(later.take(k + 1), later_mask).cache =~= state.extended(
                tokens.take(i + 1),
                mask,
            ).cache);
        }
    }
    assert(first + second =~= whole);
}

/// Going back to a length undoes whatever was hashed behind it.
pub proof fn rollback_undoes_a_span(state: HashView, tokens: Seq<u32>, mask: Option<Seq<bool>>)
    ensures
        state.extended(tokens, mask).truncated(state.cache.len() as int) == state,
{
    assert(state.extended(tokens, mask).truncated(state.cache.len() as int) =~= state);
}

/// What a position reads depends on the history up to it and on nothing behind.
pub proof fn rows_depend_on_the_past(state: HashView, other: HashView, position: int)
    requires
        state.well_formed(),
        0 <= position < state.cache.len(),
        position < other.cache.len(),
        other == state.with_cache(other.cache),
        state.cache.take(position + 1) == other.cache.take(position + 1),
    ensures
        state.rows(position) == other.rows(position),
{
    assert forall|k: int| 0 <= k <= position implies state.cache[k] == other.cache[k] by {
        assert(state.cache.take(position + 1)[k] == state.cache[k]);
        assert(other.cache.take(position + 1)[k] == other.cache[k]);
    }
    assert forall|layer: int, column: int| #![auto]
        0 <= layer < state.layers.len() && 0 <= column < state.layer_rows(
            layer,
            position,
        ).len() implies state.layer_rows(layer, position)[column] == other.layer_rows(
        layer,
        position,
    )[column] by {
        let n = column / (state.n_heads as int);
        lemma_rolling_same(state, other, layer, position, (n + 1) as nat);
    }
    assert forall|layer: int| 0 <= layer < state.layers.len() implies #[trigger] state.rows(
        position,
    )[layer] == other.rows(position)[layer] by {
        assert(state.layer_rows(layer, position) =~= other.layer_rows(layer, position));
    }
    assert(state.rows(position) =~= other.rows(position));
}

proof fn lemma_rolling_same(
    state: HashView,
    other: HashView,
    layer: int,
    position: int,
    shift: nat,
)
    requires
        other == state.with_cache(other.cache),
        forall|k: int| 0 <= k <= position ==> state.cache[k] == other.cache[k],
    ensures
        state.rolling(layer, position, shift) == other.rolling(layer, position, shift),
        is_blocked(state.cache, position, shift) == is_blocked(other.cache, position, shift),
    decreases shift,
{
    if shift > 0 {
        lemma_rolling_same(state, other, layer, position, (shift - 1) as nat);
    }
}

/// A token that takes no part hides itself and everything before it: what a later position reads is
/// what it would read if the text began behind that token.
pub proof fn a_masked_token_hides_the_past(state: HashView, masked: int, position: int)
    requires
        state.well_formed(),
        0 <= masked < position < state.cache.len(),
        state.cache[masked] is None,
    ensures
        state.rows(position) == state.with_cache(state.cache.skip(masked + 1)).rows(
            position - masked - 1,
        ),
{
    let behind = state.with_cache(state.cache.skip(masked + 1));
    let place = position - masked - 1;
    assert forall|layer: int, column: int| #![auto]
        0 <= layer < state.layers.len() && 0 <= column < state.layer_rows(
            layer,
            position,
        ).len() implies state.layer_rows(layer, position)[column] == behind.layer_rows(
        layer,
        place,
    )[column] by {
        let n = column / (state.n_heads as int);
        lemma_rolling_behind(state, layer, masked, position, (n + 1) as nat);
    }
    assert forall|layer: int| 0 <= layer < state.layers.len() implies #[trigger] state.rows(
        position,
    )[layer] == behind.rows(place)[layer] by {
        assert(state.layer_rows(layer, position) =~= behind.layer_rows(layer, place));
    }
    assert(state.rows(position) =~= behind.rows(place));
}

/// Histories that agree behind a token that takes no part in either read alike from it on, whatever
/// stands before it.
pub proof fn the_past_of_a_masked_token_does_not_matter(
    state: HashView,
    other: HashView,
    masked: int,
    position: int,
)
    requires
        state.well_formed(),
        other == state.with_cache(other.cache),
        0 <= masked <= position < state.cache.len(),
        position < other.cache.len(),
        state.cache[masked] is None,
        other.cache[masked] is None,
        forall|k: int| masked < k <= position ==> state.cache[k] == other.cache[k],
    ensures
        state.rows(position) == other.rows(position),
{
    assert forall|layer: int, column: int| #![auto]
        0 <= layer < state.layers.len() && 0 <= column < state.layer_rows(
            layer,
            position,
        ).len() implies state.layer_rows(layer, position)[column] == other.layer_rows(
        layer,
        position,
    )[column] by {
        let n = column / (state.n_heads as int);
        lemma_rolling_alike(state, other, layer, masked, position, (n + 1) as nat);
    }
    assert forall|layer: int| 0 <= layer < state.layers.len() implies #[trigger] state.rows(
        position,
    )[layer] == other.rows(position)[layer] by {
        assert(state.layer_rows(layer, position) =~= other.layer_rows(layer, position));
    }
    assert(state.rows(position) =~= other.rows(position));
}

proof fn lemma_rolling_behind(
    state: HashView,
    layer: int,
    masked: int,
    position: int,
    shift: nat,
)
    requires
        0 <= masked < position < state.cache.len(),
        state.cache[masked] is None,
    ensures
        ({
            let behind = state.with_cache(state.cache.skip(masked + 1));
            let place = position - masked - 1;
            &&& state.rolling(layer, position, shift) == behind.rolling(layer, place, shift)
            &&& is_blocked(state.cache, position, shift) == is_blocked(behind.cache, place, shift)
        }),
    decreases shift,
{
    if shift > 0 {
        lemma_rolling_behind(state, layer, masked, position, (shift - 1) as nat);
    }
    if position - shift > masked {
        assert(state.cache.skip(masked + 1)[position - masked - 1 - shift] == state.cache[position
            - shift]);
    }
}

proof fn lemma_rolling_alike(
    state: HashView,
    other: HashView,
    layer: int,
    masked: int,
    position: int,
    shift: nat,
)
    requires
        other == state.with_cache(other.cache),
        0 <= masked <= position,
        state.cache[masked] is None,
        other.cache[masked] is None,
        forall|k: int| masked < k <= position ==> state.cache[k] == other.cache[k],
    ensures
        state.rolling(layer, position, shift) == other.rolling(layer, position, shift),
        is_blocked(state.cache, position, shift) == is_blocked(other.cache, position, shift),
        shift >= position - masked ==> is_blocked(state.cache, position, shift),
    decreases shift,
{
    if shift > 0 {
        lemma_rolling_alike(state, other, layer, masked, position, (shift - 1) as nat);
    }
}

impl HashLayer {
    fn copy(&self) -> (copy: Self)
        ensures
            copy@ == self@,
    {
        let mut primes: Vec<Vec<u64>> = Vec::new();
        let mut i: usize = 0;
        while i < self.primes.len()
            invariant
                i <= self.primes@.len(),
                primes@.len() == i,
                forall|k: int| 0 <= k < i ==> (#[trigger] primes@[k])@ == self.primes@[k]@,
            decreases self.primes@.len() - i,
        {
            primes.push(copied(self.primes[i].as_slice()));
            i = i + 1;
        }
        assert(lists_of(primes@) =~= lists_of(self.primes@));
        HashLayer {
            primes,
            offsets: copied(self.offsets.as_slice()),
            multipliers: copied(self.multipliers.as_slice()),
        }
    }
}

impl NgramHashState {
    /// The same hasher once more.
    pub fn copy(&self) -> (copy: Self)
        ensures
            copy@ == self@,
    {
        let mut layers: Vec<HashLayer> = Vec::new();
        let mut i: usize = 0;
        while i < self.layers.len()
            invariant
                i <= self.layers@.len(),
                layers@.len() == i,
                forall|k: int| 0 <= k < i ==> (#[trigger] layers@[k])@ == self.layers@[k]@,
            decreases self.layers@.len() - i,
        {
            layers.push(self.layers[i].copy());
            i = i + 1;
        }
        let copy = NgramHashState {
            token_map: copied(self.token_map.as_slice()),
            pad_id: self.pad_id,
            max_ngram_size: self.max_ngram_size,
            n_heads: self.n_heads,
            layers,
            cache: copied(self.cache.as_slice()),
        };
        assert(copy@.layers =~= self@.layers);
        copy
    }
}

/// The rows that the n-grams ending with a token read, in closed form. `history` is what stands
/// before the token and up to it: the compressed id of every token that takes part, and nothing for
/// one that does not. Going back from the token, the ids count until the text begins or a token
/// takes no part; the pad id stands for everything beyond. Each id is multiplied by the multiplier
/// of its distance, modulo two to the 64; the products of two, three and four tokens are mixed by
/// exclusive or, reduced by the size of the head's bucket and moved to where the bucket begins.
pub proof fn ngram_rows_in_closed_form(
    state: HashView,
    tokens: Seq<u32>,
    mask: Option<Seq<bool>>,
    history: Seq<Option<u64>>,
    i: int,
    layer: int,
    head: int,
)
    requires
        state.well_formed(),
        state.max_ngram_size == 4,
        0 <= i < tokens.len(),
        0 <= layer < state.layers.len(),
        0 <= head < state.n_heads,
        history.len() == state.cache.len() + tokens.len(),
        forall|k: int| 0 <= k < state.cache.len() ==> #[trigger] history[k] == state.cache[k],
        forall|k: int|
            0 <= k < tokens.len() ==> history[state.cache.len() + k] == (if mask is None
                || mask->0[k] {
                Some(state.token_map[(#[trigger] tokens[k]) as int] as u64)
            } else {
                None
            }),
    ensures
        state.extended(tokens, mask).cache == history,
        ({
            let at = state.cache.len() + i;
            let heads = state.n_heads as int;
            let hash = state.layers[layer];
            let sees_0 = history[at] is Some;
            let sees_1 = sees_0 && at >= 1 && history[at - 1] is Some;
            let sees_2 = sees_1 && at >= 2 && history[at - 2] is Some;
            let sees_3 = sees_2 && at >= 3 && history[at - 3] is Some;
            let id_0 = if sees_0 { history[at]->0 } else { state.pad_id };
            let id_1 = if sees_1 { history[at - 1]->0 } else { state.pad_id };
            let id_2 = if sees_2 { history[at - 2]->0 } else { state.pad_id };
            let id_3 = if sees_3 { history[at - 3]->0 } else { state.pad_id };
            let mixed_1 = ((id_0 * hash.multipliers[0]) % 0x1_0000_0000_0000_0000) as u64;
            let mixed_2 = mixed_1 ^ (((id_1 * hash.multipliers[1]) % 0x1_0000_0000_0000_0000) as u64);
            let mixed_3 = mixed_2 ^ (((id_2 * hash.multipliers[2]) % 0x1_0000_0000_0000_0000) as u64);
            let mixed_4 = mixed_3 ^ (((id_3 * hash.multipliers[3]) % 0x1_0000_0000_0000_0000) as u64);
            let rows = state.outputs(tokens, mask)[i][layer];
            &&& rows.len() == 3 * heads
            &&& rows[head] == mixed_2 % hash.primes[0][head] + hash.offsets[head]
            &&& rows[heads + head] == mixed_3 % hash.primes[1][head] + hash.offsets[heads + head]
            &&& rows[2 * heads + head] == mixed_4 % hash.primes[2][head] + hash.offsets[2 * heads
                + head]
        }),
{
    reveal_with_fuel(is_blocked, 5);
    reveal_with_fuel(HashView::rolling, 5);
    let at = state.cache.len() + i;
    let heads = state.n_heads as int;
    let hash = state.layers[layer];
    assert(state.extended(tokens, mask).cache =~= history);
    let upto = state.extended(tokens.take(i + 1), mask);
    assert forall|k: int| 0 <= k <= at implies upto.cache[k] == history[k] by {
        if k >= state.cache.len() {
            assert(tokens.take(i + 1)[k - state.cache.len()] == tokens[k - state.cache.len()]);
        }
    }
    assert(state.outputs(tokens, mask)[i] == upto.rows(at));
    assert(upto.rows(at)[layer] == upto.layer_rows(layer, at));
    assert(hash.well_formed(3, heads));
    assert forall|n: int| 0 <= n < 3 implies {
        &&& 0 <= n * heads + head < 3 * heads
        &&& #[trigger] upto.layer_rows(layer, at)[n * heads + head] == upto.rolling(
            layer,
            at,
            (n + 1) as nat,
        ) % hash.primes[n][head] + hash.offsets[n * heads + head]
    } by {
        lemma_column(n, head, 3, heads);
        assert(0 <= n * heads + head < 3 * heads) by (nonlinear_arith)
            requires
                0 <= n < 3,
                0 <= head < heads,
        ;
        assert(hash.bucket_is_sound(n, head, heads));
        let mixed = upto.rolling(layer, at, (n + 1) as nat);
        let size = hash.primes[n][head];
        vstd::arithmetic::div_mod::lemma_mod_bound(mixed as int, size as int);
        assert(upto.layer_rows(layer, at)[n * heads + head] == upto.row(layer, at, n, head));
    }
    assert(0 * heads + head == head && 1 * heads + head == heads + head);
    assert(upto.layer_rows(layer, at)[0 * heads + head] == upto.layer_rows(layer, at)[head]);
    assert(upto.layer_rows(layer, at)[1 * heads + head] == upto.layer_rows(layer, at)[heads + head]);
    assert(upto.layer_rows(layer, at)[2 * heads + head] == upto.layer_rows(layer, at)[2 * heads
        + head]);
}

/// The multipliers of the hasher of a configuration are the release's: four for each of its two
/// layers, the nearest token first.
pub proof fn hashers_have_the_release_multipliers(
    config: DeepseekV41Config,
    token_map: Seq<u32>,
    layer: int,
)
    requires
        0 <= layer < fresh_hasher(config, token_map).layers.len(),
    ensures
        fresh_hasher(config, token_map).layers[layer].multipliers == (if layer == 0 {
            seq![76632096046245u64, 4839876093313, 35959672319349, 73987337458391]
        } else {
            seq![67716810739261u64, 51510806800915, 30921347202721, 82619226485591]
        }),
{
}

/// Whether a list holds the smallest primes above a number, all of them up to its last, in order.
pub open spec fn is_prime_run(start: int, list: Seq<u64>) -> bool {
    &&& forall|i: int| 0 <= i < list.len() ==> start < #[trigger] list[i] && primes::prime(
        list[i] as int,
    )
    &&& forall|i: int, j: int| 0 <= i < j < list.len() ==> list[i] < list[j]
    &&& forall|q: int|
        list.len() > 0 && start < q <= list.last() && #[trigger] primes::prime(q) ==> list.contains(
            q as u64,
        )
}

proof fn lemma_head_run(start: int, seen: Seq<u64>, count: nat)
    requires
        is_prime_run(start, seen),
    ensures
        head_primes(start, seen, count) matches Some(list) ==> list.len() == count && is_prime_run(
            start,
            seen + list,
        ),
    decreases count,
{
    if count == 0 {
        assert(seen + Seq::<u64>::empty() =~= seen);
    } else {
        lemma_head_run(start, seen, (count - 1) as nat);
        let before = head_primes(start, seen, (count - 1) as nat);
        if before is Some {
            let list = before->0;
            let all = seen + list;
            let current = if list.len() == 0 {
                start
            } else {
                list.last() as int
            };
            primes::lemma_next_exists(current, all);
            let next = primes::next_unseen(current, all);
            if next is Some {
                let value = next->0;
                let longer = list.push(value);
                assert(seen + longer =~= all.push(value));
                assert(primes::fresh_prime(value as int, all));
                if list.len() > 0 {
                    assert(list.last() == list[list.len() - 1]);
                    assert(all[all.len() - 1] == list.last());
                    assert(start < all[all.len() - 1]);
                }
                if all.len() > 0 && value <= all.last() {
                    assert(all.contains(value));
                }
                assert forall|i: int, j: int| 0 <= i < j < all.push(value).len() implies all.push(
                    value,
                )[i] < all.push(value)[j] by {
                    if j == all.len() {
                        if i < all.len() - 1 {
                            assert(all[i] < all[all.len() - 1]);
                        }
                    }
                }
                assert forall|q: int|
                    start < q <= value && #[trigger] primes::prime(q) implies all.push(
                    value,
                ).contains(q as u64) by {
                    if q == value {
                        assert(all.push(value)[all.len() as int] == q as u64);
                    } else {
                        if !all.contains(q as u64) {
                            assert(primes::fresh_prime(q, all));
                            assert(q <= current);
                            if list.len() > 0 {
                                assert(all.last() == list.last());
                                assert(all.contains(q as u64));
                            }
                        }
                        let at = choose|at: int| 0 <= at < all.len() && all[at] == q as u64;
                        assert(all.push(value)[at] == q as u64);
                    }
                }
            }
        }
    }
}

proof fn lemma_layer_run(start: int, seen: Seq<u64>, ngrams: nat, heads: nat)
    requires
        is_prime_run(start, seen),
    ensures
        layer_primes(start, seen, ngrams, heads) matches Some(lists) ==> {
            &&& lists.len() == ngrams
            &&& forall|n: int| 0 <= n < ngrams ==> (#[trigger] lists[n]).len() == heads
            &&& is_prime_run(start, seen + flat(lists))
        },
    decreases ngrams,
{
    if ngrams == 0 {
        assert(seen + Seq::<u64>::empty() =~= seen);
        assert(flat(Seq::<Seq<u64>>::empty()) =~= Seq::<u64>::empty());
    } else {
        lemma_layer_run(start, seen, (ngrams - 1) as nat, heads);
        let before = layer_primes(start, seen, (ngrams - 1) as nat, heads);
        if before is Some {
            let lists = before->0;
            lemma_head_run(start, seen + flat(lists), heads);
            let head = head_primes(start, seen + flat(lists), heads);
            if head is Some {
                let longer = lists.push(head->0);
                assert(longer.drop_last() =~= lists);
                assert(longer.last() == head->0);
                assert(seen + flat(longer) =~= seen + flat(lists) + head->0);
            }
        }
    }
}

/// The bucket sizes of all layers, taken layer by layer, n-gram by n-gram and head by head, are the
/// smallest primes that are not below the size of the vocabulary, in order and none left out.
pub proof fn bucket_sizes_are_successive_primes(
    start: int,
    count: nat,
    ngrams: nat,
    heads: nat,
    layer: int,
)
    requires
        0 <= layer < count,
    ensures
        bucket_primes(start, count, ngrams, heads) matches Some(layers) ==> {
            &&& layers.len() == count
            &&& layers[layer].len() == ngrams
            &&& forall|n: int| 0 <= n < ngrams ==> (#[trigger] layers[layer][n]).len() == heads
            &&& is_prime_run(start, used_primes(layers))
        },
{
    lemma_bucket_run(start, count, ngrams, heads);
}

proof fn lemma_bucket_run(start: int, count: nat, ngrams: nat, heads: nat)
    ensures
        bucket_primes(start, count, ngrams, heads) matches Some(layers) ==> {
            &&& layers.len() == count
            &&& forall|l: int| 0 <= l < count ==> (#[trigger] layers[l]).len() == ngrams
            &&& forall|l: int, n: int|
                0 <= l < count && 0 <= n < ngrams ==> (#[trigger] layers[l][n]).len() == heads
            &&& is_prime_run(start, used_primes(layers))
        },
    decreases count,
{
    if count == 0 {
        assert(used_primes(Seq::<Seq<Seq<u64>>>::empty()) =~= Seq::<u64>::empty());
    } else {
        lemma_bucket_run(start, (count - 1) as nat, ngrams, heads);
        let before = bucket_primes(start, (count - 1) as nat, ngrams, heads);
        if before is Some {
            let layers = before->0;
            lemma_layer_run(start, used_primes(layers), ngrams, heads);
            let lists = layer_primes(start, used_primes(layers), ngrams, heads);
            if lists is Some {
                let longer = layers.push(lists->0);
                assert(longer.drop_last() =~= layers);
                assert(longer.last() == lists->0);
            }
        }
    }
}

/// A configuration starts its buckets at the size of the vocabulary, and has as many as it has Engram
/// layers, n-grams from two tokens on, and heads.
pub proof fn buckets_start_at_the_vocabulary(config: DeepseekV41Config)
    requires
        config.text_config.engram_max_ngram_size >= 1,
    ensures
        config_buckets(config) matches Some(layers) ==> {
            let text = config.text_config;
            &&& layers.len() == text.engram_layer_ids@.len()
            &&& is_prime_run(text.engram_vocab_size - 1, used_primes(layers))
            &&& forall|l: int|
                0 <= l < layers.len() ==> (#[trigger] layers[l]).len() == text.engram_max_ngram_size
                    - 1
            &&& forall|l: int, n: int|
                0 <= l < layers.len() && 0 <= n < layers[l].len() ==> (
                #[trigger] layers[l][n]).len() == text.engram_n_heads
        },
{
    let text = config.text_config;
    lemma_bucket_run(
        text.engram_vocab_size - 1,
        text.engram_layer_ids@.len(),
        (text.engram_max_ngram_size - 1) as nat,
        text.engram_n_heads as nat,
    );
}

/// A read begins with its first row and holds its rows whole. It is no longer than 64 KiB unless it is
/// of a single row, and where the next row is adjacent to it one more would have made it longer.
pub proof fn reads_hold_whole_rows(rows: Seq<usize>, width: usize, i: int)
    requires
        width > 0,
        reads_problem(rows, width as int) is None,
        0 <= i < runs(rows, 0, rows_per_read(width as int)).len(),
    ensures
        ({
            let list = runs(rows, 0, rows_per_read(width as int));
            let read = reads_of(rows, width as int, list)[i];
            let (start, end) = list[i];
            &&& 0 <= start < end <= rows.len()
            &&& read.offset == rows[start] * width
            &&& read.length == (end - start) * width
            &&& read.length <= 65_536 || end == start + 1
            &&& end < rows.len() && rows[end] == rows[end - 1] + 1 ==> read.length + width > 65_536
        }),
{
    let cap = rows_per_read(width as int);
    let list = runs(rows, 0, cap);
    runs_cover_the_rows(rows, cap);
    assert(is_run(rows, list[i], cap));
    let (start, end) = list[i];
    assert(!starts_beyond(rows, width as int, list[i]));
    let whole = 65_536int / width as int;
    let rest = 65_536int % width as int;
    vstd::arithmetic::div_mod::lemma_fundamental_div_mod(65_536, width as int);
    vstd::arithmetic::div_mod::lemma_mod_bound(65_536, width as int);
    let count = end - start;
    assert(0 <= count * width <= rows.len() * width) by (nonlinear_arith)
        requires
            0 <= count <= rows.len(),
    ;
    assert(0 <= rows[start] * width) by (nonlinear_arith);
    assert(count <= whole ==> count * width <= 65_536) by (nonlinear_arith)
        requires
            65_536 == width * whole + rest,
            0 <= rest,
    ;
    assert(whole >= 0) by (nonlinear_arith)
        requires
            65_536 == width * whole + rest,
            0 <= rest < width,
    ;
    assert(count >= whole ==> count * width + width > 65_536) by (nonlinear_arith)
        requires
            65_536 == width * whole + rest,
            0 <= rest < width,
    ;
}

/// A request is refused for the first of its rows that the table does not have.
pub proof fn the_first_stray_row_is_named(request: Seq<usize>, rows: usize, i: int)
    requires
        0 <= i < request.len(),
    ensures
        stray_row(request, rows) is None ==> request[i] < rows,
        stray_row(request, rows) matches Some(row) ==> row >= rows && exists|at: int|
            0 <= at < request.len() && #[trigger] request[at] == row && (forall|j: int|
                0 <= j < at ==> request[j] < rows),
    decreases request.len(),
{
    if request[0] >= rows {
        assert(request[0] == stray_row(request, rows)->0);
    } else {
        let rest = request.skip(1);
        if rest.len() > 0 {
            let other = if i > 0 {
                i - 1
            } else {
                0
            };
            the_first_stray_row_is_named(rest, rows, other);
            assert(rest[other] == request[other + 1]);
            if stray_row(rest, rows) is Some {
                let row = stray_row(rest, rows)->0;
                let at = choose|at: int|
                    0 <= at < rest.len() && #[trigger] rest[at] == row && (forall|j: int|
                        0 <= j < at ==> rest[j] < rows);
                assert(request[at + 1] == row);
                assert forall|j: int| 0 <= j < at + 1 implies request[j] < rows by {
                    if j > 0 {
                        assert(rest[j - 1] == request[j]);
                    }
                }
            }
        }
    }
}

/// A row is sound exactly where none of its values is the pattern for no number, and the scales of
/// all its groups of thirty-two are sound.
pub proof fn rows_of_numbers_are_sound(
    row: usize,
    values: Seq<u8>,
    scales: Seq<Option<String>>,
    column: int,
)
    requires
        0 <= column < values.len(),
    ensures
        row_problem(row, values, scales, 0) is None ==> values[column] != 0x7f && values[column]
            != 0xff && scales[column / 32] is None,
        (forall|c: int|
            0 <= c < values.len() ==> #[trigger] values[c] != 0x7f && values[c] != 0xff
                && scales[c / 32] is None) ==> row_problem(row, values, scales, 0) is None,
{
    lemma_row_problem(row, values, scales, 0, column);
}

proof fn lemma_row_problem(
    row: usize,
    values: Seq<u8>,
    scales: Seq<Option<String>>,
    from: int,
    column: int,
)
    requires
        0 <= from,
    ensures
        row_problem(row, values, scales, from) is None && from <= column < values.len()
            ==> values[column] != 0x7f && values[column] != 0xff && scales[column / 32] is None,
        (forall|c: int|
            from <= c < values.len() ==> #[trigger] values[c] != 0x7f && values[c] != 0xff
                && scales[c / 32] is None) ==> row_problem(row, values, scales, from) is None,
    decreases values.len() - from,
{
    if from < values.len() {
        lemma_row_problem(row, values, scales, from + 1, column);
        assert(is_e4m3_nan(values[from]) == (values[from] == 0x7f || values[from] == 0xff));
    }
}

/// The size of a map is one more than its greatest id, and that of an empty map is zero.
pub proof fn the_map_reaches_its_greatest_id(token_map: Seq<u32>, i: int)
    requires
        0 <= i < token_map.len(),
    ensures
        token_map[i] < map_size(token_map),
        exists|j: int|
            0 <= j < token_map.len() && #[trigger] token_map[j] + 1 == map_size(token_map),
    decreases token_map.len(),
{
    let front = token_map.drop_last();
    let last = token_map.len() - 1;
    if front.len() > 0 {
        let other = if i < last {
            i
        } else {
            0
        };
        the_map_reaches_its_greatest_id(front, other);
        assert(front[other] == token_map[other]);
        let j = choose|j: int| 0 <= j < front.len() && #[trigger] front[j] + 1 == map_size(front);
        assert(token_map[j] + 1 == map_size(front));
        assert(token_map[last] + 1 == token_map.last() + 1);
    } else {
        assert(map_size(front) == 0);
        assert(token_map[last] + 1 == map_size(token_map));
    }
}

/// The tokens before the first unknown one are known.
pub proof fn tokens_are_known_up_to_the_first_stray(tokens: Seq<u32>, size: nat, i: int)
    requires
        0 <= i < tokens.len(),
    ensures
        ({
            let known = known_tokens(tokens, size, 0);
            &&& 0 <= known <= tokens.len()
            &&& i < known ==> tokens[i] < size
            &&& known < tokens.len() ==> tokens[known] >= size
        }),
{
    lemma_known_before(tokens, size, 0, i);
}

proof fn lemma_known_before(tokens: Seq<u32>, size: nat, from: int, i: int)
    requires
        0 <= from <= tokens.len(),
    ensures
        ({
            let known = known_tokens(tokens, size, from);
            &&& from <= known <= tokens.len()
            &&& from <= i < known ==> tokens[i] < size
            &&& known < tokens.len() ==> tokens[known] >= size
        }),
    decreases tokens.len() - from,
{
    if from < tokens.len() && tokens[from] < size {
        lemma_known_before(tokens, size, from + 1, i);
    }
}

/// A hasher is made exactly where the token map is that of the release, by its length, its greatest id
/// and its fingerprint, and the layers are the two of the release whose tables have a row for every
/// place of their buckets. It starts without a past, with the mapped padding token and the geometry
/// of the configuration.
pub proof fn hashers_are_made_for_the_release(config: DeepseekV41Config, token_map: Seq<u32>)
    requires
        can_hash(config),
    ensures
        ({
            let text = config.text_config;
            let sizes = config_buckets(config)->0;
            let fresh = fresh_hasher(config, token_map);
            &&& hasher_problem(config, token_map) is None <==> {
                &&& token_map.len() == text.vocab_size
                &&& map_size(token_map) == 99_092
                &&& text.engram_compressed_vocab_size == 99_092
                &&& token_map::fnv1a(token_map::list_bytes(token_map)) == 0x6b5c_fa68_a5f5_7ba6
                &&& sizes.len() <= 2
                &&& forall|place: int|
                    0 <= place < sizes.len() ==> (#[trigger] text.engram_layer_ids@[place] == 1
                        || text.engram_layer_ids@[place] == 14) && sum(flat(sizes[place]))
                        == text.engram_num_embeddings@[place]
            }
            &&& fresh.cache.len() == 0
            &&& fresh.pad_id == token_map[text.engram_pad_token_id as int]
            &&& fresh.token_map == token_map
            &&& fresh.max_ngram_size == text.engram_max_ngram_size
            &&& fresh.n_heads == text.engram_n_heads
            &&& fresh.layers.len() == sizes.len()
            &&& forall|i: int|
                0 <= i < sizes.len() ==> (#[trigger] fresh.layers[i]).primes == sizes[i]
        }),
{
    let sizes = config_buckets(config)->0;
    lemma_layers_problem(config, sizes, 0);
    let ids = config.text_config.engram_layer_ids@;
    if forall|place: int|
        0 <= place < sizes.len() ==> #[trigger] layer_problem(config, sizes[place], place) is None {
        if sizes.len() > 2 {
            assert(layer_problem(config, sizes[2], 2) is None);
        }
        assert forall|place: int| 0 <= place < sizes.len() implies (#[trigger] ids[place] == 1
            || ids[place] == 14) && sum(flat(sizes[place]))
            == config.text_config.engram_num_embeddings@[place] by {
            assert(layer_problem(config, sizes[place], place) is None);
        }
    }
    if sizes.len() <= 2 && (forall|place: int|
        0 <= place < sizes.len() ==> (#[trigger] ids[place] == 1 || ids[place] == 14) && sum(
            flat(sizes[place]),
        ) == config.text_config.engram_num_embeddings@[place]) {
        assert forall|place: int| 0 <= place < sizes.len() implies #[trigger] layer_problem(
            config,
            sizes[place],
            place,
        ) is None by {
            assert(ids[place] == 1 || ids[place] == 14);
        }
    }
}

proof fn lemma_layers_problem(config: DeepseekV41Config, sizes: Seq<Seq<Seq<u64>>>, from: int)
    requires
        0 <= from,
    ensures
        layers_problem(config, sizes, from) is None <==> forall|place: int|
            from <= place < sizes.len() ==> #[trigger] layer_problem(config, sizes[place], place) is None,
    decreases sizes.len() - from,
{
    if from < sizes.len() {
        lemma_layers_problem(config, sizes, from + 1);
    }
}

/// A table is opened exactly where its checkpoint holds both parts under their names, the values as
/// rows of eight-bit floats and the scales as one exponent for every thirty-two of them.
pub proof fn tables_are_opened_by_their_layout(
    index: storage::IndexView,
    layer: nat,
    rows: usize,
    width: usize,
)
    ensures
        ({
            let weight = "layers."@ + text::decimal(layer) + ".engram.embed."@ + "weight"@;
            let scale = "layers."@ + text::decimal(layer) + ".engram.embed."@ + "scale"@;
            table_problem(index, layer, rows, width) is None <==> {
                &&& rows > 0 && width > 0 && width as int % 32 == 0
                &&& index.tensors.contains_key(weight) && index.tensors.contains_key(scale)
                &&& index.tensors[weight].dtype == DType::F8E4M3
                &&& index.tensors[weight].shape@ == seq![rows as u64, width as u64]
                &&& index.tensors[scale].dtype == DType::F8E8M0
                &&& index.tensors[scale].shape@ == seq![rows as u64, (width / 32) as u64]
            }
        }),
{
}

/// Of two tensors the one in the earlier file stands first, and within a file the one with the lower
/// offset.
pub proof fn earlier_tensors_stand_first(one: TensorInfo, other: TensorInfo)
    ensures
        one.shard < other.shard ==> stands_first(one, other) && !stands_first(other, one),
        one.shard == other.shard && one.data_offset < other.data_offset ==> stands_first(one, other)
            && !stands_first(other, one),
{
}

/// A span is hashed exactly where it begins no later than the cached tokens end and a mask has an entry
/// for each of its tokens.
pub proof fn sound_spans_are_hashed(
    state: HashView,
    start: usize,
    tokens: Seq<u32>,
    mask: Option<Seq<bool>>,
)
    ensures
        span_problem(state, start, tokens, mask) is None <==> start <= state.cache.len() && (mask
            matches Some(mask) ==> mask.len() == tokens.len()),
{
}

/// The buckets of a configuration fit exactly where there are primes for all of them and the sizes of
/// every layer add up within 64 bits.
pub proof fn buckets_fit_where_they_add_up(config: DeepseekV41Config)
    ensures
        buckets_fit(config) <==> config_buckets(config) is Some && forall|i: int|
            0 <= i < config_buckets(config)->0.len() ==> sum(
                flat(#[trigger] config_buckets(config)->0[i]),
            ) <= u64::MAX,
{
    if config_buckets(config) is Some {
        let layers = config_buckets(config)->0;
        if buckets_fit(config) {
            assert forall|i: int| 0 <= i < layers.len() implies sum(flat(#[trigger] layers[i]))
                <= u64::MAX by {
                assert(is_numbered(layers[i]));
            }
        }
    }
}

} // verus!
