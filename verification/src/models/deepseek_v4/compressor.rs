//! Incremental learned KV compression shared by main attention and the ratio-4 indexer: the
//! rolling workspace, when it emits, and how a failed token is undone.

use crate::bits::Float32;
use crate::text;
use crate::text::{join, push_decimal};
use crate::lists::copied;
use vstd::prelude::*;
use vstd::string::*;

verus! {

/// The bits of negative infinity.
pub const NEG_INFINITY: u32 = 0xff80_0000;

#[derive(Debug)]
pub enum CompressorError {
    Invalid(String),
}

impl CompressorError {
    pub open spec fn reason(self) -> Seq<char> {
        match self {
            CompressorError::Invalid(reason) => reason@,
        }
    }

    pub open spec fn text(self) -> Seq<char> {
        "invalid DeepSeek-V4 compressor: "@ + self.reason()
    }

    pub fn message(&self) -> (message: String)
        ensures
            message@ == self.text(),
    {
        match self {
            CompressorError::Invalid(reason) => join(
                "invalid DeepSeek-V4 compressor: ",
                reason.as_str(),
            ),
        }
    }
}

/// Rows and columns of a weight matrix.
#[derive(Debug, Clone, Copy, PartialEq, Eq, Structural)]
pub struct MatrixShape {
    pub rows: usize,
    pub cols: usize,
}

/// The geometry of one compressor's weights.
#[derive(Debug, Clone, Copy, PartialEq, Eq, Structural)]
pub struct CompressorWeights {
    pub ratio: usize,
    pub head_dim: usize,
    pub rope_head_dim: usize,
    pub rotate: bool,
    pub input_size: usize,
    pub norm_eps: Float32,
}

/// The projections of one token: values and scores.
#[derive(Debug)]
pub struct PreparedCompressor {
    pub kv: Vec<u32>,
    pub score: Vec<u32>,
}

/// A ratio-4 compressor pools over its own group and the one before it.
pub open spec fn overlapping(ratio: usize) -> bool {
    ratio == 4
}

/// How many positions the workspace spans.
pub open spec fn span_of(ratio: usize) -> int {
    if overlapping(ratio) {
        2 * ratio
    } else {
        ratio as int
    }
}

/// How many values the workspace keeps for each position.
pub open spec fn width_of(ratio: usize, head_dim: usize) -> int {
    if overlapping(ratio) {
        2 * head_dim
    } else {
        head_dim as int
    }
}

impl CompressorWeights {
    pub open spec fn accepts(
        ratio: usize,
        head_dim: usize,
        rope_head_dim: usize,
        ape: MatrixShape,
        wkv: MatrixShape,
        wgate: MatrixShape,
        norm_len: usize,
        norm_eps: Float32,
    ) -> bool {
        &&& ratio > 0
        &&& head_dim > 0
        &&& 0 < rope_head_dim <= head_dim
        &&& ape.rows == ratio
        &&& ape.cols == width_of(ratio, head_dim)
        &&& wkv.rows == width_of(ratio, head_dim)
        &&& wgate.rows == width_of(ratio, head_dim)
        &&& wkv.cols == wgate.cols
        &&& norm_len == head_dim
        &&& norm_eps.positive_finite()
    }

    pub fn new(
        ratio: usize,
        head_dim: usize,
        rope_head_dim: usize,
        rotate: bool,
        ape: MatrixShape,
        wkv: MatrixShape,
        wgate: MatrixShape,
        norm_len: usize,
        norm_eps: Float32,
    ) -> (result: Result<Self, CompressorError>)
        requires
            2 * head_dim <= usize::MAX,
        ensures
            match result {
                Ok(weights) => {
                    &&& Self::accepts(
                        ratio,
                        head_dim,
                        rope_head_dim,
                        ape,
                        wkv,
                        wgate,
                        norm_len,
                        norm_eps,
                    )
                    &&& weights == (CompressorWeights {
                        ratio,
                        head_dim,
                        rope_head_dim,
                        rotate,
                        input_size: wkv.cols,
                        norm_eps,
                    })
                },
                Err(error) => {
                    &&& !Self::accepts(
                        ratio,
                        head_dim,
                        rope_head_dim,
                        ape,
                        wkv,
                        wgate,
                        norm_len,
                        norm_eps,
                    )
                    &&& error.reason() == "weights do not match ratio/head/input geometry"@
                },
            },
    {
        let width: usize = if ratio == 4 {
            2 * head_dim
        } else {
            head_dim
        };
        if ratio == 0 || head_dim == 0 || rope_head_dim == 0 || rope_head_dim > head_dim || ape.rows
            != ratio || ape.cols != width || wkv.rows != width || wgate.rows != width || wkv.cols
            != wgate.cols || norm_len != head_dim || !norm_eps.is_positive_finite() {
            return Err(
                CompressorError::Invalid(
                    "weights do not match ratio/head/input geometry".to_owned(),
                ),
            );
        }
        Ok(
            CompressorWeights {
                ratio,
                head_dim,
                rope_head_dim,
                rotate,
                input_size: wkv.cols,
                norm_eps,
            },
        )
    }

    pub fn ratio(&self) -> (ratio: usize)
        ensures
            ratio == self.ratio,
    {
        self.ratio
    }

    pub fn input_size(&self) -> (size: usize)
        ensures
            size == self.input_size,
    {
        self.input_size
    }
}

/// The values of each row.
pub open spec fn rows_of(rows: Seq<Vec<u32>>) -> Seq<Seq<u32>> {
    Seq::new(rows.len(), |i: int| rows[i]@)
}

/// `count` rows that repeat one value.
pub open spec fn filled(count: int, width: int, value: u32) -> Seq<Seq<u32>> {
    Seq::new(count as nat, |i: int| Seq::new(width as nat, |j: int| value))
}

fn fill_rows(count: usize, width: usize, value: u32) -> (rows: Vec<Vec<u32>>)
    ensures
        rows_of(rows@) == filled(count as int, width as int, value),
{
    let mut rows: Vec<Vec<u32>> = Vec::new();
    let mut index: usize = 0;
    while index < count
        invariant
            index <= count,
            rows@.len() == index,
            forall|i: int| 0 <= i < index ==> (#[trigger] rows@[i])@ =~= Seq::new(width as nat, |j: int| value),
        decreases count - index,
    {
        let row: Vec<u32> = vec![value; width];
        assert(row@ =~= Seq::new(width as nat, |j: int| value));
        rows.push(row);
        index = index + 1;
    }
    assert(rows_of(rows@) =~= filled(count as int, width as int, value));
    rows
}

fn copy_rows(rows: &Vec<Vec<u32>>) -> (copy: Vec<Vec<u32>>)
    ensures
        rows_of(copy@) == rows_of(rows@),
{
    let mut copy: Vec<Vec<u32>> = Vec::new();
    let mut index: usize = 0;
    while index < rows.len()
        invariant
            index <= rows@.len(),
            copy@.len() == index,
            forall|i: int| 0 <= i < index ==> (#[trigger] copy@[i])@ == rows@[i]@,
        decreases rows@.len() - index,
    {
        copy.push(copied(rows[index].as_slice()));
        index = index + 1;
    }
    assert(rows_of(copy@) =~= rows_of(rows@));
    copy
}

/// The rolling workspace of one compressor and the entries it has emitted.
#[derive(Debug, Clone)]
pub struct CompressorState {
    ratio: usize,
    head_dim: usize,
    next_position: usize,
    kv: Vec<Vec<u32>>,
    score: Vec<Vec<u32>>,
    compressed: Vec<Vec<u32>>,
}

/// What a [`CompressorState`] holds.
pub struct CompressorView {
    pub ratio: usize,
    pub head_dim: usize,
    pub next_position: usize,
    pub kv: Seq<Seq<u32>>,
    pub score: Seq<Seq<u32>>,
    pub compressed: Seq<Seq<u32>>,
}

impl View for CompressorState {
    type V = CompressorView;

    closed spec fn view(&self) -> CompressorView {
        CompressorView {
            ratio: self.ratio,
            head_dim: self.head_dim,
            next_position: self.next_position,
            kv: rows_of(self.kv@),
            score: rows_of(self.score@),
            compressed: rows_of(self.compressed@),
        }
    }
}

/// Every row has the width of the workspace.
pub open spec fn rows_wide(rows: Seq<Seq<u32>>, width: int) -> bool {
    forall|i: int| 0 <= i < rows.len() ==> (#[trigger] rows[i]).len() == width
}

impl CompressorView {
    /// The workspace has the shape that the ratio and the head dimension give it.
    pub open spec fn well_formed(self) -> bool {
        &&& self.ratio > 0
        &&& self.head_dim > 0
        &&& span_of(self.ratio) <= usize::MAX
        &&& width_of(self.ratio, self.head_dim) <= usize::MAX
        &&& self.kv.len() == span_of(self.ratio)
        &&& self.score.len() == span_of(self.ratio)
        &&& rows_wide(self.kv, width_of(self.ratio, self.head_dim))
        &&& rows_wide(self.score, width_of(self.ratio, self.head_dim))
    }

    /// One entry has been emitted for every complete group of positions.
    pub open spec fn settled(self) -> bool {
        self.compressed.len() == self.next_position as int / self.ratio as int
    }

    /// The workspace of a compressor that has seen nothing.
    pub open spec fn fresh(ratio: usize, head_dim: usize) -> CompressorView {
        CompressorView {
            ratio,
            head_dim,
            next_position: 0,
            kv: filled(span_of(ratio), width_of(ratio, head_dim), 0),
            score: filled(span_of(ratio), width_of(ratio, head_dim), NEG_INFINITY),
            compressed: Seq::empty(),
        }
    }

    /// The row that a position writes: within its own group, which stands second where groups
    /// overlap.
    pub open spec fn slot(self, position: usize) -> int {
        let within = position as int % self.ratio as int;
        if overlapping(self.ratio) {
            self.ratio + within
        } else {
            within
        }
    }

    /// The state behind one position, before anything is emitted.
    pub open spec fn after_position(self, kv: Seq<u32>, score: Seq<u32>) -> CompressorView {
        CompressorView {
            next_position: (self.next_position + 1) as usize,
            kv: self.kv.update(self.slot(self.next_position), kv),
            score: self.score.update(self.slot(self.next_position), score),
            ..self
        }
    }

    /// The state behind an emitted entry: the current group becomes the previous one where groups
    /// overlap, and everything else is cleared.
    pub open spec fn after_emission(self, entry: Seq<u32>) -> CompressorView {
        let width = width_of(self.ratio, self.head_dim);
        let kept = if overlapping(self.ratio) {
            self.ratio as int
        } else {
            0
        };
        CompressorView {
            kv: self.kv.skip(self.kv.len() - kept) + filled(self.kv.len() - kept, width, 0),
            score: self.score.skip(self.score.len() - kept) + filled(
                self.score.len() - kept,
                width,
                NEG_INFINITY,
            ),
            compressed: self.compressed.push(entry),
            ..self
        }
    }
}

/// Transactional snapshot. Compressed history is append-only during one token, so its length is
/// enough; only the rolling workspace is copied.
#[derive(Debug)]
pub struct CompressorCheckpoint {
    next_position: usize,
    kv: Vec<Vec<u32>>,
    score: Vec<Vec<u32>>,
    compressed_len: usize,
}

/// What a [`CompressorCheckpoint`] holds.
pub struct SnapshotView {
    pub next_position: usize,
    pub kv: Seq<Seq<u32>>,
    pub score: Seq<Seq<u32>>,
    pub compressed_len: int,
}

impl View for CompressorCheckpoint {
    type V = SnapshotView;

    closed spec fn view(&self) -> SnapshotView {
        SnapshotView {
            next_position: self.next_position,
            kv: rows_of(self.kv@),
            score: rows_of(self.score@),
            compressed_len: self.compressed_len as int,
        }
    }
}

impl CompressorView {
    pub open spec fn snapshot(self) -> SnapshotView {
        SnapshotView {
            next_position: self.next_position,
            kv: self.kv,
            score: self.score,
            compressed_len: self.compressed.len() as int,
        }
    }

    /// The state that a snapshot gives back here: its workspace, and of the entries here as many
    /// as it counted.
    pub open spec fn restored(self, snapshot: SnapshotView) -> CompressorView {
        CompressorView {
            next_position: snapshot.next_position,
            kv: snapshot.kv,
            score: snapshot.score,
            compressed: if snapshot.compressed_len <= self.compressed.len() {
                self.compressed.take(snapshot.compressed_len)
            } else {
                self.compressed
            },
            ..self
        }
    }
}

pub open spec fn mismatch_message(position: usize) -> Seq<char> {
    "input/state mismatch at position "@ + text::decimal(position as nat)
}

impl CompressorState {
    pub fn new(ratio: usize, head_dim: usize) -> (result: Result<Self, CompressorError>)
        requires
            2 * ratio <= usize::MAX,
            2 * head_dim <= usize::MAX,
        ensures
            match result {
                Ok(state) => {
                    &&& ratio > 0 && head_dim > 0
                    &&& span_of(ratio) * width_of(ratio, head_dim) <= usize::MAX
                    &&& state@ == CompressorView::fresh(ratio, head_dim)
                    &&& state@.well_formed()
                    &&& state@.settled()
                },
                Err(error) => if ratio == 0 || head_dim == 0 {
                    error.reason() == "ratio and head dimension must be non-zero"@
                } else {
                    &&& span_of(ratio) * width_of(ratio, head_dim) > usize::MAX
                    &&& error.reason() == "state size overflows"@
                },
            },
    {
        if ratio == 0 || head_dim == 0 {
            return Err(
                CompressorError::Invalid("ratio and head dimension must be non-zero".to_owned()),
            );
        }
        let rows: usize = if ratio == 4 {
            2 * ratio
        } else {
            ratio
        };
        let width: usize = if ratio == 4 {
            2 * head_dim
        } else {
            head_dim
        };
        if rows.checked_mul(width).is_none() {
            return Err(CompressorError::Invalid("state size overflows".to_owned()));
        }
        let state = CompressorState {
            ratio,
            head_dim,
            next_position: 0,
            kv: fill_rows(rows, width, 0),
            score: fill_rows(rows, width, NEG_INFINITY),
            compressed: Vec::new(),
        };
        assert(state@.compressed =~= Seq::<Seq<u32>>::empty());
        Ok(state)
    }

    pub fn next_position(&self) -> (position: usize)
        ensures
            position == self@.next_position,
    {
        self.next_position
    }

    pub fn compressed(&self) -> (entries: &Vec<Vec<u32>>)
        ensures
            rows_of(entries@) == self@.compressed,
    {
        &self.compressed
    }

    /// Writes the projections of one position into the workspace. The outcome says whether the
    /// position completes a group, and if so where the group starts: then an entry is due, to be
    /// handed to [`emit`](Self::emit).
    pub fn accept(
        &mut self,
        weights: &CompressorWeights,
        prepared: PreparedCompressor,
        position: usize,
    ) -> (result: Result<Option<usize>, CompressorError>)
        requires
            old(self)@.well_formed(),
            position < usize::MAX,
        ensures
            final(self)@.well_formed(),
            match result {
                Ok(due) => {
                    &&& old(self)@.ratio == weights.ratio
                    &&& old(self)@.head_dim == weights.head_dim
                    &&& old(self)@.next_position == position
                    &&& prepared.kv@.len() == width_of(weights.ratio, weights.head_dim)
                    &&& prepared.score@.len() == width_of(weights.ratio, weights.head_dim)
                    &&& final(self)@ == old(self)@.after_position(prepared.kv@, prepared.score@)
                    &&& due == if (position + 1) % weights.ratio as int == 0 {
                        Some((position + 1 - weights.ratio) as usize)
                    } else {
                        None
                    }
                },
                Err(error) => {
                    &&& final(self)@ == old(self)@
                    &&& if old(self)@.ratio != weights.ratio || old(self)@.head_dim
                        != weights.head_dim || old(self)@.next_position != position {
                        error.reason() == mismatch_message(position)
                    } else {
                        &&& prepared.kv@.len() != width_of(weights.ratio, weights.head_dim)
                            || prepared.score@.len() != width_of(weights.ratio, weights.head_dim)
                        &&& error.reason() == "prepared projection has invalid output geometry"@
                    }
                },
            },
    {
        if self.ratio != weights.ratio || self.head_dim != weights.head_dim || self.next_position
            != position {
            let mut reason = "input/state mismatch at position ".to_owned();
            push_decimal(&mut reason, position as u64);
            return Err(CompressorError::Invalid(reason));
        }
        let ghost before = self@;
        let width: usize = if self.ratio == 4 {
            2 * self.head_dim
        } else {
            self.head_dim
        };
        let within: usize = position % self.ratio;
        let slot: usize = if self.ratio == 4 {
            self.ratio + within
        } else {
            within
        };
        let PreparedCompressor { kv, score } = prepared;
        if kv.len() != width || score.len() != width {
            return Err(
                CompressorError::Invalid(
                    "prepared projection has invalid output geometry".to_owned(),
                ),
            );
        }
        self.kv.set(slot, kv);
        self.score.set(slot, score);
        self.next_position = self.next_position + 1;
        proof {
            assert(self@.kv =~= before.kv.update(slot as int, kv@));
            assert(self@.score =~= before.score.update(slot as int, score@));
            let ratio = before.ratio as int;
            assert((position + 1) % ratio == 0 ==> position + 1 >= ratio) by (nonlinear_arith)
                requires
                    ratio > 0,
                    position + 1 > 0,
            ;
        }
        if (position + 1) % self.ratio == 0 {
            Ok(Some(position + 1 - self.ratio))
        } else {
            Ok(None)
        }
    }

    /// The rows of the workspace: the projections, and the scores that weigh them.
    pub fn workspace(&self) -> (rows: (&Vec<Vec<u32>>, &Vec<Vec<u32>>))
        ensures
            rows_of(rows.0@) == self@.kv,
            rows_of(rows.1@) == self@.score,
    {
        (&self.kv, &self.score)
    }

    /// Appends the entry of a complete group and rolls the workspace on.
    pub fn emit(&mut self, entry: Vec<u32>)
        requires
            old(self)@.well_formed(),
        ensures
            final(self)@.well_formed(),
            final(self)@ == old(self)@.after_emission(entry@),
    {
        let ghost before = self@;
        let width: usize = if self.ratio == 4 {
            2 * self.head_dim
        } else {
            self.head_dim
        };
        self.compressed.push(entry);
        proof {
            assert(self@.compressed =~= before.compressed.push(entry@));
        }
        if self.ratio == 4 {
            let mut kv: Vec<Vec<u32>> = Vec::new();
            let mut score: Vec<Vec<u32>> = Vec::new();
            let mut row: usize = 0;
            while row < self.ratio
                invariant
                    before.well_formed(),
                    before.ratio == 4,
                    self.ratio == 4,
                    rows_of(self.kv@) == before.kv,
                    rows_of(self.score@) == before.score,
                    row <= 4,
                    kv@.len() == row,
                    score@.len() == row,
                    forall|i: int| 0 <= i < row ==> (#[trigger] kv@[i])@ == before.kv[4 + i],
                    forall|i: int| 0 <= i < row ==> (#[trigger] score@[i])@ == before.score[4 + i],
                decreases 4 - row,
            {
                assert(self.kv@.len() == before.kv.len());
                assert(self.score@.len() == before.score.len());
                assert(self.kv@[4 + row]@ == before.kv[4 + row]);
                assert(self.score@[4 + row]@ == before.score[4 + row]);
                kv.push(copied(self.kv[self.ratio + row].as_slice()));
                score.push(copied(self.score[self.ratio + row].as_slice()));
                row = row + 1;
            }
            let mut blank = fill_rows(self.ratio, width, 0);
            let mut void = fill_rows(self.ratio, width, NEG_INFINITY);
            let ghost kept_kv = kv@;
            let ghost kept_score = score@;
            let ghost blanks = blank@;
            let ghost voids = void@;
            kv.append(&mut blank);
            score.append(&mut void);
            proof {
                assert(kv@ == kept_kv + blanks);
                assert(score@ == kept_score + voids);
                assert(rows_of(blanks).len() == 4);
                assert(rows_of(voids).len() == 4);
                let want_kv = before.kv.skip(4) + filled(4, width as int, 0);
                let want_score = before.score.skip(4) + filled(4, width as int, NEG_INFINITY);
                assert forall|i: int| 0 <= i < 8 implies rows_of(kv@)[i] == want_kv[i] by {
                    if i >= 4 {
                        assert(rows_of(blanks)[i - 4] == filled(4, width as int, 0)[i - 4]);
                    }
                }
                assert forall|i: int| 0 <= i < 8 implies rows_of(score@)[i] == want_score[i] by {
                    if i >= 4 {
                        assert(rows_of(voids)[i - 4] == filled(
                            4,
                            width as int,
                            NEG_INFINITY,
                        )[i - 4]);
                    }
                }
                assert(rows_of(kv@) =~= want_kv);
                assert(rows_of(score@) =~= want_score);
            }
            self.kv = kv;
            self.score = score;
        } else {
            let rows: usize = self.ratio;
            self.kv = fill_rows(rows, width, 0);
            self.score = fill_rows(rows, width, NEG_INFINITY);
            proof {
                let count = before.kv.len() as int;
                assert(before.kv.skip(count) + filled(count, width as int, 0) =~= filled(
                    count,
                    width as int,
                    0,
                ));
                assert(before.score.skip(count) + filled(count, width as int, NEG_INFINITY)
                    =~= filled(count, width as int, NEG_INFINITY));
            }
        }
    }

    /// The same state once more.
    pub fn copy(&self) -> (copy: Self)
        ensures
            copy@ == self@,
    {
        CompressorState {
            ratio: self.ratio,
            head_dim: self.head_dim,
            next_position: self.next_position,
            kv: copy_rows(&self.kv),
            score: copy_rows(&self.score),
            compressed: copy_rows(&self.compressed),
        }
    }

    pub fn checkpoint(&self) -> (checkpoint: CompressorCheckpoint)
        ensures
            checkpoint@ == self@.snapshot(),
    {
        CompressorCheckpoint {
            next_position: self.next_position,
            kv: copy_rows(&self.kv),
            score: copy_rows(&self.score),
            compressed_len: self.compressed.len(),
        }
    }

    pub fn restore(&mut self, checkpoint: CompressorCheckpoint)
        ensures
            final(self)@ == old(self)@.restored(checkpoint@),
    {
        let ghost before = self@;
        self.next_position = checkpoint.next_position;
        self.kv = checkpoint.kv;
        self.score = checkpoint.score;
        self.compressed.truncate(checkpoint.compressed_len);
        proof {
            assert(self@.compressed =~= before.restored(checkpoint@).compressed);
        }
    }

    /// How many values the state holds.
    pub fn stored_f32_elements(&self) -> (count: usize)
        requires
            stored(self@) <= usize::MAX,
        ensures
            count == stored(self@),
    {
        let ghost view = self@;
        proof {
            lemma_count_nonnegative(view.kv);
            lemma_count_nonnegative(view.score);
            lemma_count_nonnegative(view.compressed);
        }
        count_values(&self.kv) + count_values(&self.score) + count_values(&self.compressed)
    }
}

/// How many values stand in all rows.
pub open spec fn values_in(rows: Seq<Seq<u32>>) -> int
    decreases rows.len(),
{
    if rows.len() == 0 {
        0
    } else {
        values_in(rows.drop_last()) + rows.last().len()
    }
}

pub open spec fn stored(state: CompressorView) -> int {
    values_in(state.kv) + values_in(state.score) + values_in(state.compressed)
}

proof fn lemma_count_nonnegative(rows: Seq<Seq<u32>>)
    ensures
        values_in(rows) >= 0,
    decreases rows.len(),
{
    if rows.len() > 0 {
        lemma_count_nonnegative(rows.drop_last());
    }
}

pub proof fn lemma_stored_nonnegative(state: CompressorView)
    ensures
        stored(state) >= 0,
{
    lemma_count_nonnegative(state.kv);
    lemma_count_nonnegative(state.score);
    lemma_count_nonnegative(state.compressed);
}

proof fn lemma_count_grows(rows: Seq<Seq<u32>>, count: int)
    requires
        0 <= count <= rows.len(),
    ensures
        values_in(rows.take(count)) <= values_in(rows),
    decreases rows.len(),
{
    if count == rows.len() {
        assert(rows.take(count) =~= rows);
    } else {
        assert(rows.drop_last().take(count) =~= rows.take(count));
        lemma_count_grows(rows.drop_last(), count);
    }
}

fn count_values(rows: &Vec<Vec<u32>>) -> (count: usize)
    requires
        values_in(rows_of(rows@)) <= usize::MAX,
    ensures
        count == values_in(rows_of(rows@)),
{
    let ghost all = rows_of(rows@);
    let mut count: usize = 0;
    let mut index: usize = 0;
    while index < rows.len()
        invariant
            all == rows_of(rows@),
            values_in(all) <= usize::MAX,
            index <= rows@.len(),
            count == values_in(all.take(index as int)),
        decreases rows@.len() - index,
    {
        proof {
            let longer = all.take(index + 1);
            assert(longer.drop_last() =~= all.take(index as int));
            assert(longer.last() == rows@[index as int]@);
            lemma_count_grows(all, index + 1);
        }
        count = count + rows[index].len();
        index = index + 1;
    }
    assert(all.take(all.len() as int) =~= all);
    count
}

/// A snapshot undoes a token: restored behind it, whether or not the token completed a group and
/// emitted its entry, the state is what it was.
pub proof fn snapshot_undoes_a_token(
    state: CompressorView,
    kv: Seq<u32>,
    score: Seq<u32>,
    entry: Seq<u32>,
)
    ensures
        state.after_position(kv, score).restored(state.snapshot()) == state,
        state.after_position(kv, score).after_emission(entry).restored(state.snapshot()) == state,
        state.restored(state.snapshot()) == state,
{
    assert(state.after_position(kv, score).restored(state.snapshot()).compressed
        =~= state.compressed);
    assert(state.after_position(kv, score).after_emission(entry).restored(
        state.snapshot(),
    ).compressed =~= state.compressed);
}

/// Entries are emitted for complete groups only, and for every one of them: where an entry is
/// emitted exactly behind the positions that complete a group, their number is the number of
/// complete groups.
pub proof fn entries_count_complete_groups(
    state: CompressorView,
    kv: Seq<u32>,
    score: Seq<u32>,
    entry: Seq<u32>,
)
    requires
        state.well_formed(),
        state.settled(),
        state.next_position < usize::MAX,
    ensures
        ({
            let after = state.after_position(kv, score);
            if (state.next_position + 1) % state.ratio as int == 0 {
                after.after_emission(entry).settled()
            } else {
                after.settled()
            }
        }),
{
    let position = state.next_position as int;
    let ratio = state.ratio as int;
    assert(if (position + 1) % ratio == 0 {
        (position + 1) / ratio == position / ratio + 1
    } else {
        (position + 1) / ratio == position / ratio
    }) by (nonlinear_arith)
        requires
            ratio > 0,
            position >= 0,
    ;
}

/// The workspace places that are pooled into one feature: each position of the group, or, where
/// groups overlap, each of the previous group in the first half of the row and each of the
/// current one in the second.
pub open spec fn candidates(ratio: usize, head_dim: usize, feature: usize) -> Seq<(int, int)> {
    let previous = Seq::new(ratio as nat, |row: int| (row, feature as int));
    if overlapping(ratio) {
        previous + Seq::new(ratio as nat, |row: int| (ratio + row, head_dim + feature))
    } else {
        previous
    }
}

pub fn pool_candidates(ratio: usize, head_dim: usize, feature: usize) -> (list: Vec<(usize, usize)>)
    requires
        2 * ratio <= usize::MAX,
        feature < head_dim,
        2 * head_dim <= usize::MAX,
    ensures
        list@.len() == candidates(ratio, head_dim, feature).len(),
        forall|i: int|
            0 <= i < list@.len() ==> (#[trigger] list@[i]).0 == candidates(
                ratio,
                head_dim,
                feature,
            )[i].0 && list@[i].1 == candidates(ratio, head_dim, feature)[i].1,
        forall|i: int|
            0 <= i < list@.len() ==> (#[trigger] list@[i]).0 < span_of(ratio) && list@[i].1
                < width_of(ratio, head_dim),
{
    let mut list: Vec<(usize, usize)> = Vec::new();
    let mut row: usize = 0;
    while row < ratio
        invariant
            row <= ratio,
            list@.len() == row,
            forall|i: int| 0 <= i < row ==> #[trigger] list@[i] == (i as usize, feature),
        decreases ratio - row,
    {
        list.push((row, feature));
        row = row + 1;
    }
    if ratio == 4 {
        row = 0;
        while row < ratio
            invariant
                ratio == 4,
                feature < head_dim,
                2 * head_dim <= usize::MAX,
                row <= ratio,
                list@.len() == ratio + row,
                forall|i: int| 0 <= i < ratio ==> #[trigger] list@[i] == (i as usize, feature),
                forall|i: int|
                    ratio <= i < ratio + row ==> #[trigger] list@[i] == (
                        i as usize,
                        (head_dim + feature) as usize,
                    ),
            decreases ratio - row,
        {
            list.push((ratio + row, head_dim + feature));
            row = row + 1;
        }
    }
    list
}

/// A compressor behind the first `count` of some positions, before anything is emitted.
pub open spec fn fed(
    state: CompressorView,
    kv: Seq<Seq<u32>>,
    score: Seq<Seq<u32>>,
    count: nat,
) -> CompressorView
    decreases count,
{
    if count == 0 {
        state
    } else {
        fed(state, kv, score, (count - 1) as nat).after_position(kv[count - 1], score[count - 1])
    }
}

/// The positions of a group are written one behind the other: at ratio four into the second half of
/// the workspace, whose first half stays as it is; at other ratios from its beginning.
pub proof fn groups_fill_the_workspace(
    state: CompressorView,
    kv: Seq<Seq<u32>>,
    score: Seq<Seq<u32>>,
    count: nat,
)
    requires
        state.well_formed(),
        state.next_position as int % state.ratio as int == 0,
        state.next_position + state.ratio <= usize::MAX,
        count <= state.ratio,
        count <= kv.len() == score.len(),
    ensures
        ({
            let after = fed(state, kv, score, count);
            let begin = if state.ratio == 4 {
                4int
            } else {
                0
            };
            &&& after.next_position == state.next_position + count
            &&& after.compressed == state.compressed
            &&& after.ratio == state.ratio && after.head_dim == state.head_dim
            &&& after.kv.len() == begin + state.ratio && after.score.len() == begin + state.ratio
            &&& forall|i: int|
                0 <= i < begin + state.ratio ==> #[trigger] after.kv[i] == (if begin <= i < begin
                    + count {
                    kv[i - begin]
                } else {
                    state.kv[i]
                })
            &&& forall|i: int|
                0 <= i < begin + state.ratio ==> #[trigger] after.score[i] == (if begin <= i < begin
                    + count {
                    score[i - begin]
                } else {
                    state.score[i]
                })
        }),
    decreases count,
{
    if count > 0 {
        let place = (count - 1) as nat;
        groups_fill_the_workspace(state, kv, score, place);
        let before = fed(state, kv, score, place);
        let ratio = state.ratio as int;
        vstd::arithmetic::div_mod::lemma_fundamental_div_mod(state.next_position as int, ratio);
        let groups = state.next_position as int / ratio;
        assert(before.next_position == groups * ratio + place) by (nonlinear_arith)
            requires
                before.next_position == state.next_position + place,
                state.next_position == ratio * groups,
        ;
        vstd::arithmetic::div_mod::lemma_fundamental_div_mod_converse(
            before.next_position as int,
            ratio,
            groups,
            place as int,
        );
    }
}

/// At ratio four groups overlap: once the entry of a group has been emitted and the next group is
/// complete, the workspace holds the projections of both, those of the earlier group first, and the
/// second entry pools over all eight positions.
pub proof fn overlapping_groups_keep_the_previous_one(
    state: CompressorView,
    kv: Seq<Seq<u32>>,
    score: Seq<Seq<u32>>,
    entry: Seq<u32>,
)
    requires
        state.well_formed(),
        state.ratio == 4,
        state.next_position as int % 4 == 0,
        state.next_position + 8 <= usize::MAX,
        kv.len() == 8,
        score.len() == 8,
        rows_wide(kv, width_of(4, state.head_dim)),
        rows_wide(score, width_of(4, state.head_dim)),
    ensures
        ({
            let emitted = fed(state, kv.take(4), score.take(4), 4).after_emission(entry);
            let complete = fed(emitted, kv.skip(4), score.skip(4), 4);
            &&& emitted.compressed == state.compressed.push(entry)
            &&& forall|i: int| 0 <= i < 4 ==> #[trigger] emitted.kv[i] == kv[i]
            &&& forall|i: int| 0 <= i < 4 ==> #[trigger] emitted.score[i] == score[i]
            &&& complete.kv == kv
            &&& complete.score == score
            &&& complete.next_position == state.next_position + 8
        }),
{
    let (first_kv, first_score) = (kv.take(4), score.take(4));
    let (second_kv, second_score) = (kv.skip(4), score.skip(4));
    groups_fill_the_workspace(state, first_kv, first_score, 4);
    let before = fed(state, first_kv, first_score, 4);
    let emitted = before.after_emission(entry);
    assert(before.kv.len() == 8 && before.score.len() == 8);
    assert forall|i: int| 0 <= i < 4 implies #[trigger] emitted.kv[i] == kv[i] && emitted.score[i]
        == score[i] by {
        assert(before.kv[4 + i] == first_kv[i]);
        assert(before.score[4 + i] == first_score[i]);
    }
    assert forall|i: int| 0 <= i < 4 implies #[trigger] emitted.score[i] == score[i] by {
        assert(emitted.kv[i] == kv[i]);
    }
    let width = width_of(4, state.head_dim);
    assert forall|i: int| 0 <= i < 8 implies (#[trigger] emitted.kv[i]).len() == width by {
        if i < 4 {
            assert(kv[i].len() == width);
        }
    }
    assert forall|i: int| 0 <= i < 8 implies (#[trigger] emitted.score[i]).len() == width by {
        if i < 4 {
            assert(score[i].len() == width);
        }
    }
    assert(emitted.well_formed());
    groups_fill_the_workspace(emitted, second_kv, second_score, 4);
    let complete = fed(emitted, second_kv, second_score, 4);
    assert forall|i: int| 0 <= i < 8 implies complete.kv[i] == kv[i] by {
        if i < 4 {
            assert(complete.kv[i] == emitted.kv[i]);
        } else {
            assert(complete.kv[i] == second_kv[i - 4]);
        }
    }
    assert forall|i: int| 0 <= i < 8 implies complete.score[i] == score[i] by {
        if i < 4 {
            assert(complete.score[i] == emitted.score[i]);
        } else {
            assert(complete.score[i] == second_score[i - 4]);
        }
    }
    assert(complete.kv =~= kv);
    assert(complete.score =~= score);
}

/// At other ratios groups stand alone: behind the entry of a group the workspace is as it was in the
/// beginning, with zeros that have no weight.
pub proof fn other_groups_stand_alone(state: CompressorView, entry: Seq<u32>, row: int, column: int)
    requires
        state.well_formed(),
        state.ratio != 4,
        0 <= row < state.ratio,
        0 <= column < state.head_dim,
    ensures
        ({
            let emitted = state.after_emission(entry);
            &&& emitted.compressed == state.compressed.push(entry)
            &&& emitted.next_position == state.next_position
            &&& emitted.kv.len() == state.ratio && emitted.score.len() == state.ratio
            &&& emitted.kv[row].len() == state.head_dim && emitted.score[row].len()
                == state.head_dim
            &&& emitted.kv[row][column] == 0
            &&& emitted.score[row][column] == 0xff80_0000
        }),
{
}

/// A compressor that has seen nothing holds zeros without weight: of eight positions and two features
/// for each dimension at ratio four, of one group and one feature at other ratios.
pub proof fn fresh_workspaces_have_no_weight(ratio: usize, head_dim: usize, row: int, column: int)
    requires
        ratio > 0,
        0 <= row < (if ratio == 4 {
            8
        } else {
            ratio as int
        }),
        0 <= column < (if ratio == 4 {
            2 * head_dim
        } else {
            head_dim as int
        }),
    ensures
        ({
            let state = CompressorView::fresh(ratio, head_dim);
            let rows = if ratio == 4 {
                8
            } else {
                ratio as int
            };
            let width = if ratio == 4 {
                2 * head_dim
            } else {
                head_dim as int
            };
            &&& state.next_position == 0 && state.compressed.len() == 0
            &&& state.kv.len() == rows && state.score.len() == rows
            &&& state.kv[row].len() == width && state.score[row].len() == width
            &&& state.kv[row][column] == 0
            &&& state.score[row][column] == 0xff80_0000
        }),
{
}

/// What is pooled into a feature: at ratio four the feature of the four earlier positions and, in the
/// second half of the rows, of the four current ones; at other ratios that of every position.
pub proof fn features_are_pooled_over_their_positions(
    ratio: usize,
    head_dim: usize,
    feature: usize,
    i: int,
)
    requires
        0 <= i < ratio,
    ensures
        ({
            let places = candidates(ratio, head_dim, feature);
            &&& places.len() == (if ratio == 4 {
                8
            } else {
                ratio as int
            })
            &&& places[i] == (i, feature as int)
            &&& ratio == 4 ==> places[4 + i] == (4 + i, head_dim + feature)
        }),
{
}

/// Weights are taken exactly where their matrices are as wide as a row, which is that of a head, and of
/// two where groups overlap, with a position for every place of a group.
pub proof fn sound_weights_are_taken(
    ratio: usize,
    head_dim: usize,
    rope_head_dim: usize,
    ape: MatrixShape,
    wkv: MatrixShape,
    wgate: MatrixShape,
    norm_len: usize,
    norm_eps: Float32,
)
    ensures
        CompressorWeights::accepts(
            ratio,
            head_dim,
            rope_head_dim,
            ape,
            wkv,
            wgate,
            norm_len,
            norm_eps,
        ) <==> {
            let wide = if ratio == 4 {
                2 * head_dim
            } else {
                head_dim as int
            };
            &&& ratio > 0 && head_dim > 0 && 0 < rope_head_dim <= head_dim
            &&& ape.rows == ratio && ape.cols == wide
            &&& wkv.rows == wide && wgate.rows == wide && wkv.cols == wgate.cols
            &&& norm_len == head_dim && norm_eps.positive_finite()
        },
{
}

/// The values of some rows are those of each.
pub proof fn stored_values_add_up(rows: Seq<Seq<u32>>, row: Seq<u32>, state: CompressorView)
    ensures
        values_in(Seq::empty()) == 0,
        values_in(rows.push(row)) == values_in(rows) + row.len(),
        stored(state) == values_in(state.kv) + values_in(state.score) + values_in(state.compressed),
{
    assert(rows.push(row).drop_last() =~= rows);
}

} // verus!
