//! Incremental learned compression of DeepSeek-V4.1: the unfinished group that a layer carries from
//! token to token.
//!
//! Groups do not overlap. Pooling a complete group is floating-point work of the caller.

use crate::models::deepseek_v4::math;
use crate::models::deepseek_v4::math::are_finite;
use crate::text;
use crate::text::push_decimal;
use crate::lists::copied;
use vstd::prelude::*;
use vstd::string::*;

verus! {

/// The bits of negative infinity.
pub const NEG_INFINITY: u32 = 0xff80_0000;

#[derive(Debug, Clone, PartialEq)]
pub enum CompressorError {
    Invalid(String),
}

impl CompressorError {
    pub open spec fn reason(self) -> Seq<char> {
        match self {
            CompressorError::Invalid(reason) => reason@,
        }
    }

    pub open spec fn text(self) -> Seq<char> {
        "invalid DeepSeek-V4.1 compressor state: "@ + self.reason()
    }

    pub fn message(&self) -> (text: String)
        ensures
            text@ == self.text(),
    {
        match self {
            CompressorError::Invalid(reason) => {
                let mut text = "invalid DeepSeek-V4.1 compressor state: ".to_owned();
                text.append(reason.as_str());
                text
            },
        }
    }
}

pub open spec fn problem<T>(result: Result<T, CompressorError>) -> Option<Seq<char>> {
    match result {
        Ok(_) => None,
        Err(error) => Some(error.reason()),
    }
}

fn invalid<T>(reason: &str) -> (result: Result<T, CompressorError>)
    ensures
        problem(result) == Some(reason@),
{
    Err(CompressorError::Invalid(reason.to_owned()))
}

/// Carries only the unfinished compression group across prefill/decode boundaries.
#[derive(Debug, Clone)]
pub struct CompressorState {
    ratio: usize,
    width: usize,
    next_position: usize,
    values: Vec<u32>,
    scores: Vec<u32>,
}

/// What a [`CompressorState`] holds. Values and scores stand row by row.
#[verifier::ext_equal]
pub struct GroupState {
    pub ratio: usize,
    pub width: usize,
    pub next_position: usize,
    pub values: Seq<u32>,
    pub scores: Seq<u32>,
}

impl View for CompressorState {
    type V = GroupState;

    closed spec fn view(&self) -> GroupState {
        GroupState {
            ratio: self.ratio,
            width: self.width,
            next_position: self.next_position,
            values: self.values@,
            scores: self.scores@,
        }
    }
}

/// What one token comes to.
#[derive(Debug)]
pub enum Pushed {
    /// The row is emitted as it is.
    Row(Vec<u32>),
    /// The group is not complete.
    Pending,
    /// The group is complete: its rows and scores are to be pooled.
    Pool { values: Vec<u32>, scores: Vec<u32> },
}

/// The same, over plain values.
pub enum PushedView {
    Row(Seq<u32>),
    Pending,
    Pool { values: Seq<u32>, scores: Seq<u32> },
}

impl View for Pushed {
    type V = PushedView;

    open spec fn view(&self) -> PushedView {
        match self {
            Pushed::Row(row) => PushedView::Row(row@),
            Pushed::Pending => PushedView::Pending,
            Pushed::Pool { values, scores } => PushedView::Pool {
                values: values@,
                scores: scores@,
            },
        }
    }
}

/// A list with a row written at `start`.
pub open spec fn written(list: Seq<u32>, start: int, row: Seq<u32>) -> Seq<u32> {
    Seq::new(
        list.len(),
        |i: int|
            if start <= i < start + row.len() {
                row[i - start]
            } else {
                list[i]
            },
    )
}

pub open spec fn filled(count: nat, value: u32) -> Seq<u32> {
    Seq::new(count, |i: int| value)
}

impl GroupState {
    pub open spec fn well_formed(self) -> bool {
        &&& self.ratio > 0
        &&& self.width > 0
        &&& self.ratio * self.width <= usize::MAX
        &&& self.values.len() == self.ratio * self.width
        &&& self.scores.len() == self.ratio * self.width
    }

    /// The state that has seen nothing.
    pub open spec fn fresh(ratio: usize, width: usize) -> GroupState {
        GroupState {
            ratio,
            width,
            next_position: 0,
            values: filled((ratio * width) as nat, 0),
            scores: filled((ratio * width) as nat, NEG_INFINITY),
        }
    }

    /// How many tokens the unfinished group holds.
    pub open spec fn pending(self) -> int {
        self.next_position as int % self.ratio as int
    }

    /// Why a token is refused.
    pub open spec fn push_problem(
        self,
        position: usize,
        projected: Seq<u32>,
        gate_scores: Option<Seq<u32>>,
    ) -> Option<Seq<char>> {
        if position != self.next_position || projected.len() != self.width || !math::all_finite(
            projected,
        ) {
            Some(
                "expected position "@ + text::decimal(self.next_position as nat) + " and "@
                    + text::decimal(self.width as nat) + " finite projected values"@,
            )
        } else if self.ratio == 1 {
            if gate_scores is Some {
                Some("ratio-one compression must not use wgate"@)
            } else {
                None
            }
        } else {
            match gate_scores {
                None => Some("pooled compression requires wgate scores"@),
                Some(scores) => if scores.len() != self.width || !math::all_finite(scores) {
                    Some(
                        "wgate must contain "@ + text::decimal(self.width as nat)
                            + " finite values"@,
                    )
                } else {
                    None
                },
            }
        }
    }

    /// The state with the rows of the next token written into its group.
    pub open spec fn with_token(self, projected: Seq<u32>, scores: Seq<u32>) -> GroupState {
        let start = self.pending() * self.width;
        GroupState {
            next_position: (self.next_position + 1) as usize,
            values: written(self.values, start, projected),
            scores: written(self.scores, start, scores),
            ..self
        }
    }

    /// The state with its group cleared.
    pub open spec fn cleared(self) -> GroupState {
        GroupState {
            values: filled(self.values.len(), 0),
            scores: filled(self.scores.len(), NEG_INFINITY),
            ..self
        }
    }

    /// The state behind a token, and what the token comes to.
    pub open spec fn after_token(self, projected: Seq<u32>, gate_scores: Option<Seq<u32>>) -> (
        GroupState,
        PushedView,
    ) {
        if self.ratio == 1 {
            (
                GroupState { next_position: (self.next_position + 1) as usize, ..self },
                PushedView::Row(projected),
            )
        } else {
            let next = self.with_token(projected, gate_scores->Some_0);
            if next.pending() != 0 {
                (next, PushedView::Pending)
            } else {
                (
                    next.cleared(),
                    PushedView::Pool { values: next.values, scores: next.scores },
                )
            }
        }
    }
}

/// A group is emitted exactly behind its last token, and then nothing of it is carried on.
pub proof fn groups_are_emitted_whole(
    state: GroupState,
    projected: Seq<u32>,
    gate_scores: Option<Seq<u32>>,
)
    requires
        state.well_formed(),
        state.next_position < usize::MAX,
    ensures
        ({
            let (next, outcome) = state.after_token(projected, gate_scores);
            &&& outcome is Pending <==> (state.next_position + 1) % state.ratio as int != 0
            &&& outcome is Pool ==> next.values == filled(state.values.len(), 0) && next.scores
                == filled(state.scores.len(), NEG_INFINITY)
        }),
{
    if state.ratio == 1 {
        assert((state.next_position + 1) % 1 == 0);
    }
}

/// Each token of a group writes rows of its own: a later token of the group leaves them as they are.
pub proof fn tokens_of_a_group_stand_apart(
    state: GroupState,
    projected: Seq<u32>,
    scores: Seq<u32>,
    row: int,
    column: int,
)
    requires
        state.well_formed(),
        projected.len() == state.width,
        scores.len() == state.width,
        0 <= row < state.ratio,
        0 <= column < state.width,
    ensures
        ({
            let next = state.with_token(projected, scores);
            let at = row * state.width + column;
            &&& row == state.pending() ==> next.values[at] == projected[column]
                && next.scores[at] == scores[column]
            &&& row != state.pending() ==> next.values[at] == state.values[at] && next.scores[at]
                == state.scores[at]
        }),
{
    let slot = state.pending();
    let width = state.width as int;
    let at = row * width + column;
    assert(0 <= at < state.ratio * width) by (nonlinear_arith)
        requires
            0 <= row < state.ratio,
            0 <= column < width,
            at == row * width + column,
    ;
    if row < slot {
        assert(at < slot * width) by (nonlinear_arith)
            requires
                row < slot,
                column < width,
                at == row * width + column,
                width > 0,
        ;
    } else if row > slot {
        assert(at >= slot * width + width) by (nonlinear_arith)
            requires
                row > slot,
                column >= 0,
                at == row * width + column,
                width > 0,
        ;
    }
}

fn write_row(list: &mut Vec<u32>, start: usize, row: &[u32])
    requires
        start + row@.len() <= old(list)@.len(),
    ensures
        final(list)@ == written(old(list)@, start as int, row@),
{
    let ghost before = list@;
    let count: usize = row.len();
    let total: usize = list.len();
    let mut index: usize = 0;
    while index < count
        invariant
            before == old(list)@,
            total == before.len(),
            count == row@.len(),
            start + count <= before.len(),
            index <= count,
            list@.len() == before.len(),
            forall|i: int|
                0 <= i < before.len() ==> #[trigger] list@[i] == if start <= i < start + index {
                    row@[i - start]
                } else {
                    before[i]
                },
        decreases count - index,
    {
        list.set(start + index, row[index]);
        index = index + 1;
    }
    assert(list@ =~= written(before, start as int, row@));
}

fn fill_values(count: usize, value: u32) -> (list: Vec<u32>)
    ensures
        list@ == filled(count as nat, value),
{
    let list = vec![value; count];
    assert(list@ =~= filled(count as nat, value));
    list
}

pub open spec fn gate_view(gate_scores: Option<&[u32]>) -> Option<Seq<u32>> {
    match gate_scores {
        Some(scores) => Some(scores@),
        None => None,
    }
}

/// Why there is no state of this geometry.
pub open spec fn fresh_problem(ratio: usize, width: usize) -> Option<Seq<char>> {
    if ratio == 0 || width == 0 {
        Some("ratio and width must be non-zero"@)
    } else if ratio * width > usize::MAX {
        Some("state geometry overflows"@)
    } else {
        None
    }
}

impl CompressorState {
    pub open spec fn well_formed(&self) -> bool {
        self@.well_formed()
    }

    pub fn new(ratio: usize, width: usize) -> (result: Result<Self, CompressorError>)
        ensures
            problem(result) == fresh_problem(ratio, width),
            result is Ok ==> result->Ok_0.well_formed() && result->Ok_0@ == GroupState::fresh(
                ratio,
                width,
            ),
    {
        if ratio == 0 || width == 0 {
            return invalid("ratio and width must be non-zero");
        }
        let elements: usize = match ratio.checked_mul(width) {
            Some(elements) => elements,
            None => {
                return invalid("state geometry overflows");
            },
        };
        Ok(
            CompressorState {
                ratio,
                width,
                next_position: 0,
                values: fill_values(elements, 0),
                scores: fill_values(elements, NEG_INFINITY),
            },
        )
    }

    /// Accepts the projections of one token. Where the ratio is one there is no gate, and the
    /// projected row is emitted at once.
    pub fn push(&mut self, position: usize, projected: &[u32], gate_scores: Option<&[u32]>) -> (
        result: Result<Pushed, CompressorError>)
        requires
            old(self).well_formed(),
            position < usize::MAX,
        ensures
            final(self).well_formed(),
            problem(result) == old(self)@.push_problem(
                position,
                projected@,
                gate_view(gate_scores),
            ),
            match result {
                Ok(outcome) => old(self)@.after_token(projected@, gate_view(gate_scores)) == (
                    final(self)@,
                    outcome@,
                ),
                Err(_) => final(self)@ == old(self)@,
            },
    {
        if position != self.next_position || projected.len() != self.width || !are_finite(
            projected,
        ) {
            let mut reason = "expected position ".to_owned();
            push_decimal(&mut reason, self.next_position as u64);
            reason.append(" and ");
            push_decimal(&mut reason, self.width as u64);
            reason.append(" finite projected values");
            return Err(CompressorError::Invalid(reason));
        }
        if self.ratio == 1 {
            if gate_scores.is_some() {
                return invalid("ratio-one compression must not use wgate");
            }
            self.next_position = self.next_position + 1;
            return Ok(Pushed::Row(copied(projected)));
        }
        let scores = match gate_scores {
            Some(scores) => scores,
            None => {
                return invalid("pooled compression requires wgate scores");
            },
        };
        if scores.len() != self.width || !are_finite(scores) {
            let mut reason = "wgate must contain ".to_owned();
            push_decimal(&mut reason, self.width as u64);
            reason.append(" finite values");
            return Err(CompressorError::Invalid(reason));
        }
        let slot: usize = position % self.ratio;
        assert(slot * self.width + self.width <= self.ratio * self.width) by (nonlinear_arith)
            requires
                slot < self.ratio,
                0 < self.width,
        ;
        assert(0 <= slot * self.width) by (nonlinear_arith)
            requires
                0 <= slot,
                0 < self.width,
        ;
        let start: usize = slot * self.width;
        write_row(&mut self.values, start, projected);
        write_row(&mut self.scores, start, scores);
        self.next_position = self.next_position + 1;
        if self.next_position % self.ratio != 0 {
            return Ok(Pushed::Pending);
        }
        let elements = self.values.len();
        let mut values = fill_values(elements, 0);
        let mut cleared = fill_values(elements, NEG_INFINITY);
        values.append(&mut self.values);
        let pooled = values.split_off(elements);
        proof {
            assert(pooled@ =~= old(self)@.with_token(projected@, scores@).values);
            assert(values@ =~= filled(elements as nat, 0));
        }
        self.values = values;
        cleared.append(&mut self.scores);
        let pooled_scores = cleared.split_off(elements);
        proof {
            assert(pooled_scores@ =~= old(self)@.with_token(projected@, scores@).scores);
            assert(cleared@ =~= filled(elements as nat, NEG_INFINITY));
        }
        self.scores = cleared;
        Ok(Pushed::Pool { values: pooled, scores: pooled_scores })
    }

    pub fn next_position(&self) -> (position: usize)
        ensures
            position == self@.next_position,
    {
        self.next_position
    }

    /// How many tokens the unfinished group holds.
    pub fn pending_tokens(&self) -> (count: usize)
        requires
            self.well_formed(),
        ensures
            count == self@.pending(),
    {
        self.next_position % self.ratio
    }

    /// How many bytes the state takes.
    pub fn state_bytes(&self) -> (bytes: usize)
        requires
            (self@.values.len() + self@.scores.len()) * 4 <= usize::MAX,
        ensures
            bytes == (self@.values.len() + self@.scores.len()) * 4,
    {
        (self.values.len() + self.scores.len()) * 4
    }

    /// The same state once more.
    pub fn copy(&self) -> (copy: Self)
        ensures
            copy@ == self@,
    {
        CompressorState {
            ratio: self.ratio,
            width: self.width,
            next_position: self.next_position,
            values: copied(self.values.as_slice()),
            scores: copied(self.scores.as_slice()),
        }
    }
}

/// A compressor behind the first `count` of some tokens.
pub open spec fn passed(
    state: GroupState,
    rows: Seq<Seq<u32>>,
    scores: Seq<Seq<u32>>,
    count: nat,
) -> GroupState
    decreases count,
{
    if count == 0 {
        state
    } else {
        passed(state, rows, scores, (count - 1) as nat).after_token(
            rows[count - 1],
            Some(scores[count - 1]),
        ).0
    }
}

proof fn lemma_passed(
    state: GroupState,
    rows: Seq<Seq<u32>>,
    scores: Seq<Seq<u32>>,
    count: nat,
    row: int,
    column: int,
)
    requires
        state.well_formed(),
        state.ratio > 1,
        state.next_position as int % state.ratio as int == 0,
        state.next_position + state.ratio <= usize::MAX,
        rows.len() == state.ratio == scores.len(),
        forall|i: int| 0 <= i < state.ratio ==> (#[trigger] rows[i]).len() == state.width,
        forall|i: int| 0 <= i < state.ratio ==> (#[trigger] scores[i]).len() == state.width,
        count < state.ratio,
        0 <= row < count,
        0 <= column < state.width,
    ensures
        ({
            let after = passed(state, rows, scores, count);
            let at = row * state.width + column;
            &&& after.well_formed()
            &&& after.ratio == state.ratio && after.width == state.width
            &&& after.next_position == state.next_position + count
            &&& after.pending() == count
            &&& after.values[at] == rows[row][column]
            &&& after.scores[at] == scores[row][column]
        }),
    decreases count,
{
    let place = (count - 1) as nat;
    let before = passed(state, rows, scores, place);
    if place > 0 {
        lemma_passed(state, rows, scores, place, if row < place { row } else { 0 }, column);
    } else {
        vstd::arithmetic::div_mod::lemma_small_mod(0, state.ratio as nat);
    }
    let ratio = state.ratio as int;
    vstd::arithmetic::div_mod::lemma_fundamental_div_mod(state.next_position as int, ratio);
    let groups = state.next_position as int / ratio;
    assert(state.next_position + count == groups * ratio + count) by (nonlinear_arith)
        requires
            state.next_position == ratio * groups,
    ;
    vstd::arithmetic::div_mod::lemma_fundamental_div_mod_converse(
        state.next_position + count,
        ratio,
        groups,
        count as int,
    );
    assert(rows[place as int].len() == state.width && scores[place as int].len() == state.width);
    tokens_of_a_group_stand_apart(before, rows[place as int], scores[place as int], row, column);
    let next = before.with_token(rows[place as int], scores[place as int]);
    assert(next.pending() == count);
    assert(passed(state, rows, scores, count) == next);
}

/// A group of tokens is pooled whole: behind its last token, and behind no other, its rows and scores
/// come out in the order of its tokens, each row as it was projected. What is carried on holds
/// nothing of them.
pub proof fn a_group_is_pooled_in_order(
    state: GroupState,
    rows: Seq<Seq<u32>>,
    scores: Seq<Seq<u32>>,
    row: int,
    column: int,
    early: nat,
)
    requires
        state.well_formed(),
        state.ratio > 1,
        state.next_position as int % state.ratio as int == 0,
        state.next_position + state.ratio <= usize::MAX,
        rows.len() == state.ratio == scores.len(),
        forall|i: int| 0 <= i < state.ratio ==> (#[trigger] rows[i]).len() == state.width,
        forall|i: int| 0 <= i < state.ratio ==> (#[trigger] scores[i]).len() == state.width,
        0 <= row < state.ratio,
        0 <= column < state.width,
        early + 1 < state.ratio,
    ensures
        passed(state, rows, scores, early).after_token(
            rows[early as int],
            Some(scores[early as int]),
        ).1 is Pending,
        ({
            let last = state.ratio - 1;
            let before = passed(state, rows, scores, last as nat);
            let (next, outcome) = before.after_token(rows[last], Some(scores[last]));
            let at = row * state.width + column;
            &&& outcome matches PushedView::Pool { values, scores: weights } && values.len()
                == state.ratio * state.width && weights.len() == state.ratio * state.width
                && values[at] == rows[row][column] && weights[at] == scores[row][column]
            &&& next.next_position == state.next_position + state.ratio
            &&& next.values.len() == state.ratio * state.width && next.values[at] == 0
            &&& next.scores.len() == state.ratio * state.width && next.scores[at] == 0xff80_0000
        }),
{
    let ratio = state.ratio as int;
    let last = ratio - 1;
    let before = passed(state, rows, scores, last as nat);
    lemma_passed(state, rows, scores, last as nat, if row < last { row } else { 0 }, column);
    assert(rows[last].len() == state.width && scores[last].len() == state.width);
    tokens_of_a_group_stand_apart(before, rows[last], scores[last], row, column);
    groups_are_emitted_whole(before, rows[last], Some(scores[last]));
    vstd::arithmetic::div_mod::lemma_fundamental_div_mod(state.next_position as int, ratio);
    let groups = state.next_position as int / ratio;
    assert(state.next_position + ratio == (groups + 1) * ratio + 0) by (nonlinear_arith)
        requires
            state.next_position == ratio * groups,
    ;
    vstd::arithmetic::div_mod::lemma_fundamental_div_mod_converse(
        state.next_position + ratio,
        ratio,
        groups + 1,
        0,
    );
    assert(0 <= row * state.width + column < ratio * state.width) by (nonlinear_arith)
        requires
            0 <= row < ratio,
            0 <= column < state.width,
    ;
    let some = passed(state, rows, scores, early);
    if early > 0 {
        lemma_passed(state, rows, scores, early, 0, column);
    }
    groups_are_emitted_whole(some, rows[early as int], Some(scores[early as int]));
    assert(state.next_position + early + 1 == groups * ratio + (early + 1)) by (nonlinear_arith)
        requires
            state.next_position == ratio * groups,
    ;
    vstd::arithmetic::div_mod::lemma_fundamental_div_mod_converse(
        state.next_position + early + 1,
        ratio,
        groups,
        (early + 1) as int,
    );
}

/// At ratio one every token is emitted as it was projected, and nothing but the position is carried
/// on.
pub proof fn single_tokens_come_out_as_they_are(
    state: GroupState,
    projected: Seq<u32>,
    gate_scores: Option<Seq<u32>>,
)
    requires
        state.ratio == 1,
        state.next_position < usize::MAX,
    ensures
        ({
            let (next, outcome) = state.after_token(projected, gate_scores);
            &&& outcome matches PushedView::Row(row) && row == projected
            &&& next.next_position == state.next_position + 1
            &&& next.values == state.values && next.scores == state.scores
        }),
{
}

/// A token is taken exactly at the next position, with a number for every column, and with scores in
/// the same way exactly where groups are pooled.
pub proof fn sound_tokens_are_taken(
    state: GroupState,
    position: usize,
    projected: Seq<u32>,
    gate_scores: Option<Seq<u32>>,
)
    ensures
        state.push_problem(position, projected, gate_scores) is None <==> {
            &&& position == state.next_position
            &&& projected.len() == state.width && math::all_finite(projected)
            &&& state.ratio == 1 <==> gate_scores is None
            &&& gate_scores matches Some(scores) ==> scores.len() == state.width && math::all_finite(
                scores,
            )
        },
{
}

/// A fresh workspace holds zeros that no pooling would weigh.
pub proof fn fresh_workspaces_have_no_weight(ratio: usize, width: usize, i: int)
    requires
        0 <= i < ratio * width,
    ensures
        ({
            let fresh = GroupState::fresh(ratio, width);
            &&& fresh.next_position == 0
            &&& fresh.values.len() == ratio * width && fresh.scores.len() == ratio * width
            &&& fresh.values[i] == 0 && fresh.scores[i] == 0xff80_0000
        }),
{
}

} // verus!
