//! Laying out the values of several tokens for one pass over a weight matrix.

use super::experts::TokenBatch;
use super::grouping::ExpertGroup;
use super::math::is_finite;
use super::runtime::{invalid, DeepseekRuntimeError};
use super::{experts, grouping, math, runtime};
use vstd::prelude::*;
use vstd::string::*;

verus! {

/// All rows one behind the other.
pub open spec fn joined(rows: Seq<Seq<u32>>) -> Seq<u32>
    decreases rows.len(),
{
    if rows.len() == 0 {
        Seq::empty()
    } else {
        joined(rows.drop_last()) + rows.last()
    }
}

/// Every row has this width.
pub open spec fn all_wide(rows: Seq<Seq<u32>>, width: usize) -> bool {
    forall|i: int| 0 <= i < rows.len() ==> (#[trigger] rows[i]).len() == width
}

fn push_values(output: &mut Vec<u32>, row: &Vec<u32>, start: usize, end: usize)
    requires
        start <= end <= row@.len(),
    ensures
        final(output)@ == old(output)@ + row@.subrange(start as int, end as int),
{
    let ghost before = output@;
    let mut index: usize = start;
    assert(before + row@.subrange(start as int, start as int) =~= before);
    while index < end
        invariant
            before == old(output)@,
            start <= index <= end <= row@.len(),
            output@ == before + row@.subrange(start as int, index as int),
        decreases end - index,
    {
        output.push(row[index]);
        index = index + 1;
        assert(output@ =~= before + row@.subrange(start as int, index as int));
    }
}

/// Whether every row has this width.
pub fn are_wide(rows: &Vec<Vec<u32>>, width: usize) -> (result: bool)
    ensures
        result == all_wide(experts::values_of(rows@), width),
{
    let ghost values = experts::values_of(rows@);
    let mut index: usize = 0;
    while index < rows.len()
        invariant
            values == experts::values_of(rows@),
            index <= rows@.len(),
            forall|i: int| 0 <= i < index ==> (#[trigger] values[i]).len() == width,
        decreases rows@.len() - index,
    {
        assert(values[index as int] == rows@[index as int]@);
        if rows[index].len() != width {
            return false;
        }
        index = index + 1;
    }
    true
}

/// Joins the rows of a batch.
pub fn join_rows(rows: &Vec<Vec<u32>>) -> (output: Vec<u32>)
    ensures
        output@ == joined(experts::values_of(rows@)),
{
    let ghost values = experts::values_of(rows@);
    let mut output: Vec<u32> = Vec::new();
    let mut index: usize = 0;
    assert(values.take(0) =~= Seq::<Seq<u32>>::empty());
    while index < rows.len()
        invariant
            values == experts::values_of(rows@),
            index <= rows@.len(),
            output@ == joined(values.take(index as int)),
        decreases rows@.len() - index,
    {
        let row = &rows[index];
        push_values(&mut output, row, 0, row.len());
        proof {
            assert(row@.subrange(0, row@.len() as int) =~= row@);
            assert(values.take(index + 1).drop_last() =~= values.take(index as int));
            assert(values.take(index + 1).last() == row@);
        }
        index = index + 1;
    }
    assert(values.take(values.len() as int) =~= values);
    output
}

/// Why the rows of a batch cannot be projected together.
pub open spec fn rows_problem(rows: Seq<Seq<u32>>, width: usize, reason: Seq<char>) -> Option<
    runtime::RuntimeProblem,
> {
    runtime::invalid_if(rows.len() == 0 || !all_wide(rows, width), reason)
}

fn join_checked(rows: &Vec<Vec<u32>>, width: usize, reason: &str) -> (result: Result<
    Vec<u32>,
    DeepseekRuntimeError,
>)
    ensures
        runtime::problem(result) == rows_problem(experts::values_of(rows@), width, reason@),
        result is Ok ==> result->Ok_0@ == joined(experts::values_of(rows@)),
{
    if rows.len() == 0 || !are_wide(rows, width) {
        return invalid(reason);
    }
    Ok(join_rows(rows))
}

/// Lays out the inputs of the attention projections.
pub fn attention_inputs(rows: &Vec<Vec<u32>>, hidden_size: usize) -> (result: Result<
    Vec<u32>,
    DeepseekRuntimeError,
>)
    ensures
        runtime::problem(result) == rows_problem(
            experts::values_of(rows@),
            hidden_size,
            "attention projection batch has invalid input geometry"@,
        ),
        result is Ok ==> result->Ok_0@ == joined(experts::values_of(rows@)),
{
    join_checked(rows, hidden_size, "attention projection batch has invalid input geometry")
}

/// Lays out the low-rank rows for the output projection.
pub fn output_inputs(rows: &Vec<Vec<u32>>, width: usize) -> (result: Result<
    Vec<u32>,
    DeepseekRuntimeError,
>)
    ensures
        runtime::problem(result) == rows_problem(
            experts::values_of(rows@),
            width,
            "attention output batch has invalid low-rank geometry"@,
        ),
        result is Ok ==> result->Ok_0@ == joined(experts::values_of(rows@)),
{
    join_checked(rows, width, "attention output batch has invalid low-rank geometry")
}

/// Lays out the inputs of an indexer: those of the layer and the low-rank queries.
pub fn indexer_inputs(
    inputs: &Vec<Vec<u32>>,
    queries: &Vec<Vec<u32>>,
    hidden_size: usize,
    q_lora_rank: usize,
) -> (result: Result<(Vec<u32>, Vec<u32>), DeepseekRuntimeError>)
    ensures
        runtime::problem(result) == runtime::invalid_if(
            inputs@.len() == 0 || inputs@.len() != queries@.len() || !all_wide(
                experts::values_of(inputs@),
                hidden_size,
            ) || !all_wide(experts::values_of(queries@), q_lora_rank),
            "indexer projection batch has invalid input geometry"@,
        ),
        result is Ok ==> result->Ok_0.0@ == joined(experts::values_of(inputs@))
            && result->Ok_0.1@ == joined(experts::values_of(queries@)),
{
    if inputs.len() == 0 || inputs.len() != queries.len() || !are_wide(inputs, hidden_size)
        || !are_wide(queries, q_lora_rank) {
        return invalid("indexer projection batch has invalid input geometry");
    }
    Ok((join_rows(inputs), join_rows(queries)))
}

/// Refuses a prompt batch whose hidden states and tokens do not match.
pub fn check_prefill_batch(inputs: usize, tokens: usize) -> (result: Result<
    (),
    DeepseekRuntimeError,
>)
    ensures
        runtime::problem(result) == runtime::invalid_if(
            inputs == 0 || inputs != tokens,
            "layer prefill batch has invalid token geometry"@,
        ),
{
    if inputs == 0 || inputs != tokens {
        return invalid("layer prefill batch has invalid token geometry");
    }
    Ok(())
}

/// The part of every row that belongs to a group of heads.
pub open spec fn group_slices(rows: Seq<Seq<u32>>, group: int, width: int) -> Seq<Seq<u32>> {
    Seq::new(rows.len(), |i: int| rows[i].subrange(group * width, group * width + width))
}

/// Lays out one group of heads of every token for the grouped output projection.
pub fn group_inputs(
    rows: &Vec<Vec<u32>>,
    heads: usize,
    head_dim: usize,
    groups: usize,
    group: usize,
) -> (result: Result<Vec<u32>, DeepseekRuntimeError>)
    requires
        heads * head_dim <= usize::MAX,
        group < groups,
    ensures
        runtime::problem(result) == rows_problem(
            experts::values_of(rows@),
            (heads * head_dim) as usize,
            "attention output batch has invalid head geometry"@,
        ),
        result is Ok ==> result->Ok_0@ == joined(
            group_slices(
                experts::values_of(rows@),
                group as int,
                (heads as int / groups as int) * head_dim,
            ),
        ),
{
    let width: usize = heads * head_dim;
    if rows.len() == 0 || !are_wide(rows, width) {
        return invalid("attention output batch has invalid head geometry");
    }
    let per_group: usize = heads / groups;
    proof {
        lemma_group_within(heads as int, head_dim as int, groups as int, group as int);
    }
    let group_width: usize = per_group * head_dim;
    let start: usize = group * group_width;
    let ghost values = experts::values_of(rows@);
    let ghost slices = group_slices(values, group as int, group_width as int);
    let mut output: Vec<u32> = Vec::new();
    let mut index: usize = 0;
    assert(slices.take(0) =~= Seq::<Seq<u32>>::empty());
    while index < rows.len()
        invariant
            values == experts::values_of(rows@),
            all_wide(values, width),
            slices == group_slices(values, group as int, group_width as int),
            start == group * group_width,
            start + group_width <= width,
            index <= rows@.len(),
            output@ == joined(slices.take(index as int)),
        decreases rows@.len() - index,
    {
        let row = &rows[index];
        assert(values[index as int] == row@);
        push_values(&mut output, row, start, start + group_width);
        proof {
            assert(slices.take(index + 1).drop_last() =~= slices.take(index as int));
            assert(slices.take(index + 1).last() == row@.subrange(
                start as int,
                start + group_width,
            ));
        }
        index = index + 1;
    }
    assert(slices.take(slices.len() as int) =~= slices);
    Ok(output)
}

proof fn lemma_group_within(heads: int, head_dim: int, groups: int, group: int)
    requires
        0 <= heads,
        0 <= head_dim,
        0 <= group < groups,
    ensures
        0 <= (heads / groups) * head_dim <= heads * head_dim,
        0 <= group * ((heads / groups) * head_dim),
        group * ((heads / groups) * head_dim) + (heads / groups) * head_dim <= heads * head_dim,
{
    let per = heads / groups;
    vstd::arithmetic::div_mod::lemma_fundamental_div_mod(heads, groups);
    vstd::arithmetic::div_mod::lemma_mod_bound(heads, groups);
    assert(0 <= per) by (nonlinear_arith)
        requires
            heads == groups * per + heads % groups,
            0 <= heads % groups < groups,
            heads >= 0,
            groups > 0,
    ;
    assert((group + 1) * per <= heads) by (nonlinear_arith)
        requires
            0 <= group,
            group + 1 <= groups,
            0 <= per,
            heads == groups * per + heads % groups,
            0 <= heads % groups,
    ;
    assert((group + 1) * per * head_dim <= heads * head_dim) by (nonlinear_arith)
        requires
            (group + 1) * per <= heads,
            0 <= head_dim,
    ;
    assert(group * (per * head_dim) + per * head_dim == (group + 1) * per * head_dim)
        by (nonlinear_arith);
    assert(0 <= per * head_dim) by (nonlinear_arith)
        requires
            0 <= per,
            0 <= head_dim,
    ;
    assert(0 <= group * (per * head_dim)) by (nonlinear_arith)
        requires
            0 <= group,
            0 <= per * head_dim,
    ;
}

/// The rows that the places of a group ask for.
pub open spec fn rows_at(rows: Seq<Seq<u32>>, positions: Seq<(usize, usize)>) -> Seq<Seq<u32>> {
    Seq::new(positions.len(), |k: int| rows[positions[k].0 as int])
}

/// The route weights at the places of a group.
pub open spec fn weights_at(weights: Seq<Seq<u32>>, positions: Seq<(usize, usize)>) -> Seq<u32> {
    Seq::new(positions.len(), |k: int| weights[positions[k].0 as int][positions[k].1 as int])
}

/// Every place of a group lies in the batch.
pub open spec fn places_within(batch: TokenBatch, positions: Seq<(usize, usize)>) -> bool {
    forall|k: int|
        0 <= k < positions.len() ==> (#[trigger] positions[k]).0 < batch.inputs@.len()
            && positions[k].0 < batch.mx_inputs@.len() && positions[k].0
            < batch.route_weights@.len() && positions[k].1
            < batch.route_weights@[positions[k].0 as int]@.len()
}

/// What an expert computes on, for all places of its group.
#[derive(Debug)]
pub struct GroupInput {
    pub input: Vec<u32>,
    pub mx_input: Vec<u32>,
    pub route_weights: Vec<u32>,
}

fn join_at(rows: &Vec<Vec<u32>>, positions: &Vec<(usize, usize)>) -> (output: Vec<u32>)
    requires
        forall|k: int|
            0 <= k < positions@.len() ==> (#[trigger] positions@[k]).0 < rows@.len(),
    ensures
        output@ == joined(rows_at(experts::values_of(rows@), positions@)),
{
    let ghost wanted = rows_at(experts::values_of(rows@), positions@);
    let mut output: Vec<u32> = Vec::new();
    let mut index: usize = 0;
    assert(wanted.take(0) =~= Seq::<Seq<u32>>::empty());
    while index < positions.len()
        invariant
            forall|k: int|
                0 <= k < positions@.len() ==> (#[trigger] positions@[k]).0 < rows@.len(),
            wanted == rows_at(experts::values_of(rows@), positions@),
            index <= positions@.len(),
            output@ == joined(wanted.take(index as int)),
        decreases positions@.len() - index,
    {
        let (token, _) = positions[index];
        let row = &rows[token];
        push_values(&mut output, row, 0, row.len());
        proof {
            assert(row@.subrange(0, row@.len() as int) =~= row@);
            assert(wanted.take(index + 1).drop_last() =~= wanted.take(index as int));
            assert(wanted.take(index + 1).last() == row@);
        }
        index = index + 1;
    }
    assert(wanted.take(wanted.len() as int) =~= wanted);
    output
}

/// Gathers what an expert computes on.
pub fn gather_group(batch: &TokenBatch, group: &ExpertGroup) -> (gathered: GroupInput)
    requires
        places_within(*batch, group.positions@),
    ensures
        gathered.input@ == joined(rows_at(experts::values_of(batch.inputs@), group.positions@)),
        gathered.mx_input@ == joined(
            rows_at(experts::values_of(batch.mx_inputs@), group.positions@),
        ),
        gathered.route_weights@ == weights_at(
            experts::values_of(batch.route_weights@),
            group.positions@,
        ),
{
    let positions = &group.positions;
    let input = join_at(&batch.inputs, positions);
    let mx_input = join_at(&batch.mx_inputs, positions);
    let ghost wanted = weights_at(experts::values_of(batch.route_weights@), positions@);
    let mut route_weights: Vec<u32> = Vec::new();
    let mut index: usize = 0;
    while index < positions.len()
        invariant
            positions@ == group.positions@,
            places_within(*batch, group.positions@),
            wanted == weights_at(experts::values_of(batch.route_weights@), positions@),
            index <= positions@.len(),
            route_weights@ == wanted.take(index as int),
        decreases positions@.len() - index,
    {
        let (token, route) = positions[index];
        assert(positions@[index as int] == (token, route));
        route_weights.push(batch.route_weights[token][route]);
        index = index + 1;
        assert(route_weights@ =~= wanted.take(index as int));
    }
    assert(wanted.take(wanted.len() as int) =~= wanted);
    GroupInput { input, mx_input, route_weights }
}

/// The places of every group of a sound batch lie in it.
pub proof fn sound_batches_gather(
    batch: TokenBatch,
    store: experts::StoreView,
    layer: usize,
    order: Seq<usize>,
    g: int,
)
    requires
        batch.sound(store, layer),
        batch.expert_ids@.len() <= usize::MAX,
        forall|t: int|
            0 <= t < batch.ids().len() ==> (#[trigger] batch.ids()[t]).len() <= usize::MAX,
        order.no_duplicates(),
        forall|value: usize| #[trigger] batch.uses().contains(value) ==> order.contains(value),
        0 <= g < order.len(),
    ensures
        places_within(
            batch,
            grouping::grouped(grouping::all_accesses(batch.ids()), order)[g].positions,
        ),
{
    let ids = batch.ids();
    let groups = grouping::grouped(grouping::all_accesses(ids), order);
    assert forall|value: usize| #[trigger] grouping::experts_used(
        grouping::all_accesses(ids),
    ).contains(value) implies order.contains(value) by {
        assert(batch.uses().contains(value));
    }
    grouping::groups_partition_the_routes(ids, order);
    let positions = groups[g].positions;
    assert forall|k: int| 0 <= k < positions.len() implies (#[trigger] positions[k]).0
        < batch.inputs@.len() && positions[k].0 < batch.mx_inputs@.len() && positions[k].0
        < batch.route_weights@.len() && positions[k].1
        < batch.route_weights@[positions[k].0 as int]@.len() by {
        let place = groups[g].positions[k];
        assert(place == positions[k]);
        assert(ids[place.0 as int].len() == experts::values_of(
            batch.route_weights@,
        )[place.0 as int].len());
    }
}

/// A weight that an expert's activation can be scaled by: finite and not negative.
pub open spec fn weight_ok(bits: u32) -> bool {
    math::finite(bits) && (bits < 0x8000_0000 || bits == 0x8000_0000)
}

/// Why an expert cannot run a batch of this shape.
pub open spec fn expert_batch_problem(
    batch: usize,
    input: nat,
    mx_input: nat,
    columns: usize,
    weights: Option<nat>,
) -> Option<runtime::RuntimeProblem> {
    runtime::invalid_if(
        batch == 0 || input != (if batch * columns > usize::MAX {
            usize::MAX as int
        } else {
            batch * columns
        }) || mx_input != input || (weights is Some && weights->Some_0 != batch),
        "expert batch has invalid input or route-weight geometry"@,
    )
}

/// Refuses a batch of another shape than an expert takes.
pub fn check_expert_batch(
    batch: usize,
    input: usize,
    mx_input: usize,
    columns: usize,
    weights: Option<usize>,
) -> (result: Result<(), DeepseekRuntimeError>)
    ensures
        runtime::problem(result) == expert_batch_problem(
            batch,
            input as nat,
            mx_input as nat,
            columns,
            match weights {
                Some(count) => Some(count as nat),
                None => None,
            },
        ),
{
    let expected: usize = match batch.checked_mul(columns) {
        Some(product) => product,
        None => usize::MAX,
    };
    let misweighted = match weights {
        Some(count) => count != batch,
        None => false,
    };
    if batch == 0 || input != expected || mx_input != input || misweighted {
        return invalid("expert batch has invalid input or route-weight geometry");
    }
    Ok(())
}

/// Refuses a route weight that is not finite or negative.
pub fn check_route_weight(bits: u32) -> (result: Result<(), DeepseekRuntimeError>)
    ensures
        runtime::problem(result) == runtime::invalid_if(
            !weight_ok(bits),
            "routed expert weight must be finite and non-negative"@,
        ),
{
    if !is_finite(bits) || bits > 0x8000_0000 {
        return invalid("routed expert weight must be finite and non-negative");
    }
    Ok(())
}

/// A row, this many times.
pub open spec fn repeated(row: Seq<u32>, count: nat) -> Seq<Seq<u32>> {
    Seq::new(count, |i: int| row)
}

/// The hidden state that a token starts with: its embedding for every residual stream.
pub fn start_hidden(embedding: &Vec<u32>, streams: usize) -> (hidden: Vec<u32>)
    ensures
        hidden@ == joined(repeated(embedding@, streams as nat)),
{
    let mut hidden: Vec<u32> = Vec::new();
    let mut index: usize = 0;
    let ghost wanted = repeated(embedding@, streams as nat);
    assert(wanted.take(0) =~= Seq::<Seq<u32>>::empty());
    while index < streams
        invariant
            wanted == repeated(embedding@, streams as nat),
            index <= streams,
            hidden@ == joined(wanted.take(index as int)),
        decreases streams - index,
    {
        push_values(&mut hidden, embedding, 0, embedding.len());
        proof {
            assert(embedding@.subrange(0, embedding@.len() as int) =~= embedding@);
            assert(wanted.take(index + 1).drop_last() =~= wanted.take(index as int));
        }
        index = index + 1;
    }
    assert(wanted.take(wanted.len() as int) =~= wanted);
    hidden
}

/// Rows of one width lie one behind the other, each value in the column that it had.
pub proof fn joined_rows_lie_one_behind_the_other(
    rows: Seq<Seq<u32>>,
    width: usize,
    row: int,
    column: int,
)
    requires
        all_wide(rows, width),
        0 <= row < rows.len(),
        0 <= column < width,
    ensures
        joined(rows).len() == rows.len() * width,
        joined(rows)[row * width + column] == rows[row][column],
    decreases rows.len(),
{
    let front = rows.drop_last();
    let last = front.len() as int;
    lemma_joined_length(rows, width);
    lemma_joined_length(front, width);
    assert forall|i: int| 0 <= i < front.len() implies (#[trigger] front[i]).len() == width by {
        assert(rows[i].len() == width);
    }
    assert(rows[last].len() == width);
    if row < last {
        joined_rows_lie_one_behind_the_other(front, width, row, column);
        assert(row * width + column < last * width) by (nonlinear_arith)
            requires
                row + 1 <= last,
                0 <= column < width,
        ;
        assert(0 <= row * width) by (nonlinear_arith)
            requires
                0 <= row,
        ;
        assert(front[row] == rows[row]);
    } else {
        assert(row == last);
        assert(joined(front).len() == last * width);
    }
}

proof fn lemma_joined_length(rows: Seq<Seq<u32>>, width: usize)
    requires
        all_wide(rows, width),
    ensures
        joined(rows).len() == rows.len() * width,
    decreases rows.len(),
{
    if rows.len() > 0 {
        let front = rows.drop_last();
        assert forall|i: int| 0 <= i < front.len() implies (#[trigger] front[i]).len() == width by {
            assert(rows[i].len() == width);
        }
        lemma_joined_length(front, width);
        assert(rows[rows.len() - 1].len() == width);
        assert((rows.len() - 1) * width + width == rows.len() * width) by (nonlinear_arith);
    }
}

/// What is gathered for a group of heads is, row by row, the columns of that group.
pub proof fn groups_of_heads_are_cut_out(
    rows: Seq<Seq<u32>>,
    group: int,
    width: usize,
    row: int,
    column: int,
)
    requires
        0 <= group,
        forall|i: int| 0 <= i < rows.len() ==> group * width + width <= (#[trigger] rows[i]).len(),
        0 <= row < rows.len(),
        0 <= column < width,
    ensures
        joined(group_slices(rows, group, width as int)).len() == rows.len() * width,
        joined(group_slices(rows, group, width as int))[row * width + column] == rows[row][group
            * width + column],
{
    assert(0 <= group * width) by (nonlinear_arith)
        requires
            0 <= group,
    ;
    let slices = group_slices(rows, group, width as int);
    assert forall|i: int| 0 <= i < slices.len() implies (#[trigger] slices[i]).len() == width by {
        assert(group * width + width <= rows[i].len());
    }
    joined_rows_lie_one_behind_the_other(slices, width, row, column);
    assert(group * width + width <= rows[row].len());
}

/// An expert is handed the rows of the tokens that chose it, in the order of its places, and with each
/// the weight of its route.
pub proof fn experts_are_handed_their_tokens(
    rows: Seq<Seq<u32>>,
    weights: Seq<Seq<u32>>,
    positions: Seq<(usize, usize)>,
    width: usize,
    k: int,
    column: int,
)
    requires
        all_wide(rows, width),
        forall|i: int| 0 <= i < positions.len() ==> (#[trigger] positions[i]).0 < rows.len(),
        0 <= k < positions.len(),
        0 <= column < width,
    ensures
        joined(rows_at(rows, positions)).len() == positions.len() * width,
        joined(rows_at(rows, positions))[k * width + column]
            == rows[positions[k].0 as int][column],
        weights_at(weights, positions).len() == positions.len(),
        weights_at(weights, positions)[k]
            == weights[positions[k].0 as int][positions[k].1 as int],
{
    let taken = rows_at(rows, positions);
    assert forall|i: int| 0 <= i < taken.len() implies (#[trigger] taken[i]).len() == width by {
        assert(positions[i].0 < rows.len());
        assert(rows[positions[i].0 as int].len() == width);
    }
    joined_rows_lie_one_behind_the_other(taken, width, k, column);
}

/// Every stream starts with the embedding.
pub proof fn streams_start_with_the_embedding(
    embedding: Seq<u32>,
    streams: nat,
    stream: int,
    column: int,
)
    requires
        embedding.len() <= usize::MAX,
        0 <= stream < streams,
        0 <= column < embedding.len(),
    ensures
        joined(repeated(embedding, streams)).len() == streams * embedding.len(),
        joined(repeated(embedding, streams))[stream * embedding.len() + column]
            == embedding[column],
{
    joined_rows_lie_one_behind_the_other(
        repeated(embedding, streams),
        embedding.len() as usize,
        stream,
        column,
    );
}

/// A route's weight is a number that is not below zero; a batch holds some tokens, a row of the right
/// width for each in both forms, and a weight for each where it has weights.
pub proof fn sound_batches_are_taken(
    bits: u32,
    batch: usize,
    input: nat,
    mx_input: nat,
    columns: usize,
    weights: Option<nat>,
)
    requires
        batch * columns <= usize::MAX,
    ensures
        weight_ok(bits) <==> bits < 0x7f80_0000 || bits == 0x8000_0000,
        expert_batch_problem(batch, input, mx_input, columns, weights) is None <==> batch > 0
            && input == batch * columns && mx_input == batch * columns && (weights is None
            || weights == Some(batch as nat)),
{
}

} // verus!
