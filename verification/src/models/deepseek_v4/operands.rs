//! What the float kernels of DeepSeek-V4 and V4.1 ask of their operands before they compute.
//!
//! Operands come as bits where their values are looked at, and as lengths where they are not.

use super::math;
use super::math::{are_finite, validate_positive, DeepseekMathError};
use crate::bits::Float32;
use vstd::prelude::*;
use vstd::string::*;

verus! {

pub open spec fn shape_if(broken: bool, reason: Seq<char>) -> Option<math::MathProblem> {
    if broken {
        Some(math::MathProblem::Shape(reason))
    } else {
        None
    }
}

pub open spec fn first(
    earlier: Option<math::MathProblem>,
    later: Option<math::MathProblem>,
) -> Option<math::MathProblem> {
    if earlier is Some {
        earlier
    } else {
        later
    }
}

fn shape<T>(reason: &str) -> (result: Result<T, DeepseekMathError>)
    ensures
        math::problem(result) == Some(math::MathProblem::Shape(reason@)),
{
    Err(DeepseekMathError::Shape(reason.to_owned()))
}

/// A product that stops at the largest size.
pub open spec fn capped_product(a: usize, b: usize) -> int {
    if a * b > usize::MAX {
        usize::MAX as int
    } else {
        a * b
    }
}

fn multiply_capped(a: usize, b: usize) -> (product: usize)
    ensures
        product == capped_product(a, b),
{
    match a.checked_mul(b) {
        Some(product) => product,
        None => usize::MAX,
    }
}

/// Refuses a vector that does not fall into chunks of `chunk_size`.
pub fn check_unit_rms_norm(length: usize, chunk_size: usize, eps: Float32) -> (result: Result<
    (),
    DeepseekMathError,
>)
    ensures
        math::problem(result) == first(
            shape_if(
                length == 0 || chunk_size == 0 || length % chunk_size != 0,
                "unit RMSNorm chunks do not cover the input"@,
            ),
            math::positive_problem("RMSNorm epsilon"@, eps),
        ),
{
    if length == 0 || chunk_size == 0 || length % chunk_size != 0 {
        return shape("unit RMSNorm chunks do not cover the input");
    }
    validate_positive("RMSNorm epsilon", eps)
}

/// Some selected row is not there.
pub open spec fn selects_beyond(selected: Seq<usize>, rows: nat) -> bool {
    exists|i: int| 0 <= i < selected.len() && #[trigger] selected[i] >= rows
}

/// Some row is not of this width.
pub open spec fn differs_in_width(widths: Seq<usize>, width: usize) -> bool {
    exists|i: int| 0 <= i < widths.len() && #[trigger] widths[i] != width
}

/// What both sparse attention kernels refuse.
pub open spec fn attention_is_broken(
    queries: usize,
    head_count: usize,
    head_dim: usize,
    row_widths: Seq<usize>,
    selected: Seq<usize>,
    sinks: usize,
) -> bool {
    ||| head_count == 0
    ||| head_dim == 0
    ||| queries != head_count * head_dim
    ||| sinks != head_count
    ||| selected.len() == 0
    ||| selects_beyond(selected, row_widths.len())
    ||| differs_in_width(row_widths, head_dim)
}

fn is_attention_broken(
    queries: usize,
    head_count: usize,
    head_dim: usize,
    row_widths: &Vec<usize>,
    selected: &Vec<usize>,
    sinks: usize,
) -> (broken: bool)
    requires
        head_count * head_dim <= usize::MAX,
    ensures
        broken == attention_is_broken(
            queries,
            head_count,
            head_dim,
            row_widths@,
            selected@,
            sinks,
        ),
{
    if head_count == 0 || head_dim == 0 || queries != head_count * head_dim || sinks != head_count
        || selected.len() == 0 {
        return true;
    }
    let count: usize = row_widths.len();
    let mut i: usize = 0;
    while i < selected.len()
        invariant
            count == row_widths@.len(),
            i <= selected@.len(),
            forall|k: int| 0 <= k < i ==> #[trigger] selected@[k] < row_widths@.len(),
        decreases selected@.len() - i,
    {
        if selected[i] >= count {
            assert(selected@[i as int] >= row_widths@.len());
            return true;
        }
        i = i + 1;
    }
    let mut j: usize = 0;
    while j < count
        invariant
            count == row_widths@.len(),
            j <= count,
            forall|k: int| 0 <= k < j ==> #[trigger] row_widths@[k] == head_dim,
        decreases count - j,
    {
        if row_widths[j] != head_dim {
            assert(row_widths@[j as int] != head_dim);
            return true;
        }
        j = j + 1;
    }
    false
}

/// Refuses operands of the sparse attention with a learned sink.
pub fn check_sparse_attention_with_sink(
    queries: usize,
    head_count: usize,
    head_dim: usize,
    row_widths: &Vec<usize>,
    selected: &Vec<usize>,
    sinks: usize,
    softmax_scale: Float32,
) -> (result: Result<(), DeepseekMathError>)
    requires
        head_count * head_dim <= usize::MAX,
    ensures
        math::problem(result) == shape_if(
            attention_is_broken(queries, head_count, head_dim, row_widths@, selected@, sinks)
                || !softmax_scale.positive_finite(),
            "sparse attention geometry or selected indices are invalid"@,
        ),
{
    if is_attention_broken(queries, head_count, head_dim, row_widths, selected, sinks)
        || !softmax_scale.is_positive_finite() {
        return shape("sparse attention geometry or selected indices are invalid");
    }
    Ok(())
}

/// Refuses operands of the sparse attention of DeepSeek-V4.1.
pub fn check_sparse_attention(
    queries: usize,
    head_count: usize,
    head_dim: usize,
    row_widths: &Vec<usize>,
    selected: &Vec<usize>,
    sinks: usize,
) -> (result: Result<(), DeepseekMathError>)
    requires
        head_count * head_dim <= usize::MAX,
    ensures
        math::problem(result) == shape_if(
            attention_is_broken(queries, head_count, head_dim, row_widths@, selected@, sinks),
            "V4.1 sparse attention geometry is invalid"@,
        ),
{
    if is_attention_broken(queries, head_count, head_dim, row_widths, selected, sinks) {
        return shape("V4.1 sparse attention geometry is invalid");
    }
    Ok(())
}

/// The shapes of a hyper-connection predictor.
#[derive(Debug, Clone, Copy, PartialEq, Eq, Structural)]
pub struct PredictorShape {
    pub function_rows: usize,
    pub function_cols: usize,
    pub scale: usize,
    pub base: usize,
}

/// Why a hyper-connection cannot collapse these streams.
pub open spec fn hyper_connection_problem(
    hidden: Seq<u32>,
    hidden_size: usize,
    hc_mult: usize,
    function_rows: usize,
    function_cols: usize,
    scale: Seq<u32>,
    base: Seq<u32>,
    sinkhorn_iters: usize,
    norm_eps: Float32,
    sinkhorn_eps: Float32,
) -> Option<math::MathProblem> {
    let width = hidden_size * hc_mult;
    let mixes = (2 + hc_mult) * hc_mult;
    first(
        shape_if(width > usize::MAX, "HC width overflows"@),
        first(
            shape_if(mixes > usize::MAX, "HC mix count overflows"@),
            first(
                shape_if(
                    hidden.len() != width || function_rows != mixes || function_cols != width
                        || scale.len() != 3 || base.len() != mixes || hc_mult == 0 || hidden_size
                        == 0 || sinkhorn_iters == 0,
                    "hidden/function/base/scale do not match HC geometry"@,
                ),
                first(
                    math::positive_problem("norm_eps"@, norm_eps),
                    first(
                        math::positive_problem("sinkhorn_eps"@, sinkhorn_eps),
                        if math::all_finite(hidden) && math::all_finite(scale) && math::all_finite(
                            base,
                        ) {
                            None
                        } else {
                            Some(math::MathProblem::NonFinite)
                        },
                    ),
                ),
            ),
        ),
    )
}

/// Refuses operands of the hyper-connection before a sublayer.
pub fn check_hyper_connection_pre(
    hidden: &[u32],
    hidden_size: usize,
    hc_mult: usize,
    function_rows: usize,
    function_cols: usize,
    scale: &[u32],
    base: &[u32],
    sinkhorn_iters: usize,
    norm_eps: Float32,
    sinkhorn_eps: Float32,
) -> (result: Result<(), DeepseekMathError>)
    requires
        hc_mult + 2 <= usize::MAX,
    ensures
        math::problem(result) == hyper_connection_problem(
            hidden@,
            hidden_size,
            hc_mult,
            function_rows,
            function_cols,
            scale@,
            base@,
            sinkhorn_iters,
            norm_eps,
            sinkhorn_eps,
        ),
{
    let width: usize = match hidden_size.checked_mul(hc_mult) {
        Some(width) => width,
        None => {
            return shape("HC width overflows");
        },
    };
    let mixes: usize = match (2 + hc_mult).checked_mul(hc_mult) {
        Some(mixes) => mixes,
        None => {
            return shape("HC mix count overflows");
        },
    };
    if hidden.len() != width || function_rows != mixes || function_cols != width || scale.len()
        != 3 || base.len() != mixes || hc_mult == 0 || hidden_size == 0 || sinkhorn_iters == 0 {
        return shape("hidden/function/base/scale do not match HC geometry");
    }
    validate_positive("norm_eps", norm_eps)?;
    validate_positive("sinkhorn_eps", sinkhorn_eps)?;
    if !are_finite(hidden) || !are_finite(scale) || !are_finite(base) {
        return Err(DeepseekMathError::NonFinite);
    }
    Ok(())
}

/// The lengths of the coefficients of one sublayer.
#[derive(Debug, Clone, Copy, PartialEq, Eq, Structural)]
pub struct MixShape {
    pub pre: usize,
    pub post: usize,
    pub combination: usize,
}

pub open spec fn post_is_broken(
    branch: usize,
    residual: usize,
    hidden_size: usize,
    mix: MixShape,
) -> bool {
    ||| branch != hidden_size
    ||| mix.post != mix.pre
    ||| mix.combination != mix.pre * mix.pre
    ||| residual != mix.pre * hidden_size
}

fn is_post_broken(branch: usize, residual: usize, hidden_size: usize, mix: MixShape) -> (broken:
    bool)
    requires
        mix.pre * mix.pre <= usize::MAX,
        mix.pre * hidden_size <= usize::MAX,
    ensures
        broken == post_is_broken(branch, residual, hidden_size, mix),
{
    branch != hidden_size || mix.post != mix.pre || mix.combination != mix.pre * mix.pre || residual
        != mix.pre * hidden_size
}

/// Refuses operands of the hyper-connection behind a sublayer.
pub fn check_hyper_connection_post(
    branch: usize,
    residual: usize,
    hidden_size: usize,
    mix: MixShape,
) -> (result: Result<(), DeepseekMathError>)
    requires
        mix.pre * mix.pre <= usize::MAX,
        mix.pre * hidden_size <= usize::MAX,
    ensures
        math::problem(result) == shape_if(
            post_is_broken(branch, residual, hidden_size, mix),
            "branch/residual/mix do not match HC geometry"@,
        ),
{
    if is_post_broken(branch, residual, hidden_size, mix) {
        return shape("branch/residual/mix do not match HC geometry");
    }
    Ok(())
}

/// Refuses operands of the hyper-connection of DeepSeek-V4.1 behind a sublayer.
pub fn check_post_bf16(branch: usize, residual: usize, hidden_size: usize, mix: MixShape) -> (
result: Result<(), DeepseekMathError>)
    requires
        mix.pre * mix.pre <= usize::MAX,
        mix.pre * hidden_size <= usize::MAX,
    ensures
        math::problem(result) == shape_if(
            post_is_broken(branch, residual, hidden_size, mix),
            "V4.1 branch/residual/mix do not match HC geometry"@,
        ),
{
    if is_post_broken(branch, residual, hidden_size, mix) {
        return shape("V4.1 branch/residual/mix do not match HC geometry");
    }
    Ok(())
}

/// Refuses operands of the reduction in front of the vocabulary projection.
pub fn check_hyper_connection_head(
    hidden: usize,
    hidden_size: usize,
    hc_mult: usize,
    function_rows: usize,
    function_cols: usize,
    base: usize,
    norm_eps: Float32,
    hc_eps: Float32,
) -> (result: Result<(), DeepseekMathError>)
    requires
        hidden_size * hc_mult <= usize::MAX,
    ensures
        math::problem(result) == first(
            shape_if(
                hidden != hidden_size * hc_mult || function_rows != hc_mult || function_cols
                    != hidden_size * hc_mult || base != hc_mult,
                "head reduction does not match HC geometry"@,
            ),
            first(
                math::positive_problem("norm_eps"@, norm_eps),
                math::positive_problem("hc_eps"@, hc_eps),
            ),
        ),
{
    let width: usize = hidden_size * hc_mult;
    if hidden != width || function_rows != hc_mult || function_cols != width || base != hc_mult {
        return shape("head reduction does not match HC geometry");
    }
    validate_positive("norm_eps", norm_eps)?;
    validate_positive("hc_eps", hc_eps)
}

/// Refuses operands of the bounded SwiGLU before the first value is written.
pub fn check_bounded_swiglu(gate: &[u32], up: &[u32], limit: Float32) -> (result: Result<
    (),
    DeepseekMathError,
>)
    ensures
        math::problem(result) == first(
            shape_if(
                gate@.len() != up@.len(),
                "gate and up activations have different lengths"@,
            ),
            first(
                math::positive_problem("SwiGLU limit"@, limit),
                if math::all_finite(gate@) && math::all_finite(up@) {
                    None
                } else {
                    Some(math::MathProblem::NonFinite)
                },
            ),
        ),
{
    if gate.len() != up.len() {
        return shape("gate and up activations have different lengths");
    }
    validate_positive("SwiGLU limit", limit)?;
    if !are_finite(gate) || !are_finite(up) {
        return Err(DeepseekMathError::NonFinite);
    }
    Ok(())
}

/// Refuses operands of the paired rotation before the first value is written.
pub fn check_paired_rope(values: &[u32], base: Float32, factor: Float32) -> (result: Result<
    (),
    DeepseekMathError,
>)
    ensures
        math::problem(result) == first(
            shape_if(
                values@.len() == 0 || values@.len() % 2 != 0,
                "paired RoPE needs a non-empty even-width vector"@,
            ),
            first(
                math::positive_problem("RoPE base"@, base),
                first(
                    math::positive_problem("RoPE factor"@, factor),
                    if math::all_finite(values@) {
                        None
                    } else {
                        Some(math::MathProblem::NonFinite)
                    },
                ),
            ),
        ),
{
    if values.len() == 0 || values.len() % 2 != 0 {
        return shape("paired RoPE needs a non-empty even-width vector");
    }
    validate_positive("RoPE base", base)?;
    validate_positive("RoPE factor", factor)?;
    if !are_finite(values) {
        return Err(DeepseekMathError::NonFinite);
    }
    Ok(())
}

/// Refuses operands of the final collapse of DeepSeek-V4.1.
pub fn check_collapse_bf16(hidden: usize, pre_mix: usize, hidden_size: usize) -> (result: Result<
    (),
    DeepseekMathError,
>)
    ensures
        math::problem(result) == shape_if(
            pre_mix == 0 || hidden != capped_product(pre_mix, hidden_size),
            "V4.1 final mHC collapse geometry is invalid"@,
        ),
{
    if pre_mix == 0 || hidden != multiply_capped(pre_mix, hidden_size) {
        return shape("V4.1 final mHC collapse geometry is invalid");
    }
    Ok(())
}

/// Refuses operands of the Engram injection.
pub fn check_engram_inject(
    hidden: usize,
    key_value: usize,
    q_weight: usize,
    k_weight: usize,
    hidden_size: usize,
    hc_mult: usize,
    norm_eps: Float32,
) -> (result: Result<(), DeepseekMathError>)
    requires
        hc_mult < usize::MAX,
    ensures
        math::problem(result) == shape_if(
            hidden != capped_product(hidden_size, hc_mult) || key_value != capped_product(
                hidden_size,
                (hc_mult + 1) as usize,
            ) || q_weight != hidden || k_weight != hidden || !norm_eps.positive_finite(),
            "Engram hidden/key/value/gate geometry is invalid"@,
        ),
{
    if hidden != multiply_capped(hidden_size, hc_mult) || key_value != multiply_capped(
        hidden_size,
        hc_mult + 1,
    ) || q_weight != hidden || k_weight != hidden || !norm_eps.is_positive_finite() {
        return shape("Engram hidden/key/value/gate geometry is invalid");
    }
    Ok(())
}

/// Why the Single-Pass hyper-connection cannot run on these operands.
pub open spec fn single_pass_problem(
    hidden: usize,
    incoming_pre: Seq<u32>,
    hidden_size: usize,
    hc_mult: usize,
    predictor: PredictorShape,
    sinkhorn_iters: usize,
    norm_eps: Float32,
    sinkhorn_eps: Float32,
) -> Option<math::MathProblem> {
    let mixes = (2 + hc_mult) * hc_mult;
    first(
        shape_if(
            incoming_pre.len() != hc_mult || !math::all_finite(incoming_pre) || hidden
                != capped_product(hidden_size, hc_mult),
            "incoming pre-mix or hidden state does not match Single-Pass mHC geometry"@,
        ),
        shape_if(
            predictor.function_rows != mixes || predictor.function_cols != hidden
                || predictor.scale != 3 || predictor.base != mixes || sinkhorn_iters == 0
                || !norm_eps.positive_finite() || !sinkhorn_eps.positive_finite(),
            "Single-Pass mHC predictor geometry is invalid"@,
        ),
    )
}

/// Refuses operands of the Single-Pass hyper-connection.
pub fn check_single_pass(
    hidden: usize,
    incoming_pre: &[u32],
    hidden_size: usize,
    hc_mult: usize,
    predictor: PredictorShape,
    sinkhorn_iters: usize,
    norm_eps: Float32,
    sinkhorn_eps: Float32,
) -> (result: Result<(), DeepseekMathError>)
    requires
        incoming_pre@.len() == hc_mult && math::all_finite(incoming_pre@) && hidden
            == capped_product(hidden_size, hc_mult) ==> (2 + hc_mult) * hc_mult <= usize::MAX,
    ensures
        math::problem(result) == single_pass_problem(
            hidden,
            incoming_pre@,
            hidden_size,
            hc_mult,
            predictor,
            sinkhorn_iters,
            norm_eps,
            sinkhorn_eps,
        ),
{
    if incoming_pre.len() != hc_mult || !are_finite(incoming_pre) || hidden != multiply_capped(
        hidden_size,
        hc_mult,
    ) {
        return shape("incoming pre-mix or hidden state does not match Single-Pass mHC geometry");
    }
    proof {
        assert(hc_mult > 0 ==> 2 + hc_mult <= (2 + hc_mult) * hc_mult) by (nonlinear_arith);
    }
    let mixes: usize = (2 + hc_mult) * hc_mult;
    if predictor.function_rows != mixes || predictor.function_cols != hidden || predictor.scale
        != 3 || predictor.base != mixes || sinkhorn_iters == 0 || !norm_eps.is_positive_finite()
        || !sinkhorn_eps.is_positive_finite() {
        return shape("Single-Pass mHC predictor geometry is invalid");
    }
    Ok(())
}

/// The bits of one.
pub const ONE: u32 = 0x3f80_0000;

/// The mix that the first sublayer takes in: all of the first stream and nothing of the others.
pub fn identity_pre_mix(hc_mult: usize) -> (result: Result<Vec<u32>, DeepseekMathError>)
    ensures
        math::problem(result) == shape_if(
            hc_mult == 0,
            "Single-Pass mHC needs at least one residual stream"@,
        ),
        result matches Ok(mix) ==> mix@ == Seq::new(
            hc_mult as nat,
            |i: int|
                if i == 0 {
                    ONE
                } else {
                    0
                },
        ),
{
    if hc_mult == 0 {
        return shape("Single-Pass mHC needs at least one residual stream");
    }
    let mut mix: Vec<u32> = vec![0u32; hc_mult];
    mix.set(0, ONE);
    assert(mix@ =~= Seq::new(
        hc_mult as nat,
        |i: int|
            if i == 0 {
                ONE
            } else {
                0
            },
    ));
    Ok(mix)
}

/// Sparse attention can be computed exactly where the queries and sinks are those of all heads, at
/// least one row is selected, every selected row is there and all rows are as wide as a head.
pub proof fn sound_attention_is_computed(
    queries: usize,
    head_count: usize,
    head_dim: usize,
    row_widths: Seq<usize>,
    selected: Seq<usize>,
    sinks: usize,
)
    ensures
        !attention_is_broken(queries, head_count, head_dim, row_widths, selected, sinks) <==> {
            &&& head_count > 0 && head_dim > 0
            &&& queries == head_count * head_dim
            &&& sinks == head_count
            &&& selected.len() > 0
            &&& forall|i: int| 0 <= i < selected.len() ==> #[trigger] selected[i] < row_widths.len()
            &&& forall|i: int| 0 <= i < row_widths.len() ==> #[trigger] row_widths[i] == head_dim
        },
{
}

/// A hyper-connection is computed exactly where its hidden values cover all streams, its function, its
/// three scales and its base predict a weight in and out of every stream and between any two of them,
/// and all values are numbers.
pub proof fn sound_hyper_connections_are_computed(
    hidden: Seq<u32>,
    hidden_size: usize,
    hc_mult: usize,
    function_rows: usize,
    function_cols: usize,
    scale: Seq<u32>,
    base: Seq<u32>,
    sinkhorn_iters: usize,
    norm_eps: Float32,
    sinkhorn_eps: Float32,
)
    requires
        hidden.len() <= usize::MAX,
        base.len() <= usize::MAX,
    ensures
        hyper_connection_problem(
            hidden,
            hidden_size,
            hc_mult,
            function_rows,
            function_cols,
            scale,
            base,
            sinkhorn_iters,
            norm_eps,
            sinkhorn_eps,
        ) is None <==> {
            &&& hidden_size > 0 && hc_mult > 0 && sinkhorn_iters > 0
            &&& hidden.len() == hidden_size * hc_mult
            &&& function_cols == hidden_size * hc_mult
            &&& function_rows == (2 + hc_mult) * hc_mult
            &&& base.len() == (2 + hc_mult) * hc_mult
            &&& scale.len() == 3
            &&& norm_eps.positive_finite() && sinkhorn_eps.positive_finite()
            &&& math::all_finite(hidden) && math::all_finite(scale) && math::all_finite(base)
        },
{
}

/// A branch is mixed back exactly where it is as wide as a stream, there is a weight out for every
/// weight in and one between any two streams, and the residual covers all streams.
pub proof fn sound_branches_are_mixed_back(
    branch: usize,
    residual: usize,
    hidden_size: usize,
    mix: MixShape,
)
    ensures
        !post_is_broken(branch, residual, hidden_size, mix) <==> branch == hidden_size && mix.post
            == mix.pre && mix.combination == mix.pre * mix.pre && residual == mix.pre * hidden_size,
{
}

/// A single pass is computed exactly where the incoming weights are numbers, one for every stream, the
/// hidden values cover all streams and the predictor has the shape of a hyper-connection.
pub proof fn sound_single_passes_are_computed(
    hidden: usize,
    incoming_pre: Seq<u32>,
    hidden_size: usize,
    hc_mult: usize,
    predictor: PredictorShape,
    sinkhorn_iters: usize,
    norm_eps: Float32,
    sinkhorn_eps: Float32,
)
    requires
        hidden_size * hc_mult <= usize::MAX,
    ensures
        single_pass_problem(
            hidden,
            incoming_pre,
            hidden_size,
            hc_mult,
            predictor,
            sinkhorn_iters,
            norm_eps,
            sinkhorn_eps,
        ) is None <==> {
            &&& incoming_pre.len() == hc_mult && math::all_finite(incoming_pre)
            &&& hidden == hidden_size * hc_mult
            &&& predictor.function_rows == (2 + hc_mult) * hc_mult
            &&& predictor.function_cols == hidden
            &&& predictor.base == (2 + hc_mult) * hc_mult
            &&& predictor.scale == 3
            &&& sinkhorn_iters > 0
            &&& norm_eps.positive_finite() && sinkhorn_eps.positive_finite()
        },
{
}

} // verus!
