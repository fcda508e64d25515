//! The parts of the scalar reference math that are decided on bits and shapes: rounding to BF16,
//! operand checks and the choice of experts.

use crate::bits::Float32;
use crate::ranking;
use crate::ranking::{rank, total_order_keys};
use crate::text::join;
use vstd::prelude::*;
use vstd::string::*;

verus! {

#[derive(Debug)]
pub enum DeepseekMathError {
    Shape(String),
    Invalid(String),
    NonFinite,
}

/// The same error, over plain values.
pub enum MathProblem {
    Shape(Seq<char>),
    Invalid(Seq<char>),
    NonFinite,
}

impl View for DeepseekMathError {
    type V = MathProblem;

    open spec fn view(&self) -> MathProblem {
        match self {
            DeepseekMathError::Shape(reason) => MathProblem::Shape(reason@),
            DeepseekMathError::Invalid(reason) => MathProblem::Invalid(reason@),
            DeepseekMathError::NonFinite => MathProblem::NonFinite,
        }
    }
}

impl DeepseekMathError {
    pub open spec fn text(self) -> Seq<char> {
        match self {
            DeepseekMathError::Shape(reason) => "DeepSeek-V4 shape error: "@ + reason@,
            DeepseekMathError::Invalid(reason) => "invalid DeepSeek-V4 math: "@ + reason@,
            DeepseekMathError::NonFinite => "DeepSeek-V4 math produced NaN or infinity"@,
        }
    }

    pub fn message(&self) -> (message: String)
        ensures
            message@ == self.text(),
    {
        match self {
            DeepseekMathError::Shape(reason) => join("DeepSeek-V4 shape error: ", reason.as_str()),
            DeepseekMathError::Invalid(reason) => join(
                "invalid DeepSeek-V4 math: ",
                reason.as_str(),
            ),
            DeepseekMathError::NonFinite => "DeepSeek-V4 math produced NaN or infinity".to_owned(),
        }
    }
}

/// The refusal of a check, or nothing where it passed.
pub open spec fn problem<T>(result: Result<T, DeepseekMathError>) -> Option<MathProblem> {
    match result {
        Ok(_) => None,
        Err(error) => Some(error@),
    }
}

/// A binary32 value, by its bits, that is neither infinite nor a not-a-number: its exponent is not
/// all ones.
pub open spec fn finite(bits: u32) -> bool {
    (bits as int / 0x80_0000) % 0x100 != 0xff
}

pub open spec fn all_finite(values: Seq<u32>) -> bool {
    forall|i: int| 0 <= i < values.len() ==> finite(#[trigger] values[i])
}

pub fn is_finite(bits: u32) -> (result: bool)
    ensures
        result == finite(bits),
{
    (bits / 0x80_0000) % 0x100 != 0xff
}

pub fn are_finite(values: &[u32]) -> (result: bool)
    ensures
        result == all_finite(values@),
{
    let mut index: usize = 0;
    while index < values.len()
        invariant
            index <= values@.len(),
            forall|i: int| 0 <= i < index ==> finite(#[trigger] values@[i]),
        decreases values@.len() - index,
    {
        if !is_finite(values[index]) {
            return false;
        }
        index = index + 1;
    }
    true
}

/// The nearest value whose lower sixteen bits are zero; between two, the one whose last kept bit
/// is zero.
pub open spec fn nearest_bf16(bits: u32) -> int {
    let low = bits as int % 0x1_0000;
    let high = bits as int / 0x1_0000;
    if low > 0x8000 || (low == 0x8000 && high % 2 == 1) {
        (high + 1) * 0x1_0000
    } else {
        high * 0x1_0000
    }
}

/// A finite value rounded to BF16, where that is finite too.
pub open spec fn bf16(bits: u32) -> Option<u32> {
    if finite(bits) && finite(nearest_bf16(bits) as u32) {
        Some(nearest_bf16(bits) as u32)
    } else {
        None
    }
}

pub fn round_to_bf16(bits: u32) -> (result: Result<u32, DeepseekMathError>)
    ensures
        match result {
            Ok(rounded) => bf16(bits) == Some(rounded),
            Err(error) => bf16(bits) is None && error@ == MathProblem::NonFinite,
        },
{
    if !is_finite(bits) {
        return Err(DeepseekMathError::NonFinite);
    }
    proof {
        assert(((bits >> 16u32) & 1) == (bits / 0x1_0000) % 2) by (bit_vector);
        assert(bits <= 0xff7f_ffff);
    }
    let rounding_bias: u32 = 0x7fff + ((bits >> 16u32) & 1);
    let rounded: u32 = (bits + rounding_bias) & 0xffff_0000;
    proof {
        let sum: u32 = (bits + rounding_bias) as u32;
        assert(sum & 0xffff_0000 == sum / 0x1_0000 * 0x1_0000) by (bit_vector);
        assert(rounded == nearest_bf16(bits));
    }
    if is_finite(rounded) {
        Ok(rounded)
    } else {
        Err(DeepseekMathError::NonFinite)
    }
}

/// Rounds every value. A value that cannot be rounded stops the work there: the values before it
/// are rounded, it and those behind it are as they were.
pub fn round_to_bf16_in_place(values: &mut Vec<u32>) -> (result: Result<(), DeepseekMathError>)
    ensures
        final(values)@.len() == old(values)@.len(),
        match result {
            Ok(_) => forall|i: int|
                0 <= i < old(values)@.len() ==> bf16(old(values)@[i]) == Some(
                    #[trigger] final(values)@[i],
                ),
            Err(error) => {
                &&& error@ == MathProblem::NonFinite
                &&& exists|stop: int|
                    {
                        &&& 0 <= stop < old(values)@.len()
                        &&& bf16(#[trigger] old(values)@[stop]) is None
                        &&& forall|i: int|
                            0 <= i < stop ==> bf16(old(values)@[i]) == Some(
                                #[trigger] final(values)@[i],
                            )
                        &&& forall|i: int|
                            stop <= i < old(values)@.len() ==> #[trigger] final(values)@[i] == old(
                                values,
                            )@[i]
                    }
            },
        },
{
    let ghost before = values@;
    let mut index: usize = 0;
    while index < values.len()
        invariant
            before == old(values)@,
            index <= values@.len() == before.len(),
            forall|i: int| 0 <= i < index ==> bf16(before[i]) == Some(#[trigger] values@[i]),
            forall|i: int| index <= i < before.len() ==> #[trigger] values@[i] == before[i],
        decreases values@.len() - index,
    {
        match round_to_bf16(values[index]) {
            Ok(rounded) => {
                values.set(index, rounded);
            },
            Err(error) => {
                assert(bf16(before[index as int]) is None);
                return Err(error);
            },
        }
        index = index + 1;
    }
    Ok(())
}

/// Rounding is idempotent: a rounded value is its own BF16 value.
pub proof fn rounding_twice_changes_nothing(bits: u32)
    requires
        bf16(bits) is Some,
    ensures
        bf16(bf16(bits)->0) == bf16(bits),
{
    let rounded = bf16(bits)->0;
    assert(rounded as int % 0x1_0000 == 0);
    assert(nearest_bf16(rounded) == rounded);
}

/// Rounding keeps the order of magnitudes: of two values of one sign, the greater rounds to no
/// less.
pub proof fn rounding_is_monotone(left: u32, right: u32)
    requires
        left <= right,
        bf16(left) is Some,
        bf16(right) is Some,
    ensures
        bf16(left)->0 <= bf16(right)->0,
{
}

pub open spec fn positive_problem(name: Seq<char>, value: Float32) -> Option<MathProblem> {
    if value.positive_finite() {
        None
    } else {
        Some(MathProblem::Invalid(name + " must be finite and positive"@))
    }
}

pub fn validate_positive(name: &str, value: Float32) -> (result: Result<(), DeepseekMathError>)
    ensures
        problem(result) == positive_problem(name@, value),
{
    if value.is_positive_finite() {
        Ok(())
    } else {
        Err(DeepseekMathError::Invalid(join(name, " must be finite and positive")))
    }
}

/// What the router refuses before it scores anything.
pub open spec fn routing_problem(
    logits: Seq<u32>,
    correction_bias: Option<Seq<u32>>,
    hash_experts: Option<Seq<usize>>,
    top_k: usize,
    factor: Float32,
) -> Option<MathProblem> {
    if logits.len() == 0 || top_k == 0 || top_k > logits.len() || (correction_bias matches Some(
        bias,
    ) && bias.len() != logits.len()) || (hash_experts matches Some(experts) && experts.len()
        != top_k) {
        Some(MathProblem::Shape("router logits/bias/hash/top-k geometry is inconsistent"@))
    } else if !factor.positive_finite() {
        positive_problem("routed_scaling_factor"@, factor)
    } else if !all_finite(logits) || (correction_bias matches Some(bias) && !all_finite(bias)) {
        Some(MathProblem::NonFinite)
    } else {
        None
    }
}

pub open spec fn slice_view<T>(slice: Option<&[T]>) -> Option<Seq<T>> {
    match slice {
        Some(slice) => Some(slice@),
        None => None,
    }
}

pub fn validate_routing(
    logits: &[u32],
    correction_bias: Option<&[u32]>,
    hash_experts: Option<&[usize]>,
    top_k: usize,
    routed_scaling_factor: Float32,
) -> (result: Result<(), DeepseekMathError>)
    ensures
        problem(result) == routing_problem(
            logits@,
            slice_view(correction_bias),
            slice_view(hash_experts),
            top_k,
            routed_scaling_factor,
        ),
{
    let bad_bias = match correction_bias {
        Some(bias) => bias.len() != logits.len(),
        None => false,
    };
    let bad_hash = match hash_experts {
        Some(experts) => experts.len() != top_k,
        None => false,
    };
    if logits.len() == 0 || top_k == 0 || top_k > logits.len() || bad_bias || bad_hash {
        return Err(
            DeepseekMathError::Shape(
                "router logits/bias/hash/top-k geometry is inconsistent".to_owned(),
            ),
        );
    }
    validate_positive("routed_scaling_factor", routed_scaling_factor)?;
    let finite_bias = match correction_bias {
        Some(bias) => are_finite(bias),
        None => true,
    };
    if !are_finite(logits) || !finite_bias {
        return Err(DeepseekMathError::NonFinite);
    }
    Ok(())
}

/// The experts chosen for a token. Fixed ones are taken as they stand, where all are in range;
/// otherwise the `top_k` best by selection score, the lower expert first among equals.
pub open spec fn chosen(
    selection: Seq<u32>,
    hash_experts: Option<Seq<usize>>,
    top_k: usize,
    experts: Seq<usize>,
) -> bool {
    match hash_experts {
        Some(fixed) => experts == fixed,
        None => exists|ranking: Seq<usize>|
            #[trigger] ranking::ranking(ranking::keys_of(selection), ranking) && experts
                == ranking.take(top_k as int),
    }
}

/// A fixed expert is out of range.
pub open spec fn foreign_expert(experts: nat, hash_experts: Option<Seq<usize>>) -> bool {
    hash_experts matches Some(fixed) && exists|i: int|
        0 <= i < fixed.len() && #[trigger] fixed[i] >= experts
}

pub fn select_experts(selection: &[u32], hash_experts: Option<&[usize]>, top_k: usize) -> (result:
    Result<Vec<usize>, DeepseekMathError>)
    requires
        top_k <= selection@.len(),
    ensures
        match result {
            Ok(experts) => {
                &&& !foreign_expert(selection@.len(), slice_view(hash_experts))
                &&& chosen(selection@, slice_view(hash_experts), top_k, experts@)
            },
            Err(error) => {
                &&& foreign_expert(selection@.len(), slice_view(hash_experts))
                &&& error@ == MathProblem::Invalid("hash expert IDs must be in range"@)
            },
        },
{
    let length: usize = selection.len();
    match hash_experts {
        Some(fixed) => {
            let mut experts: Vec<usize> = Vec::new();
            let mut index: usize = 0;
            while index < fixed.len()
                invariant
                    length == selection@.len(),
                    index <= fixed@.len(),
                    experts@ == fixed@.take(index as int),
                    forall|i: int| 0 <= i < index ==> #[trigger] fixed@[i] < length,
                    slice_view(hash_experts) == Some(fixed@),
                decreases fixed@.len() - index,
            {
                if fixed[index] >= length {
                    proof {
                        let listed = slice_view(hash_experts)->0;
                        assert(listed[index as int] >= length);
                    }
                    return Err(
                        DeepseekMathError::Invalid("hash expert IDs must be in range".to_owned()),
                    );
                }
                experts.push(fixed[index]);
                index = index + 1;
                assert(experts@ =~= fixed@.take(index as int));
            }
            assert(fixed@.take(fixed@.len() as int) =~= fixed@);
            Ok(experts)
        },
        None => {
            let keys = total_order_keys(selection);
            let mut experts = rank(&keys);
            let ghost ranking = experts@;
            experts.truncate(top_k);
            assert(experts@ =~= ranking.take(top_k as int));
            Ok(experts)
        },
    }
}

/// A value is a number unless its magnitude is that of infinity or beyond.
pub proof fn finite_values_lie_below_infinity(bits: u32)
    ensures
        finite(bits) <==> bits as int % 0x8000_0000 < 0x7f80_0000,
{
}

/// Rounding gives the nearest of the values whose lower half is zero, and of two that are equally
/// near the one whose last kept bit is zero. It is refused exactly where the value is not finite or
/// the nearest one would not be.
pub proof fn rounding_gives_the_nearest(bits: u32, other: u32)
    requires
        other as int % 0x1_0000 == 0,
    ensures
        bf16(bits) is None <==> bits as int % 0x8000_0000 >= 0x7f7f_8000,
        bf16(bits) matches Some(rounded) ==> {
            let off = if rounded >= bits {
                rounded - bits
            } else {
                bits - rounded
            };
            let other_off = if other >= bits {
                other - bits
            } else {
                bits - other
            };
            &&& rounded as int % 0x1_0000 == 0
            &&& off <= other_off
            &&& off == other_off && other != rounded ==> (rounded as int / 0x1_0000) % 2 == 0
        },
{
}

/// Fixed experts are taken as they stand, in their order. Otherwise the experts with the best scores
/// are taken, as many as asked for, each once and the best first; no other has a greater score, and
/// among equal scores the lower expert comes first.
pub proof fn chosen_experts_score_best(
    selection: Seq<u32>,
    hash_experts: Option<Seq<usize>>,
    top_k: usize,
    experts: Seq<usize>,
    i: int,
    other: int,
)
    requires
        top_k <= selection.len() <= usize::MAX,
        chosen(selection, hash_experts, top_k, experts),
        0 <= i < experts.len(),
        0 <= other < selection.len(),
    ensures
        hash_experts matches Some(fixed) ==> experts == fixed,
        hash_experts is None ==> {
            &&& experts.len() == top_k
            &&& experts[i] < selection.len()
            &&& !experts.contains(other as usize) ==> !ranking::lies_below(
                selection[experts[i] as int],
                selection[other],
            ) && (selection[experts[i] as int] == selection[other] ==> experts[i] < other)
            &&& forall|j: int|
                i < j < experts.len() ==> experts[i] != #[trigger] experts[j]
                    && !ranking::lies_below(
                    selection[experts[i] as int],
                    selection[experts[j] as int],
                ) && (selection[experts[i] as int] == selection[experts[j] as int] ==> experts[i]
                    < experts[j])
        },
{
    if hash_experts is None {
        let order = choose|order: Seq<usize>|
            #[trigger] ranking::ranking(ranking::keys_of(selection), order) && experts
                == order.take(top_k as int);
        assert(order[i] < selection.len());
        assert forall|j: int| i < j < experts.len() implies experts[i] != #[trigger] experts[j]
            && !ranking::lies_below(selection[experts[i] as int], selection[experts[j] as int]) && (
        selection[experts[i] as int] == selection[experts[j] as int] ==> experts[i]
            < experts[j]) by {
            ranking::rankings_descend(selection, order, i, j);
        }
        if !experts.contains(other as usize) {
            assert(order.contains(other as usize));
            let at = choose|at: int| 0 <= at < order.len() && order[at] == other as usize;
            if at < experts.len() {
                assert(experts[at] == other as usize);
            }
            ranking::rankings_descend(selection, order, i, at);
        }
    }
}

/// Routing is computed exactly where there are logits, no more experts are asked for than there are,
/// corrections come for all of them and fixed experts for all places, the factor is positive and all
/// values are numbers.
pub proof fn sound_routing_is_computed(
    logits: Seq<u32>,
    correction_bias: Option<Seq<u32>>,
    hash_experts: Option<Seq<usize>>,
    top_k: usize,
    factor: Float32,
)
    ensures
        routing_problem(logits, correction_bias, hash_experts, top_k, factor) is None <==> {
            &&& 0 < top_k <= logits.len()
            &&& correction_bias matches Some(bias) ==> bias.len() == logits.len() && all_finite(bias)
            &&& hash_experts matches Some(experts) ==> experts.len() == top_k
            &&& factor.positive_finite()
            &&& all_finite(logits)
        },
{
}

/// A fixed expert is foreign where the router has no score for it; where none is fixed, none is.
pub proof fn fixed_experts_have_scores(experts: nat, hash_experts: Option<Seq<usize>>)
    ensures
        !foreign_expert(experts, hash_experts) <==> (hash_experts matches Some(fixed) ==> forall|
            i: int,
        |
            0 <= i < fixed.len() ==> #[trigger] fixed[i] < experts),
{
}

} // verus!
