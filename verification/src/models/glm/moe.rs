//! The sparse feed-forward layers of GLM: what a layer asks of its router and of the expert store.

use super::experts;
use super::experts::{ExpertStore, ExpertStoreError};
use crate::bits::Float32;
use crate::models::deepseek_v4::math;
use crate::models::deepseek_v4::math::are_finite;
use crate::text;
use crate::text::{join, push_decimal};
use vstd::prelude::*;
use vstd::string::*;

verus! {

/// How a layer picks its experts.
#[derive(Debug, Clone, Copy, PartialEq, Eq, Structural)]
pub struct MoeGeometry {
    pub top_k: usize,
    pub n_group: usize,
    pub topk_group: usize,
    pub normalize: bool,
    pub routed_scaling_factor: Float32,
}

#[derive(Debug)]
pub enum RuntimeMoeError {
    /// The router refused, in these words.
    Route(String),
    Expert(ExpertStoreError),
    InvalidShape(String),
    InvalidGeometry(String),
}

/// The same error, over plain values.
pub enum MoeProblem {
    Route(Seq<char>),
    Expert(experts::ExpertProblem),
    InvalidShape(Seq<char>),
    InvalidGeometry(Seq<char>),
}

impl View for RuntimeMoeError {
    type V = MoeProblem;

    open spec fn view(&self) -> MoeProblem {
        match *self {
            RuntimeMoeError::Route(reason) => MoeProblem::Route(reason@),
            RuntimeMoeError::Expert(error) => MoeProblem::Expert(error@),
            RuntimeMoeError::InvalidShape(reason) => MoeProblem::InvalidShape(reason@),
            RuntimeMoeError::InvalidGeometry(reason) => MoeProblem::InvalidGeometry(reason@),
        }
    }
}

pub open spec fn problem<T>(result: Result<T, RuntimeMoeError>) -> Option<MoeProblem> {
    match result {
        Ok(_) => None,
        Err(error) => Some(error@),
    }
}

impl MoeProblem {
    /// The error as text, but for one of the checkpoint, which speaks for itself.
    pub open spec fn text(self) -> Option<Seq<char>> {
        match self {
            MoeProblem::Route(reason) => Some(reason),
            MoeProblem::Expert(error) => error.text(),
            MoeProblem::InvalidShape(reason) => Some("invalid streamed MoE shape: "@ + reason),
            MoeProblem::InvalidGeometry(reason) => Some(
                "invalid streamed MoE geometry: "@ + reason,
            ),
        }
    }
}

impl RuntimeMoeError {
    pub fn message(&self) -> (message: Option<String>)
        ensures
            message is Some == self@.text() is Some,
            message is Some ==> message->0@ == self@.text()->0,
    {
        match self {
            RuntimeMoeError::Route(reason) => Some(reason.as_str().to_owned()),
            RuntimeMoeError::Expert(error) => error.message(),
            RuntimeMoeError::InvalidShape(reason) => Some(
                join("invalid streamed MoE shape: ", reason.as_str()),
            ),
            RuntimeMoeError::InvalidGeometry(reason) => Some(
                join("invalid streamed MoE geometry: ", reason.as_str()),
            ),
        }
    }
}

/// A sparse layer, but for the values of its matrices.
#[derive(Debug, Clone)]
pub struct RuntimeMoeLayer {
    pub layer: usize,
    pub router_rows: usize,
    pub router_cols: usize,
    pub correction_bias: Vec<u32>,
    pub geometry: MoeGeometry,
}

/// Why a router, its correction bias and the shared expert do not make a layer. The router is tried
/// last: `trial` is what it refuses, if anything, where it routes zeros by the bias and the
/// geometry.
pub open spec fn layer_problem(
    router_rows: usize,
    router_cols: usize,
    correction_bias: Seq<u32>,
    shared_hidden_size: usize,
    trial: Option<Seq<char>>,
) -> Option<MoeProblem> {
    if router_rows == 0 || router_cols == 0 {
        Some(MoeProblem::InvalidGeometry("router dimensions must be non-zero"@))
    } else if correction_bias.len() != router_rows {
        Some(
            MoeProblem::InvalidShape(
                "router has "@ + text::decimal(router_rows as nat)
                    + " experts but correction bias has "@ + text::decimal(correction_bias.len())
                    + " values"@,
            ),
        )
    } else if !math::all_finite(correction_bias) {
        Some(MoeProblem::InvalidGeometry("correction bias contains NaN or infinity"@))
    } else if shared_hidden_size != router_cols {
        Some(
            MoeProblem::InvalidShape(
                "router hidden size "@ + text::decimal(router_cols as nat)
                    + " differs from shared expert hidden size "@ + text::decimal(
                    shared_hidden_size as nat,
                ),
            ),
        )
    } else {
        match trial {
            Some(reason) => Some(MoeProblem::Route(reason)),
            None => None,
        }
    }
}

/// What a trial of the router refuses, if anything.
pub open spec fn trial_refusal(trial: Result<(), String>) -> Option<Seq<char>> {
    match trial {
        Ok(_) => None,
        Err(reason) => Some(reason@),
    }
}

/// Why a store does not hold the experts of a layer.
pub open spec fn store_problem(
    store_hidden: usize,
    store_experts: usize,
    layer_hidden: usize,
    layer_experts: usize,
) -> Option<MoeProblem> {
    if store_experts != layer_experts || store_hidden != layer_hidden {
        Some(
            MoeProblem::InvalidShape(
                "expert store is hidden="@ + text::decimal(store_hidden as nat) + " experts="@
                    + text::decimal(store_experts as nat) + ", layer needs hidden="@
                    + text::decimal(layer_hidden as nat) + " experts="@ + text::decimal(
                    layer_experts as nat,
                ),
            ),
        )
    } else {
        None
    }
}

impl RuntimeMoeLayer {
    /// A layer of these parts. `trial` is what the router says of a zero for every expert, under
    /// this correction bias and geometry: a router that refuses them refuses the layer.
    pub fn new(
        layer: usize,
        router_rows: usize,
        router_cols: usize,
        correction_bias: Vec<u32>,
        shared_hidden_size: usize,
        geometry: MoeGeometry,
        trial: Result<(), String>,
    ) -> (result: Result<Self, RuntimeMoeError>)
        ensures
            problem(result) == layer_problem(
                router_rows,
                router_cols,
                correction_bias@,
                shared_hidden_size,
                trial_refusal(trial),
            ),
            result matches Ok(made) ==> made == (RuntimeMoeLayer {
                layer,
                router_rows,
                router_cols,
                correction_bias,
                geometry,
            }),
    {
        if router_rows == 0 || router_cols == 0 {
            return Err(
                RuntimeMoeError::InvalidGeometry("router dimensions must be non-zero".to_owned()),
            );
        }
        if correction_bias.len() != router_rows {
            let mut reason = "router has ".to_owned();
            push_decimal(&mut reason, router_rows as u64);
            reason.append(" experts but correction bias has ");
            push_decimal(&mut reason, correction_bias.len() as u64);
            reason.append(" values");
            return Err(RuntimeMoeError::InvalidShape(reason));
        }
        if !are_finite(correction_bias.as_slice()) {
            return Err(
                RuntimeMoeError::InvalidGeometry(
                    "correction bias contains NaN or infinity".to_owned(),
                ),
            );
        }
        if shared_hidden_size != router_cols {
            let mut reason = "router hidden size ".to_owned();
            push_decimal(&mut reason, router_cols as u64);
            reason.append(" differs from shared expert hidden size ");
            push_decimal(&mut reason, shared_hidden_size as u64);
            return Err(RuntimeMoeError::InvalidShape(reason));
        }
        match trial {
            Ok(_) => Ok(
                RuntimeMoeLayer { layer, router_rows, router_cols, correction_bias, geometry },
            ),
            Err(reason) => Err(RuntimeMoeError::Route(reason)),
        }
    }

    pub fn hidden_size(&self) -> (size: usize)
        ensures
            size == self.router_cols,
    {
        self.router_cols
    }

    pub fn expert_count(&self) -> (count: usize)
        ensures
            count == self.router_rows,
    {
        self.router_rows
    }

    pub fn layer_index(&self) -> (layer: usize)
        ensures
            layer == self.layer,
    {
        self.layer
    }

    /// Refuses a store that does not hold the experts of this layer.
    pub fn check_store(&self, experts: &ExpertStore) -> (result: Result<(), RuntimeMoeError>)
        ensures
            problem(result) == store_problem(
                experts@.hidden,
                experts@.experts,
                self.router_cols,
                self.router_rows,
            ),
    {
        if experts.expert_count() != self.expert_count() || experts.hidden_size()
            != self.hidden_size() {
            let mut reason = "expert store is hidden=".to_owned();
            push_decimal(&mut reason, experts.hidden_size() as u64);
            reason.append(" experts=");
            push_decimal(&mut reason, experts.expert_count() as u64);
            reason.append(", layer needs hidden=");
            push_decimal(&mut reason, self.hidden_size() as u64);
            reason.append(" experts=");
            push_decimal(&mut reason, self.expert_count() as u64);
            return Err(RuntimeMoeError::InvalidShape(reason));
        }
        Ok(())
    }
}

/// A layer is made exactly where its router scores some experts, each with a number as its correction,
/// reads the hidden values that its shared expert reads, and routes a trial.
pub proof fn sound_layers_are_made(
    router_rows: usize,
    router_cols: usize,
    correction_bias: Seq<u32>,
    shared_hidden_size: usize,
    trial: Option<Seq<char>>,
    store_hidden: usize,
    store_experts: usize,
)
    ensures
        layer_problem(router_rows, router_cols, correction_bias, shared_hidden_size, trial) is None
            <==> {
            &&& router_rows > 0 && router_cols > 0
            &&& correction_bias.len() == router_rows && math::all_finite(correction_bias)
            &&& shared_hidden_size == router_cols
            &&& trial is None
        },
        store_problem(store_hidden, store_experts, router_cols, router_rows) is None <==> store_hidden
            == router_cols && store_experts == router_rows,
{
}

} // verus!
