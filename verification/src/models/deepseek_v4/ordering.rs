//! A prompt runs through the layers in two orders: token by token, each through all layers, or layer
//! by layer, each for all tokens. Both leave the same caches and hand on the same values.
//!
//! The arithmetic is any function of plain values here: of what a token brings to a layer and of
//! what the layer's cache holds once the token has been written to it.

use super::attention::AttentionView;
use super::compressor::{CompressorView, CompressorWeights, PreparedCompressor};
use super::runtime::{ModelView, StateView};
use super::{attention, runtime};
use vstd::prelude::*;

verus! {

/// What the hidden values of a token give to the cache of a layer.
pub struct Projected {
    pub local: Seq<u32>,
    pub index_kv: Seq<u32>,
    pub index_score: Seq<u32>,
    pub kv: Seq<u32>,
    pub score: Seq<u32>,
}

/// What a layer hands on for a token: its hidden values, and the experts that it chose with their
/// weights.
pub struct LayerOutput {
    pub hidden: Seq<u32>,
    pub routes: Seq<(usize, u32)>,
}

/// The arithmetic of a model.
pub struct Kernels {
    /// The first hidden values of a token.
    pub embed: spec_fn(u32) -> Seq<u32>,
    /// What a layer writes for the hidden values at a position.
    pub project: spec_fn(int, usize, Seq<u32>) -> Projected,
    /// The entry of a complete group of a layer's indexer.
    pub index_entry: spec_fn(int, CompressorView) -> Seq<u32>,
    /// The entry of a complete group of a layer's compressor.
    pub entry: spec_fn(int, CompressorView) -> Seq<u32>,
    /// What a layer makes of a token and its hidden values, over a cache that holds the token.
    pub output: spec_fn(int, u32, Seq<u32>, AttentionView) -> LayerOutput,
}

/// A compressor behind a position, and behind the entry that the position completes.
pub open spec fn part_written(
    part: Option<CompressorView>,
    position: usize,
    kv: Seq<u32>,
    score: Seq<u32>,
    entry: spec_fn(CompressorView) -> Seq<u32>,
) -> Option<CompressorView> {
    match part {
        None => None,
        Some(state) => {
            let behind = state.after_position(kv, score);
            if attention::group_start(state.ratio, position) is Some {
                Some(behind.after_emission(entry(behind)))
            } else {
                Some(behind)
            }
        },
    }
}

/// The cache of a layer that a token with these hidden values has been written to.
pub open spec fn written(
    kernels: Kernels,
    layer: int,
    hidden: Seq<u32>,
    cache: AttentionView,
) -> AttentionView {
    let position = cache.next_position;
    let projected = (kernels.project)(layer, position, hidden);
    AttentionView {
        indexer: part_written(
            cache.indexer,
            position,
            projected.index_kv,
            projected.index_score,
            |state: CompressorView| (kernels.index_entry)(layer, state),
        ),
        compressor: part_written(
            cache.compressor,
            position,
            projected.kv,
            projected.score,
            |state: CompressorView| (kernels.entry)(layer, state),
        ),
        ..cache.with_local(projected.local)
    }
}

/// What one layer hands on for one token.
pub open spec fn layer_output(
    kernels: Kernels,
    layer: int,
    token: u32,
    hidden: Seq<u32>,
    cache: AttentionView,
) -> LayerOutput {
    (kernels.output)(layer, token, hidden, written(kernels, layer, hidden, cache))
}

/// The cache of a layer behind one token.
pub open spec fn layer_cache(
    kernels: Kernels,
    layer: int,
    hidden: Seq<u32>,
    cache: AttentionView,
) -> AttentionView {
    written(kernels, layer, hidden, cache).advanced()
}

/// How far a token has come: its hidden values, the routes of the layers that it has passed, and the
/// caches of all layers.
#[verifier::ext_equal]
pub struct TokenPass {
    pub hidden: Seq<u32>,
    pub routes: Seq<Seq<(usize, u32)>>,
    pub caches: Seq<AttentionView>,
}

/// One token through the first `layers` layers.
pub open spec fn token_pass(
    kernels: Kernels,
    token: u32,
    caches: Seq<AttentionView>,
    layers: nat,
) -> TokenPass
    decreases layers,
{
    if layers == 0 {
        TokenPass { hidden: (kernels.embed)(token), routes: Seq::empty(), caches }
    } else {
        let layer = layers - 1;
        let before = token_pass(kernels, token, caches, layer as nat);
        let output = layer_output(kernels, layer, token, before.hidden, before.caches[layer]);
        TokenPass {
            hidden: output.hidden,
            routes: before.routes.push(output.routes),
            caches: before.caches.update(
                layer,
                layer_cache(kernels, layer, before.hidden, before.caches[layer]),
            ),
        }
    }
}

/// Where a prompt has come to: the position, the caches, and what the last token handed on.
#[verifier::ext_equal]
pub struct Reached {
    pub position: int,
    pub caches: Seq<AttentionView>,
    pub hidden: Seq<u32>,
    pub routes: Seq<Seq<(usize, u32)>>,
}

/// A state behind one token more. Before the layers take it, their next slots are moved out.
pub open spec fn after_token(
    kernels: Kernels,
    position: int,
    caches: Seq<AttentionView>,
    token: u32,
) -> Reached {
    let emptied = Seq::new(caches.len(), |i: int| caches[i].emptied());
    let pass = token_pass(kernels, token, emptied, caches.len());
    Reached {
        position: position + 1,
        caches: pass.caches,
        hidden: pass.hidden,
        routes: pass.routes,
    }
}

/// A state behind the first `count` tokens, one after the other.
pub open spec fn token_by_token(
    kernels: Kernels,
    position: int,
    caches: Seq<AttentionView>,
    tokens: Seq<u32>,
    count: nat,
) -> Reached
    decreases count,
{
    if count == 0 {
        Reached { position, caches, hidden: Seq::empty(), routes: Seq::empty() }
    } else {
        let before = token_by_token(kernels, position, caches, tokens, (count - 1) as nat);
        after_token(kernels, before.position, before.caches, tokens[count - 1])
    }
}

/// How far a layer has come with a prompt: its cache, and what it handed on for each token.
#[verifier::ext_equal]
pub struct LayerPass {
    pub cache: AttentionView,
    pub outputs: Seq<LayerOutput>,
}

/// One layer for the first `count` tokens.
pub open spec fn layer_pass(
    kernels: Kernels,
    layer: int,
    tokens: Seq<u32>,
    hidden: Seq<Seq<u32>>,
    cache: AttentionView,
    count: nat,
) -> LayerPass
    decreases count,
{
    if count == 0 {
        LayerPass { cache, outputs: Seq::empty() }
    } else {
        let i = count - 1;
        let before = layer_pass(kernels, layer, tokens, hidden, cache, i as nat);
        LayerPass {
            cache: layer_cache(kernels, layer, hidden[i], before.cache),
            outputs: before.outputs.push(
                layer_output(kernels, layer, tokens[i], hidden[i], before.cache),
            ),
        }
    }
}

/// How far a prompt has come at once: the hidden values of every token, the routes of the last token
/// in the layers that it has passed, and the caches of all layers.
#[verifier::ext_equal]
pub struct PromptPass {
    pub hidden: Seq<Seq<u32>>,
    pub routes: Seq<Seq<(usize, u32)>>,
    pub caches: Seq<AttentionView>,
}

/// All tokens through the first `layers` layers.
pub open spec fn prompt_pass(
    kernels: Kernels,
    tokens: Seq<u32>,
    caches: Seq<AttentionView>,
    layers: nat,
) -> PromptPass
    decreases layers,
{
    if layers == 0 {
        PromptPass {
            hidden: Seq::new(tokens.len(), |i: int| (kernels.embed)(tokens[i])),
            routes: Seq::empty(),
            caches,
        }
    } else {
        let layer = layers - 1;
        let before = prompt_pass(kernels, tokens, caches, layer as nat);
        let pass = layer_pass(
            kernels,
            layer,
            tokens,
            before.hidden,
            before.caches[layer],
            tokens.len(),
        );
        PromptPass {
            hidden: Seq::new(tokens.len(), |i: int| pass.outputs[i].hidden),
            routes: before.routes.push(pass.outputs.last().routes),
            caches: before.caches.update(layer, pass.cache),
        }
    }
}

/// A state behind a whole prompt, one layer after the other.
pub open spec fn layer_by_layer(
    kernels: Kernels,
    position: int,
    caches: Seq<AttentionView>,
    tokens: Seq<u32>,
) -> Reached {
    let pass = prompt_pass(kernels, tokens, caches, caches.len());
    Reached {
        position: position + tokens.len(),
        caches: pass.caches,
        hidden: pass.hidden.last(),
        routes: pass.routes,
    }
}

/// Where the token at `place` meets `layer`: with which hidden values it comes, and what the layer's
/// cache holds.
pub open spec fn meeting(
    kernels: Kernels,
    tokens: Seq<u32>,
    caches: Seq<AttentionView>,
    layer: nat,
    place: nat,
) -> (Seq<u32>, AttentionView)
    decreases layer, place,
{
    (
        if layer == 0 {
            (kernels.embed)(tokens[place as int])
        } else {
            let (hidden, cache) = meeting(kernels, tokens, caches, (layer - 1) as nat, place);
            layer_output(kernels, layer - 1, tokens[place as int], hidden, cache).hidden
        },
        if place == 0 {
            caches[layer as int]
        } else {
            let (hidden, cache) = meeting(kernels, tokens, caches, layer, (place - 1) as nat);
            layer_cache(kernels, layer as int, hidden, cache)
        },
    )
}

/// The routes of the token at `place` in a layer.
spec fn routes_at(
    kernels: Kernels,
    tokens: Seq<u32>,
    caches: Seq<AttentionView>,
    layer: nat,
    place: nat,
) -> Seq<(usize, u32)> {
    let (hidden, cache) = meeting(kernels, tokens, caches, layer, place);
    layer_output(kernels, layer as int, tokens[place as int], hidden, cache).routes
}

/// A slot that was moved out is written anew: it does not matter what stood there.
proof fn lemma_emptied(kernels: Kernels, layer: int, hidden: Seq<u32>, cache: AttentionView)
    requires
        cache.local.len() > 0,
    ensures
        written(kernels, layer, hidden, cache.emptied()) == written(kernels, layer, hidden, cache),
{
    vstd::arithmetic::div_mod::lemma_mod_bound(
        cache.next_position as int,
        cache.local.len() as int,
    );
    let projected = (kernels.project)(layer, cache.next_position, hidden);
    assert(cache.emptied().with_local(projected.local).local =~= cache.with_local(
        projected.local,
    ).local);
}

/// No layer loses its window.
proof fn lemma_window(
    kernels: Kernels,
    tokens: Seq<u32>,
    caches: Seq<AttentionView>,
    layer: nat,
    place: nat,
)
    requires
        layer < caches.len(),
        caches[layer as int].local.len() > 0,
    ensures
        meeting(kernels, tokens, caches, layer, place).1.local.len() > 0,
    decreases place,
{
    if place > 0 {
        lemma_window(kernels, tokens, caches, layer, (place - 1) as nat);
    }
}

proof fn lemma_token_pass(
    kernels: Kernels,
    tokens: Seq<u32>,
    caches: Seq<AttentionView>,
    now: Seq<AttentionView>,
    place: nat,
    layers: nat,
)
    requires
        layers <= caches.len() == now.len(),
        forall|i: int| 0 <= i < caches.len() ==> (#[trigger] caches[i]).local.len() > 0,
        forall|i: int|
            0 <= i < now.len() ==> #[trigger] now[i] == meeting(
                kernels,
                tokens,
                caches,
                i as nat,
                place,
            ).1.emptied(),
    ensures
        ({
            let pass = token_pass(kernels, tokens[place as int], now, layers);
            &&& pass.caches.len() == caches.len()
            &&& pass.routes.len() == layers
            &&& pass.hidden == meeting(kernels, tokens, caches, layers, place).0
            &&& forall|i: int|
                0 <= i < layers ==> #[trigger] pass.caches[i] == meeting(
                    kernels,
                    tokens,
                    caches,
                    i as nat,
                    place + 1,
                ).1
            &&& forall|i: int| layers <= i < now.len() ==> #[trigger] pass.caches[i] == now[i]
            &&& forall|i: int|
                0 <= i < layers ==> #[trigger] pass.routes[i] == routes_at(
                    kernels,
                    tokens,
                    caches,
                    i as nat,
                    place,
                )
        }),
    decreases layers,
{
    if layers > 0 {
        let layer = (layers - 1) as nat;
        lemma_token_pass(kernels, tokens, caches, now, place, layer);
        let before = token_pass(kernels, tokens[place as int], now, layer);
        let (hidden, cache) = meeting(kernels, tokens, caches, layer, place);
        assert(before.caches[layer as int] == now[layer as int]);
        assert(before.hidden == hidden);
        assert(caches[layer as int].local.len() > 0);
        lemma_window(kernels, tokens, caches, layer, place);
        lemma_emptied(kernels, layer as int, hidden, cache);
        assert(meeting(kernels, tokens, caches, layer, place + 1).1 == layer_cache(
            kernels,
            layer as int,
            hidden,
            cache,
        ));
    }
}

proof fn lemma_token_by_token(
    kernels: Kernels,
    position: int,
    caches: Seq<AttentionView>,
    tokens: Seq<u32>,
    count: nat,
)
    requires
        count <= tokens.len(),
        forall|i: int| 0 <= i < caches.len() ==> (#[trigger] caches[i]).local.len() > 0,
    ensures
        ({
            let reached = token_by_token(kernels, position, caches, tokens, count);
            &&& reached.position == position + count
            &&& reached.caches.len() == caches.len()
            &&& forall|i: int|
                0 <= i < caches.len() ==> #[trigger] reached.caches[i] == meeting(
                    kernels,
                    tokens,
                    caches,
                    i as nat,
                    count,
                ).1
            &&& count > 0 ==> {
                &&& reached.hidden == meeting(
                    kernels,
                    tokens,
                    caches,
                    caches.len(),
                    (count - 1) as nat,
                ).0
                &&& reached.routes == Seq::new(
                    caches.len(),
                    |i: int| routes_at(kernels, tokens, caches, i as nat, (count - 1) as nat),
                )
            }
        }),
    decreases count,
{
    if count > 0 {
        let place = (count - 1) as nat;
        lemma_token_by_token(kernels, position, caches, tokens, place);
        let before = token_by_token(kernels, position, caches, tokens, place);
        let now = Seq::new(before.caches.len(), |i: int| before.caches[i].emptied());
        lemma_token_pass(kernels, tokens, caches, now, place, caches.len());
        let reached = token_by_token(kernels, position, caches, tokens, count);
        assert(reached.routes =~= Seq::new(
            caches.len(),
            |i: int| routes_at(kernels, tokens, caches, i as nat, place),
        ));
    }
}

proof fn lemma_layer_pass(
    kernels: Kernels,
    layer: nat,
    tokens: Seq<u32>,
    caches: Seq<AttentionView>,
    hidden: Seq<Seq<u32>>,
    count: nat,
)
    requires
        layer < caches.len(),
        count <= tokens.len() == hidden.len(),
        forall|i: int|
            0 <= i < tokens.len() ==> #[trigger] hidden[i] == meeting(
                kernels,
                tokens,
                caches,
                layer,
                i as nat,
            ).0,
    ensures
        ({
            let pass = layer_pass(
                kernels,
                layer as int,
                tokens,
                hidden,
                caches[layer as int],
                count,
            );
            &&& pass.cache == meeting(kernels, tokens, caches, layer, count).1
            &&& pass.outputs.len() == count
            &&& forall|i: int|
                0 <= i < count ==> (#[trigger] pass.outputs[i]).hidden == meeting(
                    kernels,
                    tokens,
                    caches,
                    layer + 1,
                    i as nat,
                ).0 && pass.outputs[i].routes == routes_at(
                    kernels,
                    tokens,
                    caches,
                    layer,
                    i as nat,
                )
        }),
    decreases count,
{
    if count > 0 {
        let place = (count - 1) as nat;
        lemma_layer_pass(kernels, layer, tokens, caches, hidden, place);
        assert(hidden[place as int] == meeting(kernels, tokens, caches, layer, place).0);
    }
}

proof fn lemma_prompt_pass(
    kernels: Kernels,
    tokens: Seq<u32>,
    caches: Seq<AttentionView>,
    layers: nat,
)
    requires
        tokens.len() > 0,
        layers <= caches.len(),
    ensures
        ({
            let pass = prompt_pass(kernels, tokens, caches, layers);
            &&& pass.hidden.len() == tokens.len()
            &&& pass.caches.len() == caches.len()
            &&& pass.routes.len() == layers
            &&& forall|i: int|
                0 <= i < tokens.len() ==> #[trigger] pass.hidden[i] == meeting(
                    kernels,
                    tokens,
                    caches,
                    layers,
                    i as nat,
                ).0
            &&& forall|i: int|
                0 <= i < layers ==> #[trigger] pass.caches[i] == meeting(
                    kernels,
                    tokens,
                    caches,
                    i as nat,
                    tokens.len(),
                ).1
            &&& forall|i: int| layers <= i < caches.len() ==> #[trigger] pass.caches[i] == caches[i]
            &&& forall|i: int|
                0 <= i < layers ==> #[trigger] pass.routes[i] == routes_at(
                    kernels,
                    tokens,
                    caches,
                    i as nat,
                    (tokens.len() - 1) as nat,
                )
        }),
    decreases layers,
{
    if layers > 0 {
        let layer = (layers - 1) as nat;
        lemma_prompt_pass(kernels, tokens, caches, layer);
        let before = prompt_pass(kernels, tokens, caches, layer);
        assert(before.caches[layer as int] == caches[layer as int]);
        lemma_layer_pass(kernels, layer, tokens, caches, before.hidden, tokens.len());
    }
}

/// A prompt that runs layer by layer leaves what its tokens leave one by one: the position behind it
/// and the same cache in every layer, with as many values. What is handed on for the last token is
/// the same, and so is everything behind one token more.
pub proof fn a_prompt_at_once_matches_its_tokens(
    kernels: Kernels,
    state: StateView,
    tokens: Seq<u32>,
    more: u32,
)
    requires
        state.well_formed(),
        tokens.len() > 0,
    ensures
        ({
            let at_once = layer_by_layer(
                kernels,
                state.position as int,
                state.attention,
                tokens,
            );
            let one_by_one = token_by_token(
                kernels,
                state.position as int,
                state.attention,
                tokens,
                tokens.len(),
            );
            &&& at_once == one_by_one
            &&& at_once.position == state.position + tokens.len()
            &&& runtime::values_cached(at_once.caches) == runtime::values_cached(
                one_by_one.caches,
            )
            &&& after_token(kernels, at_once.position, at_once.caches, more) == after_token(
                kernels,
                one_by_one.position,
                one_by_one.caches,
                more,
            )
        }),
{
    let caches = state.attention;
    assert forall|i: int| 0 <= i < caches.len() implies (#[trigger] caches[i]).local.len() > 0 by {
        assert(caches[i].well_formed());
    }
    let position = state.position as int;
    lemma_prompt_pass(kernels, tokens, caches, caches.len());
    lemma_token_by_token(kernels, position, caches, tokens, tokens.len());
    let at_once = layer_by_layer(kernels, position, caches, tokens);
    let one_by_one = token_by_token(kernels, position, caches, tokens, tokens.len());
    assert(at_once.caches =~= one_by_one.caches);
    assert(at_once.routes =~= one_by_one.routes);
    assert(at_once =~= one_by_one);
}

proof fn lemma_stray(tokens: Seq<u32>, vocabulary: usize)
    ensures
        runtime::stray_token(tokens, vocabulary) is None <==> forall|i: int|
            0 <= i < tokens.len() ==> (#[trigger] tokens[i]) < vocabulary,
    decreases tokens.len(),
{
    if tokens.len() > 0 {
        let front = tokens.drop_last();
        lemma_stray(front, vocabulary);
        assert(tokens.last() == tokens[tokens.len() - 1]);
        if forall|i: int| 0 <= i < tokens.len() ==> (#[trigger] tokens[i]) < vocabulary {
            assert forall|i: int| 0 <= i < front.len() implies (#[trigger] front[i])
                < vocabulary by {
                assert(front[i] == tokens[i]);
            }
        }
        if forall|i: int| 0 <= i < front.len() ==> (#[trigger] front[i]) < vocabulary {
            assert forall|i: int| 0 <= i < front.len() implies (#[trigger] tokens[i])
                < vocabulary by {
                assert(front[i] == tokens[i]);
            }
        }
    }
}

/// A prompt is accepted at once exactly where its tokens are accepted one after the other.
pub proof fn a_prompt_is_accepted_where_its_tokens_are(
    model: ModelView,
    state: StateView,
    tokens: Seq<u32>,
)
    requires
        tokens.len() > 0,
        state.position + tokens.len() <= usize::MAX,
    ensures
        runtime::prefill_problem(model, state, tokens) is None <==> forall|i: int|
            0 <= i < tokens.len() ==> runtime::token_problem(
                model,
                (StateView { position: (state.position + i) as usize, ..state }),
                #[trigger] tokens[i],
            ) is None,
{
    lemma_stray(tokens, model.config.vocab_size);
    let one_by_one = forall|i: int|
        0 <= i < tokens.len() ==> runtime::token_problem(
            model,
            (StateView { position: (state.position + i) as usize, ..state }),
            #[trigger] tokens[i],
        ) is None;
    if one_by_one {
        let last = tokens.len() - 1;
        assert(runtime::token_problem(
            model,
            (StateView { position: (state.position + last) as usize, ..state }),
            tokens[last],
        ) is None);
    }
}

/// A compressor that accepts a position, and its entry where one is due, stands as a token is said
/// to leave it.
pub proof fn accepted_positions_are_written(
    part: Option<CompressorView>,
    weights: Option<CompressorWeights>,
    prepared: Option<PreparedCompressor>,
    disagreement: Seq<char>,
    position: usize,
    entry: spec_fn(CompressorView) -> Seq<u32>,
)
    requires
        attention::part_after(part, weights, prepared, disagreement) is Ok,
    ensures
        match (part, weights, prepared) {
            (Some(state), Some(weights), Some(prepared)) => {
                let behind = attention::part_after(
                    part,
                    Some(weights),
                    Some(prepared),
                    disagreement,
                )->Ok_0->Some_0;
                part_written(part, position, prepared.kv@, prepared.score@, entry) == Some(
                    if attention::group_start(weights.ratio, position) is Some {
                        behind.after_emission(entry(behind))
                    } else {
                        behind
                    },
                )
            },
            _ => forall|kv: Seq<u32>, score: Seq<u32>|
                #[trigger] part_written(part, position, kv, score, entry) is None,
        },
{
}

} // verus!
