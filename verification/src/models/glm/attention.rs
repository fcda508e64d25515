//! Multi-head latent attention of GLM: its geometry, the shapes of its weights, and the compressed
//! cache of one layer.
//!
//! A token keeps one latent row and one rotary key that all heads share.

use crate::bits::Float32;
use crate::models::deepseek_v4::math;
use crate::models::deepseek_v4::math::are_finite;
use crate::text;
use crate::text::push_decimal;
use std::collections::TryReserveError;
use vstd::prelude::*;
use vstd::slice::slice_subrange;
use vstd::string::*;

verus! {

/// How a token attends to the cache. Both ways give the same values but for rounding.
#[derive(Debug, Clone, Copy, PartialEq, Eq, Structural)]
pub enum AttentionMode {
    DenseReconstruction,
    Absorbed,
}

#[derive(Debug)]
pub enum AttentionError {
    InvalidGeometry(String),
    InvalidShape(String),
    Allocation(String),
    CacheGeometry {
        expected_latent: usize,
        expected_rope: usize,
        got_latent: usize,
        got_rope: usize,
    },
    CachePosition { expected: usize, got: usize },
}

/// The same error, over plain values.
pub enum AttentionProblem {
    InvalidGeometry(Seq<char>),
    InvalidShape(Seq<char>),
    Allocation(Seq<char>),
    CacheGeometry {
        expected_latent: usize,
        expected_rope: usize,
        got_latent: usize,
        got_rope: usize,
    },
    CachePosition { expected: usize, got: usize },
}

impl View for AttentionError {
    type V = AttentionProblem;

    open spec fn view(&self) -> AttentionProblem {
        match *self {
            AttentionError::InvalidGeometry(reason) => AttentionProblem::InvalidGeometry(reason@),
            AttentionError::InvalidShape(reason) => AttentionProblem::InvalidShape(reason@),
            AttentionError::Allocation(reason) => AttentionProblem::Allocation(reason@),
            AttentionError::CacheGeometry {
                expected_latent,
                expected_rope,
                got_latent,
                got_rope,
            } => AttentionProblem::CacheGeometry {
                expected_latent,
                expected_rope,
                got_latent,
                got_rope,
            },
            AttentionError::CachePosition { expected, got } => AttentionProblem::CachePosition {
                expected,
                got,
            },
        }
    }
}

impl AttentionProblem {
    /// The error as text.
    pub open spec fn text(self) -> Seq<char> {
        match self {
            AttentionProblem::InvalidGeometry(reason) => "invalid MLA geometry: "@ + reason,
            AttentionProblem::InvalidShape(reason) => "invalid MLA shape: "@ + reason,
            AttentionProblem::Allocation(reason) => "cannot allocate MLA cache: "@ + reason,
            AttentionProblem::CacheGeometry {
                expected_latent,
                expected_rope,
                got_latent,
                got_rope,
            } => "MLA cache geometry ["@ + text::decimal(got_latent as nat) + ", "@
                + text::decimal(got_rope as nat) + "] does not match ["@ + text::decimal(
                expected_latent as nat,
            ) + ", "@ + text::decimal(expected_rope as nat) + "]"@,
            AttentionProblem::CachePosition { expected, got } => "MLA cache expected position "@
                + text::decimal(expected as nat) + ", got "@ + text::decimal(got as nat),
        }
    }
}

impl AttentionError {
    pub fn message(&self) -> (message: String)
        ensures
            message@ == self@.text(),
    {
        match self {
            AttentionError::InvalidGeometry(reason) => {
                let mut message = "invalid MLA geometry: ".to_owned();
                message.append(reason.as_str());
                message
            },
            AttentionError::InvalidShape(reason) => {
                let mut message = "invalid MLA shape: ".to_owned();
                message.append(reason.as_str());
                message
            },
            AttentionError::Allocation(reason) => {
                let mut message = "cannot allocate MLA cache: ".to_owned();
                message.append(reason.as_str());
                message
            },
            AttentionError::CacheGeometry {
                expected_latent,
                expected_rope,
                got_latent,
                got_rope,
            } => {
                let mut message = "MLA cache geometry [".to_owned();
                push_decimal(&mut message, *got_latent as u64);
                message.append(", ");
                push_decimal(&mut message, *got_rope as u64);
                message.append("] does not match [");
                push_decimal(&mut message, *expected_latent as u64);
                message.append(", ");
                push_decimal(&mut message, *expected_rope as u64);
                message.append("]");
                message
            },
            AttentionError::CachePosition { expected, got } => {
                let mut message = "MLA cache expected position ".to_owned();
                push_decimal(&mut message, *expected as u64);
                message.append(", got ");
                push_decimal(&mut message, *got as u64);
                message
            },
        }
    }
}

pub open spec fn problem<T>(result: Result<T, AttentionError>) -> Option<AttentionProblem> {
    match result {
        Ok(_) => None,
        Err(error) => Some(error@),
    }
}

pub open spec fn first(earlier: Option<AttentionProblem>, later: Option<AttentionProblem>) -> (
    Option<AttentionProblem>
) {
    if earlier is Some {
        earlier
    } else {
        later
    }
}

pub open spec fn geometry_if(broken: bool, reason: Seq<char>) -> Option<AttentionProblem> {
    if broken {
        Some(AttentionProblem::InvalidGeometry(reason))
    } else {
        None
    }
}

fn bad_geometry<T>(reason: &str) -> (result: Result<T, AttentionError>)
    ensures
        problem(result) == Some(AttentionProblem::InvalidGeometry(reason@)),
{
    Err(AttentionError::InvalidGeometry(reason.to_owned()))
}

/// The product of two dimensions is no number of the machine.
pub open spec fn product_problem(name: Seq<char>, a: int, b: int) -> Option<AttentionProblem> {
    geometry_if(
        a * b > usize::MAX,
        name + " dimensions overflow: ["@ + text::decimal(a as nat) + ", "@ + text::decimal(
            b as nat,
        ) + "]"@,
    )
}

fn checked_product(name: &str, a: usize, b: usize) -> (result: Result<usize, AttentionError>)
    ensures
        problem(result) == product_problem(name@, a as int, b as int),
        result matches Ok(product) ==> product == a * b,
{
    match a.checked_mul(b) {
        Some(product) => Ok(product),
        None => {
            let mut reason = name.to_owned();
            reason.append(" dimensions overflow: [");
            push_decimal(&mut reason, a as u64);
            reason.append(", ");
            push_decimal(&mut reason, b as u64);
            reason.append("]");
            Err(AttentionError::InvalidGeometry(reason))
        },
    }
}

#[derive(Debug, Clone, Copy, PartialEq, Eq, Structural)]
pub struct MlaGeometry {
    pub hidden_size: usize,
    pub num_heads: usize,
    pub q_lora_rank: usize,
    pub kv_lora_rank: usize,
    pub qk_nope_head_dim: usize,
    pub qk_rope_head_dim: usize,
    pub v_head_dim: usize,
    /// Epsilon of the two internal norms of latent rows; the norms of the block have their own.
    pub latent_norm_eps: Float32,
    pub rope_theta: Float32,
}

impl MlaGeometry {
    pub open spec fn q_head(self) -> int {
        self.qk_nope_head_dim + self.qk_rope_head_dim
    }

    pub open spec fn kv_head(self) -> int {
        self.qk_nope_head_dim + self.v_head_dim
    }

    pub open spec fn compressed(self) -> int {
        self.kv_lora_rank + self.qk_rope_head_dim
    }

    /// Why there is no attention of this geometry.
    pub open spec fn refusal(self) -> Option<AttentionProblem> {
        first(
            geometry_if(
                self.hidden_size == 0 || self.num_heads == 0 || self.q_lora_rank == 0
                    || self.kv_lora_rank == 0 || self.qk_nope_head_dim == 0
                    || self.qk_rope_head_dim == 0 || self.v_head_dim == 0,
                "all MLA dimensions must be non-zero"@,
            ),
            first(
                geometry_if(
                    self.qk_rope_head_dim % 2 != 0,
                    "rotary head dimension must be even"@,
                ),
                first(
                    geometry_if(
                        !self.latent_norm_eps.positive_finite(),
                        "RMSNorm epsilon must be finite and positive"@,
                    ),
                    first(
                        geometry_if(
                            !self.rope_theta.positive_finite(),
                            "RoPE theta must be finite and positive"@,
                        ),
                        self.width_problem(),
                    ),
                ),
            ),
        )
    }

    /// Why the projections have no width.
    pub open spec fn width_problem(self) -> Option<AttentionProblem> {
        first(
            geometry_if(self.q_head() > usize::MAX, "Q head dimension overflows"@),
            first(
                product_problem("query projection"@, self.num_heads as int, self.q_head()),
                first(
                    geometry_if(self.kv_head() > usize::MAX, "KV head dimension overflows"@),
                    first(
                        product_problem(
                            "KV reconstruction"@,
                            self.num_heads as int,
                            self.kv_head(),
                        ),
                        product_problem(
                            "attention context"@,
                            self.num_heads as int,
                            self.v_head_dim as int,
                        ),
                    ),
                ),
            ),
        )
    }

    /// The width of one head of a query.
    pub fn q_head_dim(self) -> (result: Result<usize, AttentionError>)
        ensures
            problem(result) == geometry_if(
                self.q_head() > usize::MAX,
                "Q head dimension overflows"@,
            ),
            result matches Ok(width) ==> width == self.q_head(),
    {
        match self.qk_nope_head_dim.checked_add(self.qk_rope_head_dim) {
            Some(width) => Ok(width),
            None => bad_geometry("Q head dimension overflows"),
        }
    }

    fn kv_head_dim(self) -> (result: Result<usize, AttentionError>)
        ensures
            problem(result) == geometry_if(
                self.kv_head() > usize::MAX,
                "KV head dimension overflows"@,
            ),
            result matches Ok(width) ==> width == self.kv_head(),
    {
        match self.qk_nope_head_dim.checked_add(self.v_head_dim) {
            Some(width) => Ok(width),
            None => bad_geometry("KV head dimension overflows"),
        }
    }

    /// How many values the cache keeps of a token.
    pub fn compressed_elements_per_token(self) -> (result: Result<usize, AttentionError>)
        ensures
            problem(result) == geometry_if(
                self.compressed() > usize::MAX,
                "compressed KV elements per token overflows"@,
            ),
            result matches Ok(width) ==> width == self.compressed(),
    {
        match self.kv_lora_rank.checked_add(self.qk_rope_head_dim) {
            Some(width) => Ok(width),
            None => bad_geometry("compressed KV elements per token overflows"),
        }
    }

    pub fn validate(self) -> (result: Result<(), AttentionError>)
        ensures
            problem(result) == self.refusal(),
    {
        if self.hidden_size == 0 || self.num_heads == 0 || self.q_lora_rank == 0
            || self.kv_lora_rank == 0 || self.qk_nope_head_dim == 0 || self.qk_rope_head_dim == 0
            || self.v_head_dim == 0 {
            return bad_geometry("all MLA dimensions must be non-zero");
        }
        if self.qk_rope_head_dim % 2 != 0 {
            return bad_geometry("rotary head dimension must be even");
        }
        if !self.latent_norm_eps.is_positive_finite() {
            return bad_geometry("RMSNorm epsilon must be finite and positive");
        }
        if !self.rope_theta.is_positive_finite() {
            return bad_geometry("RoPE theta must be finite and positive");
        }
        let q_head: usize = self.q_head_dim()?;
        checked_product("query projection", self.num_heads, q_head)?;
        let kv_head: usize = self.kv_head_dim()?;
        checked_product("KV reconstruction", self.num_heads, kv_head)?;
        checked_product("attention context", self.num_heads, self.v_head_dim)?;
        Ok(())
    }
}

/// The rows and columns of a matrix.
#[derive(Debug, Clone, Copy, PartialEq, Eq, Structural)]
pub struct MatrixShape {
    pub rows: usize,
    pub cols: usize,
}

pub open spec fn matrix_problem(name: Seq<char>, shape: MatrixShape, rows: int, cols: int) -> (
    Option<AttentionProblem>
) {
    if shape.rows != rows || shape.cols != cols {
        Some(
            AttentionProblem::InvalidShape(
                name + " must be ["@ + text::decimal(rows as nat) + ", "@ + text::decimal(
                    cols as nat,
                ) + "], got ["@ + text::decimal(shape.rows as nat) + ", "@ + text::decimal(
                    shape.cols as nat,
                ) + "]"@,
            ),
        )
    } else {
        None
    }
}

fn expect_matrix(name: &str, shape: MatrixShape, rows: usize, cols: usize) -> (result: Result<
    (),
    AttentionError,
>)
    ensures
        problem(result) == matrix_problem(name@, shape, rows as int, cols as int),
{
    if shape.rows != rows || shape.cols != cols {
        let mut reason = name.to_owned();
        reason.append(" must be [");
        push_decimal(&mut reason, rows as u64);
        reason.append(", ");
        push_decimal(&mut reason, cols as u64);
        reason.append("], got [");
        push_decimal(&mut reason, shape.rows as u64);
        reason.append(", ");
        push_decimal(&mut reason, shape.cols as u64);
        reason.append("]");
        return Err(AttentionError::InvalidShape(reason));
    }
    Ok(())
}

pub open spec fn vector_problem(name: Seq<char>, vector: Seq<u32>, length: usize) -> Option<
    AttentionProblem,
> {
    if vector.len() != length {
        Some(
            AttentionProblem::InvalidShape(
                name + " must have "@ + text::decimal(length as nat) + " values, got "@
                    + text::decimal(vector.len()),
            ),
        )
    } else if !math::all_finite(vector) {
        Some(AttentionProblem::InvalidShape(name + " contains NaN or infinity"@))
    } else {
        None
    }
}

fn expect_vector(name: &str, vector: &Vec<u32>, length: usize) -> (result: Result<
    (),
    AttentionError,
>)
    ensures
        problem(result) == vector_problem(name@, vector@, length),
{
    if vector.len() != length {
        let mut reason = name.to_owned();
        reason.append(" must have ");
        push_decimal(&mut reason, length as u64);
        reason.append(" values, got ");
        push_decimal(&mut reason, vector.len() as u64);
        return Err(AttentionError::InvalidShape(reason));
    }
    if !are_finite(vector.as_slice()) {
        let mut reason = name.to_owned();
        reason.append(" contains NaN or infinity");
        return Err(AttentionError::InvalidShape(reason));
    }
    Ok(())
}

/// What the attention looks at of its weights: the shapes of its matrices and the values of its
/// norms.
#[derive(Debug)]
pub struct MlaWeights {
    pub q_a: MatrixShape,
    pub q_a_norm: Vec<u32>,
    pub q_b: MatrixShape,
    pub kv_a: MatrixShape,
    pub kv_a_norm: Vec<u32>,
    pub kv_b: MatrixShape,
    pub output: MatrixShape,
}

impl MlaGeometry {
    /// Why weights do not fit the geometry.
    pub open spec fn weights_problem(self, weights: MlaWeights) -> Option<AttentionProblem> {
        first(
            matrix_problem(
                "q_a"@,
                weights.q_a,
                self.q_lora_rank as int,
                self.hidden_size as int,
            ),
            first(
                vector_problem("q_a_norm"@, weights.q_a_norm@, self.q_lora_rank),
                first(
                    matrix_problem(
                        "q_b"@,
                        weights.q_b,
                        self.num_heads * self.q_head(),
                        self.q_lora_rank as int,
                    ),
                    first(
                        matrix_problem(
                            "kv_a"@,
                            weights.kv_a,
                            self.compressed(),
                            self.hidden_size as int,
                        ),
                        first(
                            vector_problem("kv_a_norm"@, weights.kv_a_norm@, self.kv_lora_rank),
                            first(
                                matrix_problem(
                                    "kv_b"@,
                                    weights.kv_b,
                                    self.num_heads * self.kv_head(),
                                    self.kv_lora_rank as int,
                                ),
                                matrix_problem(
                                    "output"@,
                                    weights.output,
                                    self.hidden_size as int,
                                    self.num_heads * self.v_head_dim,
                                ),
                            ),
                        ),
                    ),
                ),
            ),
        )
    }
}

/// One layer's attention, but for the values of its matrices.
#[derive(Debug, Clone)]
pub struct MlaAttention {
    pub geometry: MlaGeometry,
}

/// One layer's compressed cache: a latent row and a rotary key of each token.
#[derive(Debug, Clone)]
pub struct MlaCache {
    kv_lora_rank: usize,
    rope_dim: usize,
    latent: Vec<u32>,
    rope: Vec<u32>,
}

/// What an [`MlaCache`] holds. The rows stand one behind the other.
#[verifier::ext_equal]
pub struct CacheView {
    pub kv_lora_rank: usize,
    pub rope_dim: usize,
    pub latent: Seq<u32>,
    pub rope: Seq<u32>,
}

impl View for MlaCache {
    type V = CacheView;

    closed spec fn view(&self) -> CacheView {
        CacheView {
            kv_lora_rank: self.kv_lora_rank,
            rope_dim: self.rope_dim,
            latent: self.latent@,
            rope: self.rope@,
        }
    }
}

impl CacheView {
    pub open spec fn fresh(kv_lora_rank: usize, rope_dim: usize) -> CacheView {
        CacheView { kv_lora_rank, rope_dim, latent: Seq::empty(), rope: Seq::empty() }
    }

    /// How many tokens there are.
    pub open spec fn tokens(self) -> int {
        self.latent.len() as int / self.kv_lora_rank as int
    }

    /// Every token has a whole latent row and a whole rotary key.
    pub open spec fn well_formed(self) -> bool {
        &&& self.kv_lora_rank > 0
        &&& self.rope_dim > 0
        &&& self.latent.len() == self.tokens() * self.kv_lora_rank
        &&& self.rope.len() == self.tokens() * self.rope_dim
    }

    /// The cache with one token more.
    pub open spec fn pushed(self, latent: Seq<u32>, rope: Seq<u32>) -> CacheView {
        CacheView { latent: self.latent + latent, rope: self.rope + rope, ..self }
    }

    /// The cache with only its first `tokens` tokens.
    pub open spec fn truncated(self, tokens: int) -> CacheView {
        CacheView {
            latent: self.latent.take(tokens * self.kv_lora_rank),
            rope: self.rope.take(tokens * self.rope_dim),
            ..self
        }
    }

    /// The latent row of a token.
    pub open spec fn latent_row(self, position: int) -> Seq<u32> {
        self.latent.subrange(
            position * self.kv_lora_rank,
            position * self.kv_lora_rank + self.kv_lora_rank,
        )
    }

    /// The rotary key of a token.
    pub open spec fn rope_row(self, position: int) -> Seq<u32> {
        self.rope.subrange(
            position * self.rope_dim,
            position * self.rope_dim + self.rope_dim,
        )
    }
}

proof fn lemma_whole(tokens: int, width: int)
    requires
        tokens >= 0,
        width > 0,
    ensures
        (tokens * width) / width == tokens,
        tokens * width >= 0,
{
    vstd::arithmetic::div_mod::lemma_div_multiples_vanish(tokens, width);
    vstd::arithmetic::mul::lemma_mul_is_commutative(tokens, width);
    assert(tokens * width >= 0) by (nonlinear_arith)
        requires
            tokens >= 0,
            width > 0,
    ;
}

/// A push adds one token, whose rows are the new ones, and leaves the rows before it.
pub proof fn a_push_adds_one_token(
    cache: CacheView,
    latent: Seq<u32>,
    rope: Seq<u32>,
    position: int,
)
    requires
        cache.well_formed(),
        latent.len() == cache.kv_lora_rank,
        rope.len() == cache.rope_dim,
        0 <= position <= cache.tokens(),
    ensures
        ({
            let next = cache.pushed(latent, rope);
            &&& next.well_formed()
            &&& next.tokens() == cache.tokens() + 1
            &&& position < cache.tokens() ==> next.latent_row(position) == cache.latent_row(
                position,
            ) && next.rope_row(position) == cache.rope_row(position)
            &&& position == cache.tokens() ==> next.latent_row(position) == latent
                && next.rope_row(position) == rope
        }),
{
    let next = cache.pushed(latent, rope);
    let tokens = cache.tokens();
    let rank = cache.kv_lora_rank as int;
    let width = cache.rope_dim as int;
    assert(tokens >= 0) by {
        vstd::arithmetic::div_mod::lemma_div_pos_is_pos(cache.latent.len() as int, rank);
    }
    assert((tokens + 1) * rank == tokens * rank + rank) by (nonlinear_arith);
    assert((tokens + 1) * width == tokens * width + width) by (nonlinear_arith);
    lemma_whole(tokens + 1, rank);
    if position < tokens {
        assert(position * rank + rank <= tokens * rank) by (nonlinear_arith)
            requires
                position + 1 <= tokens,
                rank > 0,
        ;
        assert(position * width + width <= tokens * width) by (nonlinear_arith)
            requires
                position + 1 <= tokens,
                width > 0,
        ;
        assert(position * rank >= 0 && position * width >= 0) by (nonlinear_arith)
            requires
                position >= 0,
                rank > 0,
                width > 0,
        ;
        assert(next.latent_row(position) =~= cache.latent_row(position));
        assert(next.rope_row(position) =~= cache.rope_row(position));
    } else {
        assert(next.latent_row(position) =~= latent);
        assert(next.rope_row(position) =~= rope);
    }
}

proof fn lemma_truncated(cache: CacheView, tokens: int)
    requires
        cache.well_formed(),
        0 <= tokens <= cache.tokens(),
    ensures
        cache.truncated(tokens).well_formed(),
        cache.truncated(tokens).tokens() == tokens,
        0 <= tokens * cache.kv_lora_rank <= cache.latent.len(),
        0 <= tokens * cache.rope_dim <= cache.rope.len(),
{
    let rank = cache.kv_lora_rank as int;
    let width = cache.rope_dim as int;
    let all = cache.tokens();
    assert(0 <= tokens * rank <= all * rank && 0 <= tokens * width <= all * width)
        by (nonlinear_arith)
        requires
            0 <= tokens <= all,
            rank > 0,
            width > 0,
    ;
    lemma_whole(tokens, rank);
}

/// Going back to the tokens that there were undoes a push.
pub proof fn truncation_undoes_a_push(cache: CacheView, latent: Seq<u32>, rope: Seq<u32>)
    requires
        cache.well_formed(),
        latent.len() == cache.kv_lora_rank,
        rope.len() == cache.rope_dim,
    ensures
        cache.pushed(latent, rope).truncated(cache.tokens()) == cache,
{
    let back = cache.pushed(latent, rope).truncated(cache.tokens());
    assert(back.latent =~= cache.latent);
    assert(back.rope =~= cache.rope);
}

/// Calls `Vec::try_reserve_exact`. It leaves the values of the list as they are, has nothing to
/// refuse where no more room is asked for, and refuses values that take more than `isize::MAX` bytes,
/// which no list holds. Whether it finds other room depends on the machine, and nothing is stated of
/// that.
#[verifier::external_body]
fn try_room(list: &mut Vec<u32>, additional: usize) -> (result: Result<(), TryReserveError>)
    ensures
        final(list)@ == old(list)@,
        additional == 0 ==> result is Ok,
        additional > isize::MAX / 4 ==> result is Err,
{
    list.try_reserve_exact(additional)
}

/// The text of a refused reservation, as its `Display` gives it. Nothing is stated of the words.
#[verifier::external_body]
fn describe(error: &TryReserveError) -> (text: String) {
    format!("{}", error)
}

/// An empty list with room for so many values, or why there is none.
fn reserve(count: usize) -> (reservation: Result<Vec<u32>, String>)
    ensures
        reservation matches Ok(list) ==> list@ == Seq::<u32>::empty(),
        count == 0 ==> reservation is Ok,
        count > isize::MAX / 4 ==> reservation is Err,
{
    let mut list: Vec<u32> = Vec::new();
    match try_room(&mut list, count) {
        Ok(_) => Ok(list),
        Err(error) => Err(describe(&error)),
    }
}

/// Why there is no reservation, if there is none.
pub open spec fn reservation_refusal(reservation: Result<Vec<u32>, String>) -> Option<Seq<char>> {
    match reservation {
        Ok(_) => None,
        Err(reason) => Some(reason@),
    }
}

/// What is said of values for which no room was found.
pub open spec fn no_room_message(count: usize, name: Seq<char>, reason: Seq<char>) -> Seq<char> {
    text::decimal(count as nat) + " "@ + name + " values: "@ + reason
}

/// Takes the list that was reserved for so many values of a kind, or refuses with the reason that
/// there is none.
pub fn take_reservation(
    count: usize,
    name: &str,
    reservation: Result<Vec<u32>, String>,
) -> (result: Result<Vec<u32>, AttentionError>)
    ensures
        match reservation {
            Ok(list) => result == Ok::<Vec<u32>, AttentionError>(list),
            Err(reason) => problem(result) == Some(
                AttentionProblem::Allocation(no_room_message(count, name@, reason@)),
            ),
        },
{
    match reservation {
        Ok(list) => Ok(list),
        Err(reason) => {
            let mut text = String::new();
            push_decimal(&mut text, count as u64);
            text.append(" ");
            text.append(name);
            text.append(" values: ");
            text.append(reason.as_str());
            Err(AttentionError::Allocation(text))
        },
    }
}

impl MlaCache {
    pub fn new(kv_lora_rank: usize, rope_dim: usize) -> (result: Result<Self, AttentionError>)
        ensures
            problem(result) == geometry_if(
                kv_lora_rank == 0 || rope_dim == 0,
                "cache dimensions must be non-zero"@,
            ),
            result matches Ok(cache) ==> cache@ == CacheView::fresh(kv_lora_rank, rope_dim)
                && cache@.well_formed(),
    {
        proof {
            assert(kv_lora_rank * 0 == 0 && rope_dim * 0 == 0);
        }
        MlaCache::with_capacity(kv_lora_rank, rope_dim, 0)
    }

    /// Why there is no cache for so many tokens.
    pub open spec fn capacity_problem(kv_lora_rank: usize, rope_dim: usize, tokens: usize) -> (
        Option<AttentionProblem>
    ) {
        if kv_lora_rank == 0 || rope_dim == 0 {
            Some(AttentionProblem::InvalidGeometry("cache dimensions must be non-zero"@))
        } else if kv_lora_rank * tokens > usize::MAX {
            Some(AttentionProblem::Allocation("latent capacity overflows usize"@))
        } else if rope_dim * tokens > usize::MAX {
            Some(AttentionProblem::Allocation("rotary capacity overflows usize"@))
        } else {
            None
        }
    }

    /// The same, with what the machine says of room for the latent rows and for the rotary keys,
    /// where it finds none.
    pub open spec fn reserved_problem(
        kv_lora_rank: usize,
        rope_dim: usize,
        tokens: usize,
        latent: Option<Seq<char>>,
        rope: Option<Seq<char>>,
    ) -> Option<AttentionProblem> {
        if Self::capacity_problem(kv_lora_rank, rope_dim, tokens) is Some {
            Self::capacity_problem(kv_lora_rank, rope_dim, tokens)
        } else if latent is Some {
            Some(
                AttentionProblem::Allocation(
                    no_room_message((kv_lora_rank * tokens) as usize, "latent"@, latent->0),
                ),
            )
        } else if rope is Some {
            Some(
                AttentionProblem::Allocation(
                    no_room_message((rope_dim * tokens) as usize, "rotary"@, rope->0),
                ),
            )
        } else {
            None
        }
    }

    /// How many latent values and how many rotary values so many tokens have.
    pub fn capacities(kv_lora_rank: usize, rope_dim: usize, tokens: usize) -> (result: Result<
        (usize, usize),
        AttentionError,
    >)
        ensures
            problem(result) == Self::capacity_problem(kv_lora_rank, rope_dim, tokens),
            result matches Ok((latent, rope)) ==> latent == kv_lora_rank * tokens && rope
                == rope_dim * tokens,
    {
        if kv_lora_rank == 0 || rope_dim == 0 {
            return bad_geometry("cache dimensions must be non-zero");
        }
        let latent: usize = match kv_lora_rank.checked_mul(tokens) {
            Some(capacity) => capacity,
            None => {
                return Err(
                    AttentionError::Allocation("latent capacity overflows usize".to_owned()),
                );
            },
        };
        match rope_dim.checked_mul(tokens) {
            Some(rope) => Ok((latent, rope)),
            None => Err(AttentionError::Allocation("rotary capacity overflows usize".to_owned())),
        }
    }

    /// Values of so many tokens take more bytes than a list can hold on any machine.
    pub open spec fn never_fits(kv_lora_rank: usize, rope_dim: usize, tokens: usize) -> bool {
        kv_lora_rank * tokens > isize::MAX / 4 || rope_dim * tokens > isize::MAX / 4
    }

    /// An empty cache with room for so many tokens. Whether there is room is for the machine to
    /// say, but for no tokens there is always, and for more than a list can hold there is never.
    pub fn with_capacity(kv_lora_rank: usize, rope_dim: usize, tokens: usize) -> (result: Result<
        Self,
        AttentionError,
    >)
        ensures
            exists|latent: Option<Seq<char>>, rope: Option<Seq<char>>|
                problem(result) == #[trigger] Self::reserved_problem(
                    kv_lora_rank,
                    rope_dim,
                    tokens,
                    latent,
                    rope,
                ),
            tokens == 0 ==> problem(result) == Self::capacity_problem(
                kv_lora_rank,
                rope_dim,
                tokens,
            ),
            Self::never_fits(kv_lora_rank, rope_dim, tokens) ==> result is Err,
            result matches Ok(cache) ==> cache@ == CacheView::fresh(kv_lora_rank, rope_dim)
                && cache@.well_formed(),
    {
        let ghost none: Option<Seq<char>> = None;
        assert(Self::reserved_problem(kv_lora_rank, rope_dim, tokens, none, none)
            == Self::capacity_problem(kv_lora_rank, rope_dim, tokens));
        let (latent_capacity, rope_capacity) = Self::capacities(kv_lora_rank, rope_dim, tokens)?;
        assert(tokens == 0 ==> kv_lora_rank * tokens == 0 && rope_dim * tokens == 0)
            by (nonlinear_arith);
        let reservation = reserve(latent_capacity);
        let ghost refusal = reservation_refusal(reservation);
        assert(refusal is Some ==> Self::reserved_problem(
            kv_lora_rank,
            rope_dim,
            tokens,
            refusal,
            none,
        ) is Some);
        let latent = take_reservation(latent_capacity, "latent", reservation)?;
        let reservation = reserve(rope_capacity);
        let ghost refusal = reservation_refusal(reservation);
        assert(refusal is Some ==> Self::reserved_problem(
            kv_lora_rank,
            rope_dim,
            tokens,
            none,
            refusal,
        ) is Some);
        let rope = take_reservation(rope_capacity, "rotary", reservation)?;
        let cache = MlaCache { kv_lora_rank, rope_dim, latent, rope };
        proof {
            lemma_whole(0, kv_lora_rank as int);
            assert(0 * kv_lora_rank == 0 && 0 * rope_dim == 0);
        }
        Ok(cache)
    }

    /// How many tokens there are.
    pub fn len(&self) -> (tokens: usize)
        requires
            self@.well_formed(),
        ensures
            tokens == self@.tokens(),
    {
        self.latent.len() / self.kv_lora_rank
    }

    pub fn is_empty(&self) -> (empty: bool)
        requires
            self@.well_formed(),
        ensures
            empty == (self@.tokens() == 0),
    {
        proof {
            let rank = self.kv_lora_rank as int;
            if self@.tokens() == 0 {
                assert(0 * rank == 0);
            } else if self.latent@.len() == 0 {
                vstd::arithmetic::div_mod::lemma_div_basics(rank);
            }
        }
        self.latent.len() == 0
    }

    /// How many values there are: for each token its latent row and its rotary key.
    pub fn stored_f32_elements(&self) -> (count: usize)
        requires
            self@.well_formed(),
        ensures
            count == (if self@.tokens() * (self@.kv_lora_rank + self@.rope_dim) > usize::MAX {
                usize::MAX as int
            } else {
                self@.tokens() * (self@.kv_lora_rank + self@.rope_dim)
            }),
    {
        proof {
            let tokens = self@.tokens();
            let rank = self.kv_lora_rank as int;
            let width = self.rope_dim as int;
            assert(tokens * (rank + width) == tokens * rank + tokens * width) by (nonlinear_arith);
        }
        self.latent.len().saturating_add(self.rope.len())
    }

    pub fn clear(&mut self)
        requires
            old(self)@.well_formed(),
        ensures
            final(self)@ == CacheView::fresh(old(self)@.kv_lora_rank, old(self)@.rope_dim),
            final(self)@.well_formed(),
    {
        self.latent.clear();
        self.rope.clear();
        proof {
            lemma_whole(0, self.kv_lora_rank as int);
            assert(0 * self.kv_lora_rank == 0 && 0 * self.rope_dim == 0);
            assert(self@ =~= CacheView::fresh(self.kv_lora_rank, self.rope_dim));
        }
    }

    /// Drops the tokens behind the first `tokens`.
    pub fn truncate(&mut self, tokens: usize) -> (result: Result<(), AttentionError>)
        requires
            old(self)@.well_formed(),
        ensures
            final(self)@.well_formed(),
            problem(result) == (if tokens > old(self)@.tokens() {
                Some(
                    AttentionProblem::CachePosition {
                        expected: old(self)@.tokens() as usize,
                        got: tokens,
                    },
                )
            } else {
                None
            }),
            final(self)@ == (if result is Ok {
                old(self)@.truncated(tokens as int)
            } else {
                old(self)@
            }),
    {
        if tokens > self.len() {
            return Err(AttentionError::CachePosition { expected: self.len(), got: tokens });
        }
        proof {
            lemma_truncated(self@, tokens as int);
            assert(self.latent.len() == self.latent@.len());
            assert(self.rope.len() == self.rope@.len());
        }
        let ghost before = self@;
        self.latent.truncate(tokens * self.kv_lora_rank);
        self.rope.truncate(tokens * self.rope_dim);
        assert(self@ =~= before.truncated(tokens as int));
        Ok(())
    }

    /// The latent row of a token.
    pub fn latent_row(&self, position: usize) -> (row: &[u32])
        requires
            self@.well_formed(),
            position < self@.tokens(),
        ensures
            row@ == self@.latent_row(position as int),
    {
        let total: usize = self.latent.len();
        proof {
            lemma_truncated(self@, position as int);
            lemma_truncated(self@, position + 1);
            let rank = self.kv_lora_rank as int;
            assert((position + 1) * rank == position * rank + rank) by (nonlinear_arith);
        }
        let start: usize = position * self.kv_lora_rank;
        slice_subrange(self.latent.as_slice(), start, start + self.kv_lora_rank)
    }

    /// The rotary key of a token.
    pub fn rope_row(&self, position: usize) -> (row: &[u32])
        requires
            self@.well_formed(),
            position < self@.tokens(),
        ensures
            row@ == self@.rope_row(position as int),
    {
        let total: usize = self.rope.len();
        proof {
            lemma_truncated(self@, position as int);
            lemma_truncated(self@, position + 1);
            let width = self.rope_dim as int;
            assert((position + 1) * width == position * width + width) by (nonlinear_arith);
        }
        let start: usize = position * self.rope_dim;
        slice_subrange(self.rope.as_slice(), start, start + self.rope_dim)
    }

    /// Appends a token.
    pub fn push(&mut self, latent: &Vec<u32>, rope: &Vec<u32>)
        requires
            old(self)@.well_formed(),
            latent@.len() == old(self)@.kv_lora_rank,
            rope@.len() == old(self)@.rope_dim,
        ensures
            final(self)@ == old(self)@.pushed(latent@, rope@),
            final(self)@.well_formed(),
    {
        let ghost before = self@;
        append_values(&mut self.latent, latent);
        append_values(&mut self.rope, rope);
        proof {
            a_push_adds_one_token(before, latent@, rope@, before.tokens());
        }
    }
}

fn append_values(list: &mut Vec<u32>, more: &Vec<u32>)
    ensures
        final(list)@ == old(list)@ + more@,
{
    let ghost before = list@;
    let mut i: usize = 0;
    assert(before + more@.take(0) =~= before);
    while i < more.len()
        invariant
            i <= more@.len(),
            list@ == before + more@.take(i as int),
        decreases more@.len() - i,
    {
        list.push(more[i]);
        i = i + 1;
        assert(list@ =~= before + more@.take(i as int));
    }
    assert(more@.take(i as int) =~= more@);
}

impl MlaAttention {
    /// Why weights do not make an attention of a geometry.
    pub open spec fn problem_of(geometry: MlaGeometry, weights: MlaWeights) -> Option<
        AttentionProblem,
    > {
        first(
            geometry.refusal(),
            first(
                geometry_if(
                    geometry.compressed() > usize::MAX,
                    "compressed KV elements per token overflows"@,
                ),
                geometry.weights_problem(weights),
            ),
        )
    }

    /// Takes dense weights that fit the geometry.
    pub fn new(geometry: MlaGeometry, weights: &MlaWeights) -> (result: Result<
        Self,
        AttentionError,
    >)
        ensures
            problem(result) == Self::problem_of(geometry, *weights),
            result matches Ok(attention) ==> attention.geometry == geometry,
    {
        MlaAttention::new_mixed(geometry, weights)
    }

    /// Takes weights of any format that fit the geometry.
    pub fn new_mixed(geometry: MlaGeometry, weights: &MlaWeights) -> (result: Result<
        Self,
        AttentionError,
    >)
        ensures
            problem(result) == Self::problem_of(geometry, *weights),
            result matches Ok(attention) ==> attention.geometry == geometry,
    {
        geometry.validate()?;
        let q_head: usize = geometry.q_head_dim()?;
        let q_rows: usize = checked_product("q_b rows", geometry.num_heads, q_head)?;
        let kv_head: usize = geometry.kv_head_dim()?;
        let kv_rows: usize = checked_product("kv_b rows", geometry.num_heads, kv_head)?;
        let context: usize = checked_product(
            "output projection columns",
            geometry.num_heads,
            geometry.v_head_dim,
        )?;
        let compressed: usize = geometry.compressed_elements_per_token()?;
        expect_matrix("q_a", weights.q_a, geometry.q_lora_rank, geometry.hidden_size)?;
        expect_vector("q_a_norm", &weights.q_a_norm, geometry.q_lora_rank)?;
        expect_matrix("q_b", weights.q_b, q_rows, geometry.q_lora_rank)?;
        expect_matrix("kv_a", weights.kv_a, compressed, geometry.hidden_size)?;
        expect_vector("kv_a_norm", &weights.kv_a_norm, geometry.kv_lora_rank)?;
        expect_matrix("kv_b", weights.kv_b, kv_rows, geometry.kv_lora_rank)?;
        expect_matrix("output", weights.output, geometry.hidden_size, context)?;
        Ok(MlaAttention { geometry })
    }

    pub fn geometry(&self) -> (geometry: MlaGeometry)
        ensures
            geometry == self.geometry,
    {
        self.geometry
    }

    pub fn new_cache(&self) -> (result: Result<MlaCache, AttentionError>)
        ensures
            problem(result) == geometry_if(
                self.geometry.kv_lora_rank == 0 || self.geometry.qk_rope_head_dim == 0,
                "cache dimensions must be non-zero"@,
            ),
            result matches Ok(cache) ==> cache@.well_formed() && cache@ == CacheView::fresh(
                self.geometry.kv_lora_rank,
                self.geometry.qk_rope_head_dim,
            ),
    {
        MlaCache::new(self.geometry.kv_lora_rank, self.geometry.qk_rope_head_dim)
    }

    pub fn new_cache_with_capacity(&self, tokens: usize) -> (result: Result<
        MlaCache,
        AttentionError,
    >)
        ensures
            exists|latent: Option<Seq<char>>, rope: Option<Seq<char>>|
                problem(result) == #[trigger] MlaCache::reserved_problem(
                    self.geometry.kv_lora_rank,
                    self.geometry.qk_rope_head_dim,
                    tokens,
                    latent,
                    rope,
                ),
            tokens == 0 ==> problem(result) == MlaCache::capacity_problem(
                self.geometry.kv_lora_rank,
                self.geometry.qk_rope_head_dim,
                tokens,
            ),
            MlaCache::never_fits(
                self.geometry.kv_lora_rank,
                self.geometry.qk_rope_head_dim,
                tokens,
            ) ==> result is Err,
            result matches Ok(cache) ==> cache@.well_formed() && cache@ == CacheView::fresh(
                self.geometry.kv_lora_rank,
                self.geometry.qk_rope_head_dim,
            ),
    {
        MlaCache::with_capacity(
            self.geometry.kv_lora_rank,
            self.geometry.qk_rope_head_dim,
            tokens,
        )
    }

    /// Refuses an input that does not hold the values of so many tokens. The result is how many
    /// values it holds.
    pub fn check_input(&self, length: usize, token_count: usize) -> (result: Result<
        usize,
        AttentionError,
    >)
        ensures
            problem(result) == first(
                product_problem(
                    "attention input"@,
                    token_count as int,
                    self.geometry.hidden_size as int,
                ),
                if length != token_count * self.geometry.hidden_size {
                    Some(
                        AttentionProblem::InvalidShape(
                            "input needs "@ + text::decimal(
                                (token_count * self.geometry.hidden_size) as nat,
                            ) + " values, got "@ + text::decimal(length as nat),
                        ),
                    )
                } else {
                    None
                },
            ),
            result matches Ok(expected) ==> expected == length,
    {
        let expected: usize = checked_product(
            "attention input",
            token_count,
            self.geometry.hidden_size,
        )?;
        if length != expected {
            let mut reason = "input needs ".to_owned();
            push_decimal(&mut reason, expected as u64);
            reason.append(" values, got ");
            push_decimal(&mut reason, length as u64);
            return Err(AttentionError::InvalidShape(reason));
        }
        Ok(expected)
    }

    /// Why a token cannot follow on what the cache holds.
    pub open spec fn token_problem(self, cache: CacheView, position: usize) -> Option<
        AttentionProblem,
    > {
        if cache.kv_lora_rank != self.geometry.kv_lora_rank || cache.rope_dim
            != self.geometry.qk_rope_head_dim {
            Some(
                AttentionProblem::CacheGeometry {
                    expected_latent: self.geometry.kv_lora_rank,
                    expected_rope: self.geometry.qk_rope_head_dim,
                    got_latent: cache.kv_lora_rank,
                    got_rope: cache.rope_dim,
                },
            )
        } else if position != cache.tokens() {
            Some(
                AttentionProblem::CachePosition {
                    expected: cache.tokens() as usize,
                    got: position,
                },
            )
        } else {
            None
        }
    }

    /// Refuses a token that cannot follow on what the cache holds, before anything changes.
    pub fn check_token(&self, cache: &MlaCache, position: usize) -> (result: Result<
        (),
        AttentionError,
    >)
        requires
            cache@.well_formed(),
        ensures
            problem(result) == self.token_problem(cache@, position),
    {
        if cache.kv_lora_rank != self.geometry.kv_lora_rank || cache.rope_dim
            != self.geometry.qk_rope_head_dim {
            return Err(
                AttentionError::CacheGeometry {
                    expected_latent: self.geometry.kv_lora_rank,
                    expected_rope: self.geometry.qk_rope_head_dim,
                    got_latent: cache.kv_lora_rank,
                    got_rope: cache.rope_dim,
                },
            );
        }
        if position != cache.len() {
            return Err(
                AttentionError::CachePosition { expected: cache.len(), got: position },
            );
        }
        Ok(())
    }

    /// Appends the latent row and the rotary key of a token that may follow.
    pub fn append_token(&self, cache: &mut MlaCache, position: usize, compressed: &Vec<u32>) -> (
        result: Result<(), AttentionError>)
        requires
            old(cache)@.well_formed(),
            compressed@.len() == self.geometry.compressed(),
        ensures
            final(cache)@.well_formed(),
            problem(result) == self.token_problem(old(cache)@, position),
            final(cache)@ == (if result is Ok {
                old(cache)@.pushed(
                    compressed@.take(self.geometry.kv_lora_rank as int),
                    compressed@.skip(self.geometry.kv_lora_rank as int),
                )
            } else {
                old(cache)@
            }),
    {
        self.check_token(cache, position)?;
        let total: usize = compressed.len();
        let rank: usize = self.geometry.kv_lora_rank;
        let mut latent: Vec<u32> = Vec::new();
        let mut rope: Vec<u32> = Vec::new();
        let mut i: usize = 0;
        while i < total
            invariant
                total == compressed@.len(),
                rank <= total,
                i <= total,
                latent@ == compressed@.take(if i < rank {
                    i as int
                } else {
                    rank as int
                }),
                rope@ == (if i < rank {
                    Seq::empty()
                } else {
                    compressed@.subrange(rank as int, i as int)
                }),
            decreases total - i,
        {
            if i < rank {
                latent.push(compressed[i]);
            } else {
                rope.push(compressed[i]);
            }
            i = i + 1;
            proof {
                let kept = if i < rank {
                    i as int
                } else {
                    rank as int
                };
                assert(latent@ =~= compressed@.take(kept));
                if i >= rank {
                    assert(rope@ =~= compressed@.subrange(rank as int, i as int));
                }
            }
        }
        assert(rope@ =~= compressed@.skip(rank as int));
        cache.push(&latent, &rope);
        Ok(())
    }
}

/// A geometry is taken exactly where no dimension is zero, the rotary one is even, both scales are
/// positive numbers and the projections can be addressed.
pub proof fn sound_geometries_are_taken(geometry: MlaGeometry)
    ensures
        geometry.refusal() is None <==> {
            let nope = geometry.qk_nope_head_dim as int;
            let rope = geometry.qk_rope_head_dim as int;
            let value = geometry.v_head_dim as int;
            &&& geometry.hidden_size > 0 && geometry.num_heads > 0
            &&& geometry.q_lora_rank > 0 && geometry.kv_lora_rank > 0
            &&& nope > 0 && rope > 0 && value > 0
            &&& rope % 2 == 0
            &&& geometry.latent_norm_eps.positive_finite() && geometry.rope_theta.positive_finite()
            &&& nope + rope <= usize::MAX && nope + value <= usize::MAX
            &&& geometry.num_heads * (nope + rope) <= usize::MAX
            &&& geometry.num_heads * (nope + value) <= usize::MAX
            &&& geometry.num_heads * value <= usize::MAX
        },
{
}

/// Weights are taken exactly where every matrix has the shape that the geometry gives it, and both
/// norms have a number for every value of their rank.
pub proof fn weights_of_the_geometry_are_taken(geometry: MlaGeometry, weights: MlaWeights)
    ensures
        geometry.weights_problem(weights) is None <==> {
            let heads = geometry.num_heads as int;
            let nope = geometry.qk_nope_head_dim as int;
            let rope = geometry.qk_rope_head_dim as int;
            &&& weights.q_a.rows == geometry.q_lora_rank && weights.q_a.cols == geometry.hidden_size
            &&& weights.q_b.rows == heads * (nope + rope) && weights.q_b.cols
                == geometry.q_lora_rank
            &&& weights.kv_a.rows == geometry.kv_lora_rank + rope && weights.kv_a.cols
                == geometry.hidden_size
            &&& weights.kv_b.rows == heads * (nope + geometry.v_head_dim) && weights.kv_b.cols
                == geometry.kv_lora_rank
            &&& weights.output.rows == geometry.hidden_size && weights.output.cols == heads
                * geometry.v_head_dim
            &&& weights.q_a_norm@.len() == geometry.q_lora_rank && math::all_finite(
                weights.q_a_norm@,
            )
            &&& weights.kv_a_norm@.len() == geometry.kv_lora_rank && math::all_finite(
                weights.kv_a_norm@,
            )
        },
{
}

/// A token is appended exactly to a cache of the same widths, at the position behind its last token.
pub proof fn tokens_are_appended_in_order(
    attention: MlaAttention,
    cache: CacheView,
    position: usize,
)
    ensures
        attention.token_problem(cache, position) is None <==> cache.kv_lora_rank
            == attention.geometry.kv_lora_rank && cache.rope_dim
            == attention.geometry.qk_rope_head_dim && position == cache.tokens(),
{
}

/// A cache of some capacity has room for that many rows of both widths.
pub proof fn capacities_are_those_of_the_tokens(kv_lora_rank: usize, rope_dim: usize, tokens: usize)
    ensures
        MlaCache::capacity_problem(kv_lora_rank, rope_dim, tokens) is None <==> kv_lora_rank > 0
            && rope_dim > 0 && kv_lora_rank * tokens <= usize::MAX && rope_dim * tokens
            <= usize::MAX,
{
}

/// Attention is made exactly where its geometry is taken, its compressed rows can be addressed and its
/// weights are those of the geometry.
pub proof fn sound_attention_is_made(geometry: MlaGeometry, weights: MlaWeights)
    ensures
        MlaAttention::problem_of(geometry, weights) is None <==> geometry.refusal() is None
            && geometry.kv_lora_rank + geometry.qk_rope_head_dim <= usize::MAX
            && geometry.weights_problem(weights) is None,
{
}

} // verus!
