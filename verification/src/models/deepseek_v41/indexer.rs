//! Selection for the two-level sparse indexer of DeepSeek-V4.1: candidate blocks, then positions.

use crate::accounting;
use crate::ranking;
use crate::ranking::rank;
use crate::text;
use crate::text::push_decimal;
use vstd::prelude::*;
use vstd::string::*;

verus! {

#[derive(Debug, Clone, PartialEq, Eq)]
pub struct IndexerError(pub String);

impl IndexerError {
    pub open spec fn text(self) -> Seq<char> {
        "invalid DeepSeek-V4.1 index selection: "@ + self.0@
    }

    pub fn message(&self) -> (text: String)
        ensures
            text@ == self.text(),
    {
        let mut text = "invalid DeepSeek-V4.1 index selection: ".to_owned();
        text.append(self.0.as_str());
        text
    }
}

pub open spec fn problem<T>(result: Result<T, IndexerError>) -> Option<Seq<char>> {
    match result {
        Ok(_) => None,
        Err(error) => Some(error.0@),
    }
}

fn invalid<T>(reason: &str) -> (result: Result<T, IndexerError>)
    ensures
        problem(result) == Some(reason@),
{
    Err(IndexerError(reason.to_owned()))
}

/// The greatest and the least of all scores.
pub const HIGHEST: i64 = 0x7f80_0000;

pub const LOWEST: i64 = -0x7f80_0000;

/// Bits that are no number.
pub open spec fn not_a_number(bits: u32) -> bool {
    (0x7f80_0000 < bits < 0x8000_0000) || bits > 0xff80_0000
}

/// The place of a score among all scores. Both zeros have the same place.
pub open spec fn place(bits: u32) -> int {
    if bits < 0x8000_0000 {
        bits as int
    } else {
        0x8000_0000 - bits
    }
}

fn place_of(bits: u32) -> (key: i64)
    ensures
        key == place(bits),
{
    if bits < 0x8000_0000 {
        bits as i64
    } else {
        0x8000_0000 - bits as i64
    }
}

/// Some score is no number.
pub open spec fn holds_nan(scores: Seq<u32>) -> bool {
    exists|i: int| 0 <= i < scores.len() && not_a_number(#[trigger] scores[i])
}

pub open spec fn scores_message(width: nat, visible: usize) -> Seq<char> {
    "visible="@ + text::decimal(visible as nat) + " must not exceed width "@ + text::decimal(width)
        + ", and scores must not contain NaN"@
}

/// Why scores cannot be selected from.
pub open spec fn scores_problem(scores: Seq<u32>, visible: usize) -> Option<Seq<char>> {
    if visible > scores.len() || holds_nan(scores) {
        Some(scores_message(scores.len(), visible))
    } else {
        None
    }
}

fn validate_scores(scores: &[u32], visible: usize) -> (result: Result<(), IndexerError>)
    ensures
        problem(result) == scores_problem(scores@, visible),
{
    let mut broken = visible > scores.len();
    let mut index: usize = 0;
    while index < scores.len()
        invariant
            index <= scores@.len(),
            broken == (visible > scores@.len() || exists|i: int|
                0 <= i < index && not_a_number(#[trigger] scores@[i])),
        decreases scores@.len() - index,
    {
        let bits: u32 = scores[index];
        if (bits > 0x7f80_0000 && bits < 0x8000_0000) || bits > 0xff80_0000 {
            assert(not_a_number(scores@[index as int]));
            broken = true;
        }
        index = index + 1;
    }
    if broken {
        let mut reason = "visible=".to_owned();
        push_decimal(&mut reason, visible as u64);
        reason.append(" must not exceed width ");
        push_decimal(&mut reason, scores.len() as u64);
        reason.append(", and scores must not contain NaN");
        return Err(IndexerError(reason));
    }
    Ok(())
}

/// The highest place of the scores from `start` to `end`, or the lowest of all.
pub open spec fn highest(scores: Seq<u32>, start: int, end: int) -> int
    decreases end - start,
{
    if end <= start {
        LOWEST as int
    } else {
        accounting::larger(highest(scores, start, end - 1), place(scores[end - 1]))
    }
}

/// How many blocks the scores fall into.
pub open spec fn block_count(width: nat, size: usize) -> int {
    (width + size - 1) / (size as int)
}

/// The score of a block: above all others where it is the newest that is visible; elsewhere the
/// highest of its visible scores.
pub open spec fn block_score(scores: Seq<u32>, visible: usize, size: usize, block: int) -> i64 {
    let start = block * size;
    let end = accounting::smaller(start + size, visible as int);
    if block == (visible - 1) / (size as int) {
        HIGHEST
    } else {
        highest(scores, start, end) as i64
    }
}

pub open spec fn block_scores(scores: Seq<u32>, visible: usize, size: usize) -> Seq<i64> {
    Seq::new(
        block_count(scores.len(), size) as nat,
        |block: int| block_score(scores, visible, size, block),
    )
}

/// A block is among the first `count` of a ranking, with a score above the lowest.
pub open spec fn kept(keys: Seq<i64>, order: Seq<usize>, count: int, block: int) -> bool {
    exists|r: int|
        0 <= r < count && r < order.len() && #[trigger] order[r] == block && keys[block] != LOWEST
}

/// `mask` marks the positions of the blocks that are kept.
pub open spec fn candidate_mask(
    scores: Seq<u32>,
    visible: usize,
    topk_blocks: usize,
    size: usize,
    mask: Seq<bool>,
) -> bool {
    let keys = block_scores(scores, visible, size);
    &&& mask.len() == scores.len()
    &&& exists|order: Seq<usize>|
        #[trigger] ranking::ranking(keys, order) && (forall|i: int|
            0 <= i < mask.len() ==> #[trigger] mask[i] == kept(
                keys,
                order,
                topk_blocks as int,
                i / size as int,
            ))
}

fn find_highest(scores: &[u32], start: usize, end: usize) -> (best: i64)
    requires
        end <= scores@.len(),
    ensures
        best == highest(scores@, start as int, end as int),
{
    let mut best: i64 = LOWEST;
    let mut index: usize = start;
    while index < end
        invariant
            end <= scores@.len(),
            start <= index,
            start <= end ==> index <= end,
            start > end ==> index == start,
            best == highest(scores@, start as int, index as int),
        decreases end - index,
    {
        let key = place_of(scores[index]);
        if key > best {
            best = key;
        }
        index = index + 1;
    }
    if end <= start {
        assert(highest(scores@, start as int, end as int) == LOWEST);
    }
    best
}

proof fn lemma_highest_bounds(scores: Seq<u32>, start: int, end: int)
    requires
        !holds_nan(scores),
        0 <= start,
        end <= scores.len(),
    ensures
        LOWEST <= highest(scores, start, end) <= HIGHEST,
    decreases end - start,
{
    if start < end {
        lemma_highest_bounds(scores, start, end - 1);
        assert(!not_a_number(scores[end - 1]));
    }
}

fn count_blocks(width: usize, size: usize) -> (count: usize)
    requires
        size > 0,
    ensures
        count == block_count(width as nat, size),
        count > 0 ==> (count - 1) * size < width,
        width <= count * size,
{
    if width == 0 {
        proof {
            assert((size - 1) / (size as int) == 0) by (nonlinear_arith)
                requires
                    size > 0,
            ;
        }
        0
    } else {
        let whole: usize = (width - 1) / size;
        proof {
            let rest = (width - 1) % (size as int);
            vstd::arithmetic::div_mod::lemma_fundamental_div_mod(width - 1, size as int);
            vstd::arithmetic::div_mod::lemma_mod_bound(width - 1, size as int);
            assert(width + size - 1 == size * (whole + 1) + rest) by (nonlinear_arith)
                requires
                    width - 1 == size * whole + rest,
            ;
            vstd::arithmetic::div_mod::lemma_fundamental_div_mod_converse(
                width + size - 1,
                size as int,
                whole + 1,
                rest,
            );
            assert(whole <= width - 1) by (nonlinear_arith)
                requires
                    width - 1 == size * whole + rest,
                    rest >= 0,
                    size > 0,
                    whole >= 0,
            ;
            assert(whole * size < width && width <= (whole + 1) * size) by (nonlinear_arith)
                requires
                    width - 1 == size * whole + rest,
                    0 <= rest < size,
            ;
        }
        whole + 1
    }
}

/// Marks the positions of the best blocks. The newest block that is visible is always among them,
/// complete or not.
pub fn select_candidate_blocks(
    scores: &[u32],
    visible: usize,
    topk_blocks: usize,
    block_size: usize,
) -> (result: Result<Vec<bool>, IndexerError>)
    ensures
        problem(result) == if scores_problem(scores@, visible) is Some {
            scores_problem(scores@, visible)
        } else if block_size == 0 || topk_blocks == 0 {
            Some("candidate block size and count must be non-zero"@)
        } else {
            None
        },
        result is Ok ==> if visible == 0 {
            result->Ok_0@ == Seq::new(scores@.len(), |i: int| false)
        } else {
            candidate_mask(scores@, visible, topk_blocks, block_size, result->Ok_0@)
        },
{
    validate_scores(scores, visible)?;
    if block_size == 0 || topk_blocks == 0 {
        return invalid("candidate block size and count must be non-zero");
    }
    let width: usize = scores.len();
    let mut mask: Vec<bool> = vec![false; width];
    if visible == 0 {
        assert(mask@ =~= Seq::new(scores@.len(), |i: int| false));
        return Ok(mask);
    }
    let blocks = count_blocks(width, block_size);
    let newest: usize = (visible - 1) / block_size;
    let ghost wanted = block_scores(scores@, visible, block_size);
    let mut keys: Vec<i64> = Vec::new();
    let mut block: usize = 0;
    while block < blocks
        invariant
            block_size > 0,
            width == scores@.len(),
            0 < visible <= width,
            !holds_nan(scores@),
            newest == (visible - 1) / (block_size as int),
            blocks == block_count(width as nat, block_size),
            blocks > 0 ==> (blocks - 1) * block_size < width,
            block <= blocks,
            wanted == block_scores(scores@, visible, block_size),
            keys@ == wanted.take(block as int),
        decreases blocks - block,
    {
        assert(block * block_size < width) by (nonlinear_arith)
            requires
                0 <= block < blocks,
                (blocks - 1) * block_size < width,
                block_size > 0,
        ;
        assert(0 <= block * block_size) by (nonlinear_arith)
            requires
                0 <= block,
                block_size > 0,
        ;
        let start: usize = block * block_size;
        let end: usize = if block_size < visible && start < visible - block_size {
            start + block_size
        } else {
            visible
        };
        let key: i64 = if block == newest {
            HIGHEST
        } else {
            find_highest(scores, start, end)
        };
        proof {
            assert(end == accounting::smaller(start + block_size, visible as int));
            lemma_highest_bounds(scores@, start as int, end as int);
            assert(wanted[block as int] == key);
        }
        keys.push(key);
        block = block + 1;
        assert(keys@ =~= wanted.take(block as int));
    }
    assert(keys@ =~= wanted);
    let order = rank(&keys);
    let count: usize = if topk_blocks < blocks {
        topk_blocks
    } else {
        blocks
    };
    let mut taken: Vec<bool> = vec![false; blocks];
    let mut index: usize = 0;
    while index < count
        invariant
            keys@ == wanted,
            wanted.len() == blocks,
            ranking::ranking(keys@, order@),
            index <= count <= order@.len(),
            taken@.len() == blocks,
            forall|b: int|
                0 <= b < blocks ==> #[trigger] taken@[b] == kept(wanted, order@, index as int, b),
        decreases count - index,
    {
        let best = order[index];
        assert(order@[index as int] == best);
        assert(best < blocks);
        let ghost before = taken@;
        if keys[best] != LOWEST {
            taken.set(best, true);
        }
        proof {
            assert forall|b: int| 0 <= b < blocks implies #[trigger] taken@[b] == kept(
                wanted,
                order@,
                index + 1,
                b,
            ) by {
                assert(before[b] == kept(wanted, order@, index as int, b));
                if kept(wanted, order@, index + 1, b) {
                    let r = choose|r: int|
                        0 <= r < index + 1 && r < order@.len() && #[trigger] order@[r] == b
                            && wanted[b] != LOWEST;
                    if r < index {
                        assert(order@[r] == b);
                    }
                }
                if kept(wanted, order@, index as int, b) {
                    let r = choose|r: int|
                        0 <= r < index && r < order@.len() && #[trigger] order@[r] == b
                            && wanted[b] != LOWEST;
                    assert(order@[r] == b);
                }
                if b == best && wanted[b] != LOWEST {
                    assert(order@[index as int] == b);
                }
            }
        }
        index = index + 1;
    }
    proof {
        assert forall|b: int| 0 <= b < blocks implies kept(wanted, order@, count as int, b)
            == kept(wanted, order@, topk_blocks as int, b) by {
            if kept(wanted, order@, topk_blocks as int, b) {
                let r = choose|r: int|
                    0 <= r < topk_blocks && r < order@.len() && #[trigger] order@[r] == b
                        && wanted[b] != LOWEST;
                assert(order@[r] == b);
            }
            if kept(wanted, order@, count as int, b) {
                let r = choose|r: int|
                    0 <= r < count && r < order@.len() && #[trigger] order@[r] == b && wanted[b]
                        != LOWEST;
                assert(order@[r] == b);
            }
        }
    }
    let mut at: usize = 0;
    while at < width
        invariant
            block_size > 0,
            at <= width,
            width == scores@.len(),
            width <= blocks * block_size,
            mask@.len() == width,
            taken@.len() == blocks,
            forall|b: int|
                0 <= b < blocks ==> #[trigger] taken@[b] == kept(
                    wanted,
                    order@,
                    topk_blocks as int,
                    b,
                ),
            forall|i: int|
                0 <= i < at ==> #[trigger] mask@[i] == kept(
                    wanted,
                    order@,
                    topk_blocks as int,
                    i / block_size as int,
                ),
        decreases width - at,
    {
        let home: usize = at / block_size;
        assert(home < blocks) by (nonlinear_arith)
            requires
                home == at as int / block_size as int,
                0 <= at < width,
                width <= blocks * block_size,
                block_size > 0,
        ;
        mask.set(at, taken[home]);
        at = at + 1;
    }
    assert(ranking::ranking(block_scores(scores@, visible, block_size), order@));
    Ok(mask)
}

/// The newest block that is visible is always a candidate.
pub proof fn the_newest_block_is_a_candidate(
    scores: Seq<u32>,
    visible: usize,
    topk_blocks: usize,
    size: usize,
    mask: Seq<bool>,
)
    requires
        scores_problem(scores, visible) is None,
        0 < visible,
        0 < size,
        0 < topk_blocks,
        scores.len() <= usize::MAX,
        candidate_mask(scores, visible, topk_blocks, size, mask),
        forall|i: int| 0 <= i < scores.len() ==> place(#[trigger] scores[i]) < HIGHEST,
    ensures
        mask[visible - 1],
{
    let keys = block_scores(scores, visible, size);
    let newest = (visible - 1) / (size as int);
    let order = choose|order: Seq<usize>|
        #[trigger] ranking::ranking(keys, order) && (forall|i: int|
            0 <= i < mask.len() ==> #[trigger] mask[i] == kept(
                keys,
                order,
                topk_blocks as int,
                i / size as int,
            ));
    vstd::arithmetic::div_mod::lemma_fundamental_div_mod(visible - 1, size as int);
    vstd::arithmetic::div_mod::lemma_mod_bound(visible - 1, size as int);
    let count = block_count(scores.len(), size);
    vstd::arithmetic::div_mod::lemma_fundamental_div_mod(scores.len() + size - 1, size as int);
    vstd::arithmetic::div_mod::lemma_mod_bound(scores.len() + size - 1, size as int);
    assert(0 <= newest < count) by (nonlinear_arith)
        requires
            visible - 1 == size * newest + (visible - 1) % (size as int),
            0 <= (visible - 1) % (size as int),
            scores.len() + size - 1 == size * count + (scores.len() + size - 1) % (size as int),
            (scores.len() + size - 1) % (size as int) < size,
            0 < visible <= scores.len(),
            size > 0,
            newest == (visible - 1) / (size as int),
    ;
    assert(count <= usize::MAX) by (nonlinear_arith)
        requires
            scores.len() + size - 1 == size * count + (scores.len() + size - 1) % (size as int),
            0 <= (scores.len() + size - 1) % (size as int),
            scores.len() <= usize::MAX,
            size > 0,
            count >= 0,
    ;
    assert(keys[newest] == HIGHEST);
    assert(order.contains(newest as usize));
    let r = choose|r: int| 0 <= r < order.len() && order[r] == newest as usize;
    if r > 0 {
        assert(ranking::precedes(keys, order[0], order[r]));
        let first = order[0] as int;
        assert(keys[first] >= HIGHEST);
        let start = first * size;
        let end = accounting::smaller(start + size, visible as int);
        assert(start >= 0) by (nonlinear_arith)
            requires
                start == first * size,
                first >= 0,
                size > 0,
        ;
        lemma_highest_below(scores, start, end);
        assert(false);
    }
    assert(order[0] == newest);
}

proof fn lemma_highest_below(scores: Seq<u32>, start: int, end: int)
    requires
        !holds_nan(scores),
        0 <= start,
        end <= scores.len(),
        forall|i: int| 0 <= i < scores.len() ==> place(#[trigger] scores[i]) < HIGHEST,
    ensures
        LOWEST <= highest(scores, start, end) < HIGHEST,
    decreases end - start,
{
    if start < end {
        lemma_highest_below(scores, start, end - 1);
        assert(!not_a_number(scores[end - 1]));
        assert(place(scores[end - 1]) < HIGHEST);
    }
}

/// The score that a position competes with: its own where it is visible and a candidate, the lowest
/// of all elsewhere.
pub open spec fn position_key(
    scores: Seq<u32>,
    visible: usize,
    candidates: Option<Seq<bool>>,
    position: int,
) -> i64 {
    if position < visible && (candidates is Some ==> candidates->Some_0[position]) {
        place(scores[position]) as i64
    } else {
        LOWEST
    }
}

pub open spec fn position_keys(
    scores: Seq<u32>,
    visible: usize,
    candidates: Option<Seq<bool>>,
) -> Seq<i64> {
    Seq::new(scores.len(), |i: int| position_key(scores, visible, candidates, i))
}

/// What a chosen position comes to: itself, moved by the offset, or nothing where it was chosen for
/// want of a reachable one.
pub open spec fn choice(keys: Seq<i64>, position: int, offset: usize) -> Option<usize> {
    if keys[position] == LOWEST {
        None
    } else {
        Some((position + offset) as usize)
    }
}

/// The chosen positions below `end`, in order, each as what it comes to.
pub open spec fn choices(keys: Seq<i64>, chosen: Seq<usize>, offset: usize, end: nat) -> Seq<
    Option<usize>,
>
    decreases end,
{
    if end == 0 {
        Seq::empty()
    } else if chosen.contains((end - 1) as usize) {
        choices(keys, chosen, offset, (end - 1) as nat).push(choice(keys, end - 1, offset))
    } else {
        choices(keys, chosen, offset, (end - 1) as nat)
    }
}

/// Some chosen position, moved by the offset, is no number of the machine.
pub open spec fn moves_too_far(keys: Seq<i64>, chosen: Seq<usize>, offset: usize) -> bool {
    exists|i: int|
        0 <= i < chosen.len() && keys[#[trigger] chosen[i] as int] != LOWEST && chosen[i] + offset
            > usize::MAX
}

/// The best `count` positions of a ranking.
pub open spec fn leading(order: Seq<usize>, count: usize) -> Seq<usize> {
    order.take(accounting::smaller(count as int, order.len() as int))
}

pub open spec fn mask_view(candidates: Option<&[bool]>) -> Option<Seq<bool>> {
    match candidates {
        Some(mask) => Some(mask@),
        None => None,
    }
}

/// Selects the best positions that are visible and candidates, and lists them in order. Where there
/// are fewer than asked for, others fill the list as nothing.
pub fn select_positions(
    scores: &[u32],
    visible: usize,
    topk: usize,
    output_offset: usize,
    candidates: Option<&[bool]>,
) -> (result: Result<Vec<Option<usize>>, IndexerError>)
    ensures
        ({
            let mask = mask_view(candidates);
            let keys = position_keys(scores@, visible, mask);
            let early = if scores_problem(scores@, visible) is Some {
                scores_problem(scores@, visible)
            } else if mask is Some && mask->Some_0.len() != scores@.len() {
                Some("candidate mask length differs from index score width"@)
            } else {
                None
            };
            match result {
                Ok(list) => early is None && exists|order: Seq<usize>|
                    #[trigger] ranking::ranking(keys, order) && !moves_too_far(
                        keys,
                        leading(order, topk),
                        output_offset,
                    ) && list@ == choices(
                        keys,
                        leading(order, topk),
                        output_offset,
                        scores@.len(),
                    ),
                Err(error) => if early is Some {
                    early == Some(error.0@)
                } else {
                    error.0@ == "selected position plus output offset overflows"@ && exists|
                        order: Seq<usize>,
                    |
                        #[trigger] ranking::ranking(keys, order) && moves_too_far(
                            keys,
                            leading(order, topk),
                            output_offset,
                        )
                },
            }
        }),
{
    validate_scores(scores, visible)?;
    let width: usize = scores.len();
    match candidates {
        Some(mask) => {
            if mask.len() != width {
                return invalid("candidate mask length differs from index score width");
            }
        },
        None => {},
    }
    let ghost mask = mask_view(candidates);
    let ghost wanted = position_keys(scores@, visible, mask);
    let mut keys: Vec<i64> = Vec::new();
    let mut position: usize = 0;
    while position < width
        invariant
            width == scores@.len(),
            !holds_nan(scores@),
            mask == mask_view(candidates),
            mask is Some ==> mask->Some_0.len() == width,
            wanted == position_keys(scores@, visible, mask),
            position <= width,
            keys@ == wanted.take(position as int),
        decreases width - position,
    {
        let candidate = match candidates {
            Some(mask) => mask[position],
            None => true,
        };
        assert(!not_a_number(scores@[position as int]));
        let key: i64 = if position < visible && candidate {
            place_of(scores[position])
        } else {
            LOWEST
        };
        assert(wanted[position as int] == key);
        keys.push(key);
        position = position + 1;
        assert(keys@ =~= wanted.take(position as int));
    }
    assert(keys@ =~= wanted);
    let order = rank(&keys);
    let count: usize = if topk < order.len() {
        topk
    } else {
        order.len()
    };
    let ghost chosen = leading(order@, topk);
    let mut taken: Vec<bool> = vec![false; width];
    let mut index: usize = 0;
    while index < count
        invariant
            keys@ == wanted,
            wanted.len() == width,
            ranking::ranking(wanted, order@),
            count == accounting::smaller(topk as int, order@.len() as int),
            chosen == leading(order@, topk),
            index <= count <= order@.len(),
            taken@.len() == width,
            forall|p: int|
                0 <= p < width ==> #[trigger] taken@[p] == chosen.take(index as int).contains(
                    p as usize,
                ),
        decreases count - index,
    {
        let best = order[index];
        assert(order@[index as int] < wanted.len());
        let ghost before = taken@;
        taken.set(best, true);
        proof {
            let shorter = chosen.take(index as int);
            let longer = chosen.take(index + 1);
            assert(longer =~= shorter.push(best));
            assert forall|p: int| 0 <= p < width implies #[trigger] taken@[p] == longer.contains(
                p as usize,
            ) by {
                assert(before[p] == shorter.contains(p as usize));
                if shorter.contains(p as usize) {
                    let i = choose|i: int| 0 <= i < shorter.len() && shorter[i] == p as usize;
                    assert(longer[i] == p as usize);
                }
                if longer.contains(p as usize) && p != best {
                    let i = choose|i: int| 0 <= i < longer.len() && longer[i] == p as usize;
                    assert(shorter[i] == p as usize);
                }
                if p == best {
                    assert(longer[index as int] == p as usize);
                }
            }
        }
        index = index + 1;
    }
    assert(chosen.take(count as int) =~= chosen);
    let mut list: Vec<Option<usize>> = Vec::new();
    position = 0;
    while position < width
        invariant
            keys@ == wanted,
            wanted.len() == width,
            width == scores@.len(),
            mask == mask_view(candidates),
            wanted == position_keys(scores@, visible, mask),
            scores_problem(scores@, visible) is None,
            mask is Some ==> mask->Some_0.len() == scores@.len(),
            ranking::ranking(wanted, order@),
            chosen == leading(order@, topk),
            position <= width,
            taken@.len() == width,
            forall|p: int| 0 <= p < width ==> #[trigger] taken@[p] == chosen.contains(p as usize),
            list@ == choices(wanted, chosen, output_offset, position as nat),
            forall|i: int|
                0 <= i < chosen.len() && #[trigger] chosen[i] < position ==> wanted[chosen[i] as int]
                    == LOWEST || chosen[i] + output_offset <= usize::MAX,
        decreases width - position,
    {
        assert(taken@[position as int] == chosen.contains(position));
        if taken[position] {
            if keys[position] == LOWEST {
                list.push(None);
            } else {
                match position.checked_add(output_offset) {
                    Some(moved) => {
                        list.push(Some(moved));
                    },
                    None => {
                        proof {
                            let i = choose|i: int| 0 <= i < chosen.len() && chosen[i] == position;
                            assert(wanted[chosen[i] as int] != LOWEST);
                            assert(moves_too_far(wanted, chosen, output_offset));
                            assert(ranking::ranking(wanted, order@));
                        }
                        return invalid("selected position plus output offset overflows");
                    },
                }
            }
        }
        position = position + 1;
    }
    proof {
        assert(!moves_too_far(wanted, chosen, output_offset)) by {
            if moves_too_far(wanted, chosen, output_offset) {
                let i = choose|i: int|
                    0 <= i < chosen.len() && wanted[#[trigger] chosen[i] as int] != LOWEST
                        && chosen[i] + output_offset > usize::MAX;
                assert(order@[i] == chosen[i]);
                assert(chosen[i] < width);
            }
        }
        assert(ranking::ranking(wanted, order@));
    }
    Ok(list)
}

/// Selected positions are visible candidates, and they come in ascending order.
pub proof fn selections_ascend_and_are_reachable(
    scores: Seq<u32>,
    visible: usize,
    candidates: Option<Seq<bool>>,
    chosen: Seq<usize>,
    offset: usize,
    end: nat,
    i: int,
    j: int,
)
    requires
        end <= scores.len() <= usize::MAX,
        !moves_too_far(position_keys(scores, visible, candidates), chosen, offset),
        0 <= i < j < choices(
            position_keys(scores, visible, candidates),
            chosen,
            offset,
            end,
        ).len(),
    ensures
        ({
            let list = choices(
                position_keys(scores, visible, candidates),
                chosen,
                offset,
                end,
            );
            list[i] is Some && list[j] is Some ==> {
                &&& list[i]->Some_0 < list[j]->Some_0
                &&& list[j]->Some_0 - offset < end
                &&& reachable(visible, candidates, list[i]->Some_0 - offset)
                &&& reachable(visible, candidates, list[j]->Some_0 - offset)
            }
        }),
    decreases end,
{
    let keys = position_keys(scores, visible, candidates);
    let list = choices(keys, chosen, offset, end);
    if end > 0 {
        let last = (end - 1) as nat;
        let front = choices(keys, chosen, offset, last);
        if chosen.contains(last as usize) && j == list.len() - 1 {
            if list[i] is Some && list[j] is Some {
                let k = choose|k: int| 0 <= k < chosen.len() && chosen[k] == last as usize;
                assert(chosen[k] + offset <= usize::MAX);
                lemma_choice_below(scores, visible, candidates, chosen, offset, last, i);
            }
        } else {
            selections_ascend_and_are_reachable(
                scores,
                visible,
                candidates,
                chosen,
                offset,
                last,
                i,
                j,
            );
        }
    }
}

/// A position that is visible and a candidate.
pub open spec fn reachable(visible: usize, candidates: Option<Seq<bool>>, position: int) -> bool {
    0 <= position < visible && (candidates is Some ==> candidates->Some_0[position])
}

proof fn lemma_choice_below(
    scores: Seq<u32>,
    visible: usize,
    candidates: Option<Seq<bool>>,
    chosen: Seq<usize>,
    offset: usize,
    end: nat,
    i: int,
)
    requires
        end <= scores.len() <= usize::MAX,
        !moves_too_far(position_keys(scores, visible, candidates), chosen, offset),
        0 <= i < choices(
            position_keys(scores, visible, candidates),
            chosen,
            offset,
            end,
        ).len(),
    ensures
        ({
            let list = choices(
                position_keys(scores, visible, candidates),
                chosen,
                offset,
                end,
            );
            list[i] is Some ==> {
                &&& offset <= list[i]->Some_0
                &&& list[i]->Some_0 - offset < end
                &&& reachable(visible, candidates, list[i]->Some_0 - offset)
            }
        }),
    decreases end,
{
    let keys = position_keys(scores, visible, candidates);
    let list = choices(keys, chosen, offset, end);
    if end > 0 {
        let last = (end - 1) as nat;
        if chosen.contains(last as usize) && i == list.len() - 1 {
            let k = choose|k: int| 0 <= k < chosen.len() && chosen[k] == last as usize;
            if keys[last as int] != LOWEST {
                assert(chosen[k] + offset <= usize::MAX);
            }
        } else {
            lemma_choice_below(scores, visible, candidates, chosen, offset, last, i);
        }
    }
}

/// A selected position is visible and a candidate.
pub proof fn a_choice_is_reachable(
    scores: Seq<u32>,
    visible: usize,
    candidates: Option<Seq<bool>>,
    chosen: Seq<usize>,
    end: nat,
    i: int,
)
    requires
        end <= scores.len() <= usize::MAX,
        0 <= i < choices(position_keys(scores, visible, candidates), chosen, 0, end).len(),
    ensures
        ({
            let list = choices(position_keys(scores, visible, candidates), chosen, 0, end);
            list[i] is Some ==> reachable(visible, candidates, list[i]->Some_0 as int)
        }),
    decreases end,
{
    let keys = position_keys(scores, visible, candidates);
    let list = choices(keys, chosen, 0, end);
    if end > 0 {
        let front = choices(keys, chosen, 0, (end - 1) as nat);
        if i < front.len() {
            a_choice_is_reachable(scores, visible, candidates, chosen, (end - 1) as nat, i);
        } else {
            assert(list[i] == choice(keys, end - 1, 0));
        }
    }
}

/// One score is lower than another, as numbers: the bits above the sign bit are negative, and of two
/// negative scores the one with the greater magnitude is lower. Both zeros are the same number.
pub open spec fn is_lower(a: u32, b: u32) -> bool {
    if a > 0x8000_0000 {
        b <= 0x8000_0000 || a > b
    } else {
        b < 0x8000_0000 && b != 0 && (a == 0x8000_0000 || a < b)
    }
}

/// The infinite score below all numbers.
pub open spec fn is_bottom(bits: u32) -> bool {
    bits == 0xff80_0000
}

/// The place of a score is that of its number.
pub proof fn places_follow_the_numbers(a: u32, b: u32)
    requires
        !(0x7f80_0000 < a < 0x8000_0000) && a <= 0xff80_0000,
        !(0x7f80_0000 < b < 0x8000_0000) && b <= 0xff80_0000,
    ensures
        place(a) < place(b) <==> is_lower(a, b),
        place(a) == LOWEST <==> is_bottom(a),
        LOWEST <= place(a) <= i64::MAX,
{
}

/// A score that is no number is refused, and so are more visible scores than there are.
pub proof fn only_numbers_are_selected_from(scores: Seq<u32>, visible: usize)
    ensures
        scores_problem(scores, visible) is None <==> visible <= scores.len() && forall|i: int|
            0 <= i < scores.len() ==> !(0x7f80_0000 < #[trigger] scores[i] < 0x8000_0000)
                && scores[i] <= 0xff80_0000,
{
    if holds_nan(scores) {
        let i = choose|i: int| 0 <= i < scores.len() && not_a_number(#[trigger] scores[i]);
        assert(not_a_number(scores[i]));
    }
    if exists|i: int|
        0 <= i < scores.len() && ((0x7f80_0000 < #[trigger] scores[i] < 0x8000_0000) || scores[i]
            > 0xff80_0000) {
        let i = choose|i: int|
            0 <= i < scores.len() && ((0x7f80_0000 < #[trigger] scores[i] < 0x8000_0000)
                || scores[i] > 0xff80_0000);
        assert(not_a_number(scores[i]));
    }
}

proof fn lemma_choices(keys: Seq<i64>, chosen: Seq<usize>, offset: usize, end: nat, position: int)
    requires
        end <= keys.len() <= usize::MAX,
        0 <= position < end,
        chosen.contains(position as usize),
        keys[position] != LOWEST ==> position + offset <= usize::MAX,
    ensures
        keys[position] != LOWEST ==> choices(keys, chosen, offset, end).contains(
            Some((position + offset) as usize),
        ),
    decreases end,
{
    let list = choices(keys, chosen, offset, end);
    let front = choices(keys, chosen, offset, (end - 1) as nat);
    if position == end - 1 {
        assert(list.last() == choice(keys, position, offset));
        assert(list[list.len() - 1] == list.last());
    } else {
        lemma_choices(keys, chosen, offset, (end - 1) as nat, position);
        if keys[position] != LOWEST {
            let wanted = Some((position + offset) as usize);
            let at = choose|at: int| 0 <= at < front.len() && front[at] == wanted;
            assert(list[at] == wanted);
        }
    }
}

/// What is listed was chosen.
proof fn lemma_listed(keys: Seq<i64>, chosen: Seq<usize>, offset: usize, end: nat, i: int)
    requires
        end <= keys.len() <= usize::MAX,
        !moves_too_far(keys, chosen, offset),
        0 <= i < choices(keys, chosen, offset, end).len(),
        choices(keys, chosen, offset, end)[i] is Some,
    ensures
        ({
            let moved = choices(keys, chosen, offset, end)[i]->0;
            &&& offset <= moved && moved - offset < end
            &&& chosen.contains((moved - offset) as usize)
            &&& keys[moved - offset] != LOWEST
        }),
    decreases end,
{
    if end > 0 {
        let last = (end - 1) as nat;
        let front = choices(keys, chosen, offset, last);
        if i < front.len() {
            lemma_listed(keys, chosen, offset, last, i);
        } else {
            let k = choose|k: int| 0 <= k < chosen.len() && chosen[k] == last as usize;
            assert(chosen[k] + offset <= usize::MAX);
        }
    }
}

/// How many of the positions below `end` are listed.
proof fn lemma_choices_len(keys: Seq<i64>, chosen: Seq<usize>, offset: usize, end: nat)
    requires
        end <= usize::MAX,
        chosen.no_duplicates(),
        forall|i: int| 0 <= i < chosen.len() ==> (#[trigger] chosen[i]) < end,
    ensures
        choices(keys, chosen, offset, end).len() == chosen.len(),
    decreases end,
{
    if end == 0 {
        if chosen.len() > 0 {
            assert(chosen[0] < 0);
        }
    } else {
        let last = (end - 1) as usize;
        if chosen.contains(last) {
            let k = choose|k: int| 0 <= k < chosen.len() && chosen[k] == last;
            let rest = chosen.remove(k);
            assert forall|i: int, j: int|
                0 <= i < rest.len() && 0 <= j < rest.len() && i != j implies rest[i] != rest[j] by {
                let a = if i < k { i } else { i + 1 };
                let b = if j < k { j } else { j + 1 };
                assert(rest[i] == chosen[a] && rest[j] == chosen[b]);
            }
            assert forall|i: int| 0 <= i < rest.len() implies (#[trigger] rest[i]) < last by {
                let a = if i < k { i } else { i + 1 };
                assert(rest[i] == chosen[a]);
                assert(chosen[a] < end && chosen[a] != chosen[k]);
            }
            lemma_choices_len(keys, rest, offset, last as nat);
            lemma_same_choices(keys, chosen, rest, offset, last as nat, k);
        } else {
            assert forall|i: int| 0 <= i < chosen.len() implies (#[trigger] chosen[i]) < last by {
                assert(chosen[i] < end);
                if chosen[i] == last {
                    assert(chosen.contains(last));
                }
            }
            lemma_choices_len(keys, chosen, offset, last as nat);
        }
    }
}

/// A chosen position at or behind `end` does not matter.
proof fn lemma_same_choices(
    keys: Seq<i64>,
    chosen: Seq<usize>,
    rest: Seq<usize>,
    offset: usize,
    end: nat,
    k: int,
)
    requires
        0 <= k < chosen.len(),
        rest == chosen.remove(k),
        chosen[k] >= end,
        end <= usize::MAX,
    ensures
        choices(keys, chosen, offset, end) == choices(keys, rest, offset, end),
    decreases end,
{
    if end > 0 {
        lemma_same_choices(keys, chosen, rest, offset, (end - 1) as nat, k);
        let last = (end - 1) as usize;
        if chosen.contains(last) {
            let a = choose|a: int| 0 <= a < chosen.len() && chosen[a] == last;
            assert(a != k);
            let i = if a < k { a } else { a - 1 };
            assert(rest[i] == last);
        }
        if rest.contains(last) {
            let i = choose|i: int| 0 <= i < rest.len() && rest[i] == last;
            let a = if i < k { i } else { i + 1 };
            assert(chosen[a] == last);
        }
    }
}

/// What is selected is the best: as many entries as were asked for, or as there are scores. A
/// position that is visible and a candidate, with a score above the bottom, is listed, moved by the
/// offset, unless every entry is a position whose score is no lower, and which comes earlier where
/// the scores are the same number. Nothing else is listed.
pub proof fn the_best_positions_are_selected(
    scores: Seq<u32>,
    visible: usize,
    topk: usize,
    candidates: Option<Seq<bool>>,
    order: Seq<usize>,
    offset: usize,
    position: int,
    i: int,
)
    requires
        scores.len() <= usize::MAX,
        scores_problem(scores, visible) is None,
        candidates is Some ==> candidates->0.len() == scores.len(),
        ranking::ranking(position_keys(scores, visible, candidates), order),
        !moves_too_far(
            position_keys(scores, visible, candidates),
            leading(order, topk),
            offset,
        ),
        0 <= position < visible,
        candidates is Some ==> candidates->0[position],
        !is_bottom(scores[position]),
        0 <= i < choices(
            position_keys(scores, visible, candidates),
            leading(order, topk),
            offset,
            scores.len(),
        ).len(),
    ensures
        ({
            let list = choices(
                position_keys(scores, visible, candidates),
                leading(order, topk),
                offset,
                scores.len(),
            );
            &&& list.len() == (if topk < scores.len() {
                topk as int
            } else {
                scores.len() as int
            })
            &&& list[i] is Some ==> {
                let other = list[i]->0 - offset;
                &&& 0 <= other < visible
                &&& candidates is Some ==> candidates->0[other]
                &&& !is_bottom(scores[other])
            }
            &&& position + offset > usize::MAX || !list.contains(
                Some((position + offset) as usize),
            ) ==> {
                &&& list.len() == topk
                &&& list[i] is Some
                &&& !is_lower(scores[list[i]->0 - offset], scores[position])
                &&& !is_lower(scores[position], scores[list[i]->0 - offset]) ==> list[i]->0 - offset
                    < position
            }
        }),
{
    let keys = position_keys(scores, visible, candidates);
    let chosen = leading(order, topk);
    let width = scores.len();
    let list = choices(keys, chosen, offset, width);
    assert forall|p: int| 0 <= p < width implies !(0x7f80_0000 < #[trigger] scores[p] < 0x8000_0000)
        && scores[p] <= 0xff80_0000 by {
        only_numbers_are_selected_from(scores, visible);
    }
    assert forall|a: int, b: int| 0 <= a < chosen.len() && 0 <= b < chosen.len() && a != b implies
        chosen[a] != chosen[b] by {
        if a < b {
            assert(ranking::precedes(keys, order[a], order[b]));
        } else {
            assert(ranking::precedes(keys, order[b], order[a]));
        }
    }
    assert forall|a: int| 0 <= a < chosen.len() implies (#[trigger] chosen[a]) < width by {
        assert(order[a] < width);
    }
    lemma_choices_len(keys, chosen, offset, width);
    places_follow_the_numbers(scores[position], scores[position]);
    assert(keys[position] == place(scores[position]));
    if list[i] is Some {
        lemma_listed(keys, chosen, offset, width, i);
        places_follow_the_numbers(scores[list[i]->0 - offset], scores[list[i]->0 - offset]);
    }
    if position + offset > usize::MAX || !list.contains(Some((position + offset) as usize)) {
        if chosen.contains(position as usize) {
            let k = choose|k: int| 0 <= k < chosen.len() && chosen[k] == position as usize;
            assert(keys[chosen[k] as int] != LOWEST);
            lemma_choices(keys, chosen, offset, width, position);
        }
        assert(!chosen.contains(position as usize));
        assert(order.contains(position as usize));
        let r = choose|r: int| 0 <= r < order.len() && order[r] == position as usize;
        if r < chosen.len() {
            assert(chosen[r] == position as usize);
        }
        assert(chosen.len() == topk);
        assert forall|a: int| 0 <= a < chosen.len() implies ranking::precedes(
            keys,
            #[trigger] chosen[a],
            position as usize,
        ) by {
            assert(ranking::precedes(keys, order[a], order[r]));
        }
        lemma_all_some(keys, chosen, offset, width, position, i);
        lemma_listed(keys, chosen, offset, width, i);
        let other = list[i]->0 - offset;
        let a = choose|a: int| 0 <= a < chosen.len() && chosen[a] == other as usize;
        assert(ranking::precedes(keys, chosen[a], position as usize));
        places_follow_the_numbers(scores[other], scores[position]);
        places_follow_the_numbers(scores[position], scores[other]);
        assert(keys[other] == place(scores[other]));
    }
}

proof fn lemma_all_some(
    keys: Seq<i64>,
    chosen: Seq<usize>,
    offset: usize,
    end: nat,
    position: int,
    i: int,
)
    requires
        end <= keys.len() <= usize::MAX,
        0 <= position < keys.len(),
        keys[position] > LOWEST,
        forall|a: int|
            0 <= a < chosen.len() ==> ranking::precedes(
                keys,
                #[trigger] chosen[a],
                position as usize,
            ),
        0 <= i < choices(keys, chosen, offset, end).len(),
    ensures
        choices(keys, chosen, offset, end)[i] is Some,
    decreases end,
{
    if end > 0 {
        let last = (end - 1) as nat;
        let front = choices(keys, chosen, offset, last);
        if i < front.len() {
            lemma_all_some(keys, chosen, offset, last, position, i);
        } else {
            let k = choose|k: int| 0 <= k < chosen.len() && chosen[k] == last as usize;
            assert(ranking::precedes(keys, chosen[k], position as usize));
        }
    }
}

/// The best of the visible scores of a block is among them, and none is higher.
proof fn lemma_highest_is_best(scores: Seq<u32>, start: int, end: int)
    requires
        0 <= start,
        end <= scores.len(),
    ensures
        forall|k: int| start <= k < end ==> place(#[trigger] scores[k]) <= highest(
            scores,
            start,
            end,
        ),
        highest(scores, start, end) > LOWEST ==> exists|k: int|
            start <= k < end && place(#[trigger] scores[k]) == highest(scores, start, end),
    decreases end - start,
{
    if start < end {
        lemma_highest_is_best(scores, start, end - 1);
        let shorter = highest(scores, start, end - 1);
        if shorter > LOWEST && shorter >= place(scores[end - 1]) {
            let k = choose|k: int| start <= k < end - 1 && place(#[trigger] scores[k]) == shorter;
            assert(place(scores[k]) == highest(scores, start, end));
        } else if highest(scores, start, end) > LOWEST {
            assert(place(scores[end - 1]) == highest(scores, start, end));
        }
    }
}

proof fn lemma_block(position: int, size: int, width: int) -> (block: int)
    requires
        0 <= position < width,
        size > 0,
    ensures
        block == position / size,
        0 <= block,
        block * size <= position < block * size + size,
        block < (width + size - 1) / size,
        (width + size - 1) / size <= width,
{
    let block = position / size;
    vstd::arithmetic::div_mod::lemma_fundamental_div_mod(position, size);
    vstd::arithmetic::div_mod::lemma_mod_bound(position, size);
    vstd::arithmetic::div_mod::lemma_fundamental_div_mod(width + size - 1, size);
    vstd::arithmetic::div_mod::lemma_mod_bound(width + size - 1, size);
    let count = (width + size - 1) / size;
    assert(block >= 0 && block * size <= position < block * size + size && block < count && count
        <= width) by (nonlinear_arith)
        requires
            position == size * block + position % size,
            0 <= position % size < size,
            width + size - 1 == size * count + (width + size - 1) % size,
            0 <= (width + size - 1) % size < size,
            0 <= position < width,
            size > 0,
    ;
    block
}

/// Candidates are whole blocks, at most as many as asked for. A visible position is a candidate
/// unless so many blocks are kept, and each of them other than the newest visible one holds a visible
/// position whose score is no lower.
pub proof fn the_best_blocks_are_candidates(
    scores: Seq<u32>,
    visible: usize,
    topk_blocks: usize,
    size: usize,
    mask: Seq<bool>,
    kept_blocks: Seq<usize>,
    position: int,
    other: int,
)
    requires
        scores.len() <= usize::MAX,
        scores_problem(scores, visible) is None,
        0 < size,
        0 < topk_blocks,
        candidate_mask(scores, visible, topk_blocks, size, mask),
        0 <= position < visible,
        !is_bottom(scores[position]),
        0 <= other < scores.len(),
        // The blocks that are kept, each once.
        kept_blocks.no_duplicates(),
        forall|b: int|
            0 <= b < kept_blocks.len() ==> (#[trigger] kept_blocks[b]) * size < scores.len()
                && mask[kept_blocks[b] * size],
    ensures
        mask.len() == scores.len(),
        kept_blocks.len() <= topk_blocks,
        position / (size as int) == other / (size as int) ==> mask[position] == mask[other],
        mask[other] && !mask[position] && other / (size as int) != (visible - 1) / (size as int)
            ==> exists|k: int|
            0 <= k < visible && k / (size as int) == other / (size as int) && !is_lower(
                #[trigger] scores[k],
                scores[position],
            ),
        mask[other] ==> (other / (size as int)) * size < visible,
{
    let keys = block_scores(scores, visible, size);
    let order = choose|order: Seq<usize>|
        #[trigger] ranking::ranking(keys, order) && (forall|i: int|
            0 <= i < mask.len() ==> #[trigger] mask[i] == kept(
                keys,
                order,
                topk_blocks as int,
                i / size as int,
            ));
    let width = scores.len() as int;
    let block = lemma_block(position, size as int, width);
    let home = lemma_block(other, size as int, width);
    let newest = (visible - 1) / (size as int);
    assert(mask[position] == kept(keys, order, topk_blocks as int, block));
    assert(mask[other] == kept(keys, order, topk_blocks as int, home));
    assert forall|k: int| 0 <= k < width implies !(0x7f80_0000 < #[trigger] scores[k] < 0x8000_0000)
        && scores[k] <= 0xff80_0000 by {
        only_numbers_are_selected_from(scores, visible);
    }
    assert forall|b: int| 0 <= b < keys.len() implies LOWEST <= #[trigger] keys[b] <= HIGHEST by {
        let start = b * size;
        assert(start >= 0) by (nonlinear_arith)
            requires
                start == b * size,
                b >= 0,
                size > 0,
        ;
        lemma_highest_bounds(scores, start, accounting::smaller(start + size, visible as int));
    }
    let start = block * size;
    let end = accounting::smaller(start + size, visible as int);
    lemma_highest_is_best(scores, start, end);
    lemma_highest_bounds(scores, start, end);
    places_follow_the_numbers(scores[position], scores[position]);
    assert(place(scores[position]) <= highest(scores, start, end));
    assert(keys[block] >= place(scores[position]));
    assert(keys[block] > LOWEST);
    if mask[other] {
        let begin = home * size;
        let stop = accounting::smaller(begin + size, visible as int);
        assert(begin >= 0) by (nonlinear_arith)
            requires
                begin == home * size,
                home >= 0,
                size > 0,
        ;
        lemma_highest_is_best(scores, begin, stop);
        lemma_highest_bounds(scores, begin, stop);
        assert(keys[home] != LOWEST);
        if home != newest {
            assert(keys[home] == highest(scores, begin, stop));
            let k = choose|k: int|
                begin <= k < stop && place(#[trigger] scores[k]) == highest(scores, begin, stop);
            assert(begin < visible);
            lemma_same_block(k, home, size as int);
            if !mask[position] {
                let r = choose|r: int|
                    0 <= r < topk_blocks && r < order.len() && #[trigger] order[r] == home
                        && keys[home] != LOWEST;
                assert(order.contains(block as usize));
                let q = choose|q: int| 0 <= q < order.len() && order[q] == block as usize;
                if q < topk_blocks {
                    assert(order[q] == block);
                    assert(kept(keys, order, topk_blocks as int, block));
                }
                assert(ranking::precedes(keys, order[r], order[q]));
                places_follow_the_numbers(scores[k], scores[position]);
                assert(!is_lower(scores[k], scores[position]));
            }
        } else {
            let last = lemma_block(visible - 1, size as int, width);
            assert(last == newest);
        }
    }
    lemma_few_blocks(keys, order, topk_blocks, kept_blocks, mask, size, width);
}

proof fn lemma_same_block(k: int, block: int, size: int)
    requires
        size > 0,
        block * size <= k < block * size + size,
    ensures
        k / size == block,
{
    vstd::arithmetic::div_mod::lemma_fundamental_div_mod_converse(
        k,
        size,
        block,
        k - block * size,
    );
}

/// Different blocks among the first so many of a ranking are at most so many.
proof fn lemma_few_blocks(
    keys: Seq<i64>,
    order: Seq<usize>,
    topk_blocks: usize,
    kept_blocks: Seq<usize>,
    mask: Seq<bool>,
    size: usize,
    width: int,
)
    requires
        size > 0,
        mask.len() == width,
        ranking::ranking(keys, order),
        forall|i: int|
            0 <= i < mask.len() ==> #[trigger] mask[i] == kept(
                keys,
                order,
                topk_blocks as int,
                i / size as int,
            ),
        kept_blocks.no_duplicates(),
        forall|b: int|
            0 <= b < kept_blocks.len() ==> (#[trigger] kept_blocks[b]) * size < width
                && mask[kept_blocks[b] * size],
    ensures
        kept_blocks.len() <= topk_blocks,
{
    let taken = leading(order, topk_blocks);
    assert forall|b: int| 0 <= b < kept_blocks.len() implies taken.contains(
        #[trigger] kept_blocks[b],
    ) by {
        let block = kept_blocks[b] as int;
        assert(block * size >= 0) by (nonlinear_arith)
            requires
                block >= 0,
                size > 0,
        ;
        lemma_same_block(block * size, block, size as int);
        assert(mask[block * size] == kept(keys, order, topk_blocks as int, block));
        let r = choose|r: int|
            0 <= r < topk_blocks && r < order.len() && #[trigger] order[r] == block && keys[block]
                != LOWEST;
        assert(taken[r] == kept_blocks[b]);
    }
    kept_blocks.unique_seq_to_set();
    taken.lemma_cardinality_of_set();
    assert(kept_blocks.to_set().subset_of(taken.to_set())) by {
        assert forall|value: usize| kept_blocks.to_set().contains(value) implies taken.to_set().contains(
            value,
        ) by {
            let b = choose|b: int| 0 <= b < kept_blocks.len() && kept_blocks[b] == value;
            assert(taken.contains(kept_blocks[b]));
        }
    }
    vstd::set_lib::lemma_len_subset(kept_blocks.to_set(), taken.to_set());
}

/// These are different blocks, and all of them are candidates.
pub open spec fn are_kept(blocks: Seq<usize>, mask: Seq<bool>, size: usize) -> bool {
    &&& blocks.no_duplicates()
    &&& forall|b: int|
        0 <= b < blocks.len() ==> (#[trigger] blocks[b]) * size < mask.len() && mask[blocks[b]
            * size]
}

/// A visible position is left out only where as many blocks as asked for are candidates.
pub proof fn positions_are_left_out_for_a_full_choice(
    scores: Seq<u32>,
    visible: usize,
    topk_blocks: usize,
    size: usize,
    mask: Seq<bool>,
    position: int,
)
    requires
        scores.len() <= usize::MAX,
        scores_problem(scores, visible) is None,
        0 < size,
        candidate_mask(scores, visible, topk_blocks, size, mask),
        0 <= position < visible,
        !is_bottom(scores[position]),
        !mask[position],
    ensures
        exists|blocks: Seq<usize>|
            blocks.len() == topk_blocks && #[trigger] are_kept(blocks, mask, size),
{
    let keys = block_scores(scores, visible, size);
    let order = choose|order: Seq<usize>|
        #[trigger] ranking::ranking(keys, order) && (forall|i: int|
            0 <= i < mask.len() ==> #[trigger] mask[i] == kept(
                keys,
                order,
                topk_blocks as int,
                i / size as int,
            ));
    let width = scores.len() as int;
    let block = lemma_block(position, size as int, width);
    assert(mask[position] == kept(keys, order, topk_blocks as int, block));
    assert forall|k: int| 0 <= k < width implies !(0x7f80_0000 < #[trigger] scores[k] < 0x8000_0000)
        && scores[k] <= 0xff80_0000 by {
        only_numbers_are_selected_from(scores, visible);
    }
    let start = block * size;
    let end = accounting::smaller(start + size, visible as int);
    lemma_highest_is_best(scores, start, end);
    lemma_highest_bounds(scores, start, end);
    places_follow_the_numbers(scores[position], scores[position]);
    assert(place(scores[position]) <= highest(scores, start, end));
    assert(keys[block] > LOWEST);
    assert(order.contains(block as usize));
    let q = choose|q: int| 0 <= q < order.len() && order[q] == block as usize;
    if q < topk_blocks {
        assert(order[q] == block);
    }
    let blocks = order.take(topk_blocks as int);
    assert forall|b: int| 0 <= b < blocks.len() implies (#[trigger] blocks[b]) * size < mask.len()
        && mask[blocks[b] * size] by {
        assert(ranking::precedes(keys, order[b], order[q]));
        let one = order[b] as int;
        assert(one < keys.len());
        vstd::arithmetic::div_mod::lemma_fundamental_div_mod(width + size - 1, size as int);
        vstd::arithmetic::div_mod::lemma_mod_bound(width + size - 1, size as int);
        let count = (width + size - 1) / (size as int);
        assert(0 <= one * size < width) by (nonlinear_arith)
            requires
                width + size - 1 == size * count + (width + size - 1) % (size as int),
                (width + size - 1) % (size as int) >= 0,
                0 <= one < count,
                size > 0,
        ;
        lemma_same_block(one * size, one, size as int);
        assert(order[b] == one);
        assert(mask[one * size] == kept(keys, order, topk_blocks as int, one));
    }
    assert forall|a: int, b: int| 0 <= a < blocks.len() && 0 <= b < blocks.len() && a != b implies
        blocks[a] != blocks[b] by {
        if a < b {
            assert(ranking::precedes(keys, order[a], order[b]));
        } else {
            assert(ranking::precedes(keys, order[b], order[a]));
        }
    }
    assert(are_kept(blocks, mask, size));
}

} // verus!
