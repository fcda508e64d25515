//! Packed cache formats of DeepSeek-V4.1: which bytes a row holds, and caches that can be rolled
//! back.
//!
//! Rounding values to codes and scales is floating-point work of the caller. Here the codes are
//! checked, packed and kept.

use crate::models::deepseek_v4::math;
use crate::models::deepseek_v4::math::are_finite;
use crate::text;
use crate::text::push_decimal;
use crate::lists::copied;
use vstd::prelude::*;
use vstd::string::*;

verus! {

pub const MAIN_KV_GROUP_SIZE: usize = 16;

pub const INDEX_KEY_GROUP_SIZE: usize = 32;

pub const WINDOW_KV_GROUP_SIZE: usize = 32;

#[derive(Debug)]
pub enum KvCacheError {
    Invalid(String),
}

impl KvCacheError {
    pub open spec fn reason(self) -> Seq<char> {
        match self {
            KvCacheError::Invalid(reason) => reason@,
        }
    }

    pub open spec fn text(self) -> Seq<char> {
        "invalid DeepSeek-V4.1 KV cache: "@ + self.reason()
    }

    pub fn message(&self) -> (text: String)
        ensures
            text@ == self.text(),
    {
        match self {
            KvCacheError::Invalid(reason) => {
                let mut text = "invalid DeepSeek-V4.1 KV cache: ".to_owned();
                text.append(reason.as_str());
                text
            },
        }
    }
}

pub open spec fn problem<T>(result: Result<T, KvCacheError>) -> Option<Seq<char>> {
    match result {
        Ok(_) => None,
        Err(error) => Some(error.reason()),
    }
}

fn invalid<T>(reason: &str) -> (result: Result<T, KvCacheError>)
    ensures
        problem(result) == Some(reason@),
{
    Err(KvCacheError::Invalid(reason.to_owned()))
}

pub open spec fn row_message(width: nat, group: usize) -> Seq<char> {
    "row width "@ + text::decimal(width) + " must be a non-zero multiple of "@ + text::decimal(
        group as nat,
    ) + " with finite values"@
}

/// Why values cannot be a row.
pub open spec fn row_problem(values: Seq<u32>, group: usize) -> Option<Seq<char>> {
    if values.len() == 0 || values.len() % (group as nat) != 0 || !math::all_finite(values) {
        Some(row_message(values.len(), group))
    } else {
        None
    }
}

fn validate_row(values: &[u32], group: usize) -> (result: Result<(), KvCacheError>)
    requires
        group > 0,
    ensures
        problem(result) == row_problem(values@, group),
{
    if values.len() == 0 || values.len() % group != 0 || !are_finite(values) {
        let mut reason = "row width ".to_owned();
        push_decimal(&mut reason, values.len() as u64);
        reason.append(" must be a non-zero multiple of ");
        push_decimal(&mut reason, group as u64);
        reason.append(" with finite values");
        return Err(KvCacheError::Invalid(reason));
    }
    Ok(())
}

/// Every code has four bits.
pub open spec fn nibbles(codes: Seq<u8>) -> bool {
    forall|i: int| 0 <= i < codes.len() ==> #[trigger] codes[i] < 16
}

/// Two codes in every byte, the earlier one low.
pub open spec fn packed_codes(codes: Seq<u8>) -> Seq<u8> {
    Seq::new(codes.len() / 2, |i: int| (codes[2 * i] + 16 * codes[2 * i + 1]) as u8)
}

/// The code of a column.
pub open spec fn code_at(packed: Seq<u8>, column: int) -> u8 {
    if column % 2 == 0 {
        (packed[column / 2] % 16) as u8
    } else {
        (packed[column / 2] / 16) as u8
    }
}

/// The codes of the first `width` columns.
pub open spec fn unpacked_codes(packed: Seq<u8>, width: nat) -> Seq<u8> {
    Seq::new(width, |column: int| code_at(packed, column))
}

fn pack(codes: &[u8]) -> (packed: Vec<u8>)
    requires
        nibbles(codes@),
    ensures
        packed@ == packed_codes(codes@),
{
    let count: usize = codes.len();
    let half: usize = count / 2;
    let mut packed: Vec<u8> = Vec::new();
    let mut index: usize = 0;
    while index < half
        invariant
            nibbles(codes@),
            count == codes@.len(),
            half == count / 2,
            index <= half,
            packed@ == packed_codes(codes@).take(index as int),
        decreases half - index,
    {
        let low: u8 = codes[2 * index];
        let high: u8 = codes[2 * index + 1];
        assert(low < 16 && high < 16);
        assert(low | (high << 4) == low + 16 * high) by (bit_vector)
            requires
                low < 16,
                high < 16,
        ;
        packed.push(low | (high << 4));
        index = index + 1;
        assert(packed@ =~= packed_codes(codes@).take(index as int));
    }
    assert(packed@ =~= packed_codes(codes@));
    packed
}

fn unpack(packed: &Vec<u8>, width: usize) -> (codes: Vec<u8>)
    requires
        packed@.len() == (width + 1) / 2,
    ensures
        codes@ == unpacked_codes(packed@, width as nat),
{
    let mut codes: Vec<u8> = Vec::new();
    let mut column: usize = 0;
    while column < width
        invariant
            packed@.len() == (width + 1) / 2,
            column <= width,
            codes@ == unpacked_codes(packed@, width as nat).take(column as int),
        decreases width - column,
    {
        let byte: u8 = packed[column / 2];
        let code: u8 = if column % 2 == 0 {
            assert(byte & 0x0f == byte % 16) by (bit_vector);
            byte & 0x0f
        } else {
            assert(byte >> 4 == byte / 16) by (bit_vector);
            byte >> 4
        };
        codes.push(code);
        column = column + 1;
        assert(codes@ =~= unpacked_codes(packed@, width as nat).take(column as int));
    }
    assert(codes@ =~= unpacked_codes(packed@, width as nat));
    codes
}

/// Packing loses nothing: the codes of an even number of columns come back as they were.
pub proof fn packed_codes_come_back(codes: Seq<u8>)
    requires
        nibbles(codes),
        codes.len() % 2 == 0,
    ensures
        unpacked_codes(packed_codes(codes), codes.len()) == codes,
{
    let packed = packed_codes(codes);
    assert forall|column: int| 0 <= column < codes.len() implies code_at(packed, column)
        == codes[column] by {
        let i = column / 2;
        assert(0 <= i < packed.len());
        assert(codes[2 * i] < 16 && codes[2 * i + 1] < 16);
        assert(packed[i] == codes[2 * i] + 16 * codes[2 * i + 1]);
        if column % 2 == 0 {
            assert(column == 2 * i);
        } else {
            assert(column == 2 * i + 1);
        }
    }
    assert(unpacked_codes(packed, codes.len()) =~= codes);
}

/// A packed row and its scales.
pub struct RowView {
    pub width: nat,
    pub packed: Seq<u8>,
    pub scales: Seq<u8>,
}

impl RowView {
    /// The bytes are those of the width: two columns in a byte, a scale for every group.
    pub open spec fn well_formed(self, group: usize) -> bool {
        &&& self.width > 0
        &&& self.width % (group as nat) == 0
        &&& self.width <= usize::MAX
        &&& self.packed.len() == self.width / 2
        &&& self.scales.len() == self.width / (group as nat)
    }

    /// How many bytes the row takes.
    pub open spec fn bytes(self) -> nat {
        self.packed.len() + self.scales.len()
    }

    pub open spec fn from_bytes(width: nat, packed: Seq<u8>, scales: Seq<u8>) -> RowView {
        RowView { width, packed, scales }
    }

    /// The row of these codes and scales.
    pub open spec fn of(codes: Seq<u8>, scales: Seq<u8>) -> RowView {
        RowView { width: codes.len(), packed: packed_codes(codes), scales }
    }
}

/// What rounding a row gives: a code for every value and a scale for every group.
pub open spec fn rounded(values: nat, codes: Seq<u8>, scales: Seq<u8>, group: usize) -> bool {
    &&& codes.len() == values
    &&& scales.len() == values / (group as nat)
    &&& nibbles(codes)
}

proof fn lemma_row(codes: Seq<u8>, scales: Seq<u8>, group: usize)
    requires
        group == 16 || group == 32,
        0 < codes.len() <= usize::MAX,
        codes.len() % (group as nat) == 0,
        scales.len() == codes.len() / (group as nat),
    ensures
        RowView::of(codes, scales).well_formed(group),
        codes.len() % 2 == 0,
        RowView::of(codes, scales).bytes() <= codes.len(),
{
}

/// One indexer-key row: packed 4-bit values and one power-of-two scale per 32 channels.
#[derive(Debug, Clone, PartialEq, Eq)]
pub struct IndexKeyRow {
    width: usize,
    packed: Vec<u8>,
    scales: Vec<u8>,
}

impl View for IndexKeyRow {
    type V = RowView;

    closed spec fn view(&self) -> RowView {
        RowView { width: self.width as nat, packed: self.packed@, scales: self.scales@ }
    }
}

impl IndexKeyRow {
    pub open spec fn well_formed(&self) -> bool {
        self@.well_formed(INDEX_KEY_GROUP_SIZE)
    }

    /// Packs a row. The codes and scales are what its values were rounded to.
    pub fn quantize(values: &[u32], codes: &[u8], scales: Vec<u8>) -> (result: Result<
        Self,
        KvCacheError,
    >)
        requires
            row_problem(values@, INDEX_KEY_GROUP_SIZE) is None ==> rounded(
                values@.len(),
                codes@,
                scales@,
                INDEX_KEY_GROUP_SIZE,
            ),
        ensures
            problem(result) == row_problem(values@, INDEX_KEY_GROUP_SIZE),
            result is Ok ==> result->Ok_0@ == RowView::of(codes@, scales@)
                && result->Ok_0.well_formed(),
    {
        validate_row(values, INDEX_KEY_GROUP_SIZE)?;
        let width: usize = values.len();
        proof {
            lemma_row(codes@, scales@, INDEX_KEY_GROUP_SIZE);
        }
        Ok(IndexKeyRow { width, packed: pack(codes), scales })
    }

    /// The codes of all columns, to be decoded with their scales.
    pub fn codes(&self) -> (codes: Vec<u8>)
        requires
            self.well_formed(),
        ensures
            codes@ == unpacked_codes(self@.packed, self@.width),
    {
        assert(self@.width % 2 == 0);
        unpack(&self.packed, self.width)
    }

    pub fn storage_bytes(&self) -> (bytes: usize)
        requires
            self.well_formed(),
        ensures
            bytes == self@.bytes(),
    {
        self.packed.len() + self.scales.len()
    }

    pub fn packed(&self) -> (bytes: &Vec<u8>)
        ensures
            bytes@ == self@.packed,
    {
        &self.packed
    }

    pub fn scales(&self) -> (bytes: &Vec<u8>)
        ensures
            bytes@ == self@.scales,
    {
        &self.scales
    }
}

/// A scale of the main cache: an 8-bit number that is positive and not a NaN.
pub open spec fn scale_ok(code: u8) -> bool {
    0 < code < 0x7f
}

pub open spec fn scales_ok(scales: Seq<u8>) -> bool {
    forall|i: int| 0 <= i < scales.len() ==> scale_ok(#[trigger] scales[i])
}

fn check_scales(scales: &Vec<u8>) -> (ok: bool)
    ensures
        ok == scales_ok(scales@),
{
    let mut index: usize = 0;
    while index < scales.len()
        invariant
            index <= scales@.len(),
            forall|i: int| 0 <= i < index ==> scale_ok(#[trigger] scales@[i]),
        decreases scales@.len() - index,
    {
        if scales[index] == 0 || scales[index] >= 0x7f {
            assert(!scale_ok(scales@[index as int]));
            return false;
        }
        index = index + 1;
    }
    true
}

/// One global KV row: packed 4-bit values and one 8-bit scale for every 16 consecutive channels.
#[derive(Debug, Clone, PartialEq, Eq)]
pub struct MainKvRow {
    width: usize,
    packed: Vec<u8>,
    scales: Vec<u8>,
}

impl View for MainKvRow {
    type V = RowView;

    closed spec fn view(&self) -> RowView {
        RowView { width: self.width as nat, packed: self.packed@, scales: self.scales@ }
    }
}

impl MainKvRow {
    pub open spec fn well_formed(&self) -> bool {
        self@.well_formed(MAIN_KV_GROUP_SIZE) && scales_ok(self@.scales)
    }

    /// Packs a row. The codes and scales are what its values were rounded to.
    pub fn quantize(values: &[u32], codes: &[u8], scales: Vec<u8>) -> (result: Result<
        Self,
        KvCacheError,
    >)
        requires
            row_problem(values@, MAIN_KV_GROUP_SIZE) is None ==> rounded(
                values@.len(),
                codes@,
                scales@,
                MAIN_KV_GROUP_SIZE,
            ),
        ensures
            problem(result) == if row_problem(values@, MAIN_KV_GROUP_SIZE) is Some {
                row_problem(values@, MAIN_KV_GROUP_SIZE)
            } else if !scales_ok(scales@) {
                Some("E4M3 scale rounded to a non-finite or non-positive value"@)
            } else {
                None
            },
            result is Ok ==> result->Ok_0@ == RowView::of(codes@, scales@)
                && result->Ok_0.well_formed(),
    {
        validate_row(values, MAIN_KV_GROUP_SIZE)?;
        if !check_scales(&scales) {
            return invalid("E4M3 scale rounded to a non-finite or non-positive value");
        }
        let width: usize = values.len();
        proof {
            lemma_row(codes@, scales@, MAIN_KV_GROUP_SIZE);
        }
        Ok(MainKvRow { width, packed: pack(codes), scales })
    }

    /// A row from bytes that were packed before.
    pub fn from_parts(width: usize, packed: Vec<u8>, scales: Vec<u8>) -> (result: Result<
        Self,
        KvCacheError,
    >)
        ensures
            ({
                let row = RowView::from_bytes(width as nat, packed@, scales@);
                match result {
                    Ok(made) => made@ == row && made.well_formed(),
                    Err(error) => error.reason() == if !row.well_formed(MAIN_KV_GROUP_SIZE) {
                        "packed values/scales do not match the declared row width"@
                    } else {
                        "cache contains a non-finite or non-positive E4M3 scale"@
                    },
                }
            }),
            result is Ok <==> RowView::from_bytes(width as nat, packed@, scales@).well_formed(
                MAIN_KV_GROUP_SIZE,
            ) && scales_ok(scales@),
    {
        if width == 0 || width % MAIN_KV_GROUP_SIZE != 0 || packed.len() != width / 2
            || scales.len() != width / MAIN_KV_GROUP_SIZE {
            return invalid("packed values/scales do not match the declared row width");
        }
        if !check_scales(&scales) {
            return invalid("cache contains a non-finite or non-positive E4M3 scale");
        }
        Ok(MainKvRow { width, packed, scales })
    }

    /// The codes of all columns, to be decoded with their scales.
    pub fn codes(&self) -> (codes: Vec<u8>)
        requires
            self.well_formed(),
        ensures
            codes@ == unpacked_codes(self@.packed, self@.width),
    {
        assert(self@.width % 2 == 0);
        unpack(&self.packed, self.width)
    }

    pub fn width(&self) -> (width: usize)
        ensures
            width == self@.width,
    {
        self.width
    }

    pub fn packed(&self) -> (bytes: &Vec<u8>)
        ensures
            bytes@ == self@.packed,
    {
        &self.packed
    }

    pub fn scales(&self) -> (bytes: &Vec<u8>)
        ensures
            bytes@ == self@.scales,
    {
        &self.scales
    }

    pub fn storage_bytes(&self) -> (bytes: usize)
        requires
            self.well_formed(),
        ensures
            bytes == self@.bytes(),
    {
        self.packed.len() + self.scales.len()
    }
}

/// The bytes of a row follow from its width: half of it for the values, and one for every group.
pub proof fn row_bytes_follow_from_the_width(row: RowView, group: usize)
    requires
        row.well_formed(group),
    ensures
        row.bytes() == row.width / 2 + row.width / (group as nat),
{
}

pub open spec fn rows_bytes(rows: Seq<RowView>) -> nat
    decreases rows.len(),
{
    if rows.len() == 0 {
        0
    } else {
        rows_bytes(rows.drop_last()) + rows.last().bytes()
    }
}

proof fn lemma_bytes_grow(rows: Seq<RowView>, count: int)
    requires
        0 <= count <= rows.len(),
    ensures
        rows_bytes(rows.take(count)) <= rows_bytes(rows),
    decreases rows.len(),
{
    if count == rows.len() {
        assert(rows.take(count) =~= rows);
    } else {
        assert(rows.drop_last().take(count) =~= rows.take(count));
        lemma_bytes_grow(rows.drop_last(), count);
    }
}

/// The rows of a cache that only grows.
#[verifier::ext_equal]
pub struct CacheView {
    pub width: nat,
    pub rows: Seq<RowView>,
}

impl CacheView {
    /// There is a width of whole groups, and every row has it.
    pub open spec fn well_formed(self, group: usize) -> bool {
        &&& self.width > 0
        &&& self.width % (group as nat) == 0
        &&& forall|i: int|
            0 <= i < self.rows.len() ==> (#[trigger] self.rows[i]).well_formed(group)
                && self.rows[i].width == self.width
    }

    /// The cache with one row more.
    pub open spec fn pushed(self, row: RowView) -> CacheView {
        CacheView { rows: self.rows.push(row), ..self }
    }

    /// The cache with its first rows only.
    pub open spec fn rolled_back(self, checkpoint: int) -> CacheView {
        CacheView { rows: self.rows.take(checkpoint), ..self }
    }
}

/// Rolling back to a checkpoint undoes every row that was pushed behind it.
pub proof fn rollback_undoes_pushes(cache: CacheView, rows: Seq<RowView>)
    ensures
        (CacheView { rows: cache.rows + rows, ..cache }).rolled_back(cache.rows.len() as int)
            == cache,
{
    assert((cache.rows + rows).take(cache.rows.len() as int) =~= cache.rows);
}

/// The bytes of a cache follow from its width and the number of its rows.
pub proof fn cache_bytes_follow_from_the_width(cache: CacheView, group: usize)
    requires
        cache.well_formed(group),
    ensures
        rows_bytes(cache.rows) == cache.rows.len() * (cache.width / 2 + cache.width / (
        group as nat)),
    decreases cache.rows.len(),
{
    let unit = cache.width / 2 + cache.width / (group as nat);
    let count = cache.rows.len() as int;
    if count > 0 {
        let shorter = CacheView { rows: cache.rows.drop_last(), ..cache };
        assert forall|i: int| 0 <= i < shorter.rows.len() implies (
        #[trigger] shorter.rows[i]).well_formed(group) && shorter.rows[i].width
            == shorter.width by {
            assert(cache.rows[i].well_formed(group));
        }
        cache_bytes_follow_from_the_width(shorter, group);
        row_bytes_follow_from_the_width(cache.rows[count - 1], group);
        assert(count * unit == (count - 1) * unit + unit) by (nonlinear_arith);
    } else {
        assert(count * unit == 0) by (nonlinear_arith)
            requires
                count == 0,
        ;
    }
}

/// Every key of an indexer's cache has the width of the cache.
pub proof fn index_rows_have_the_width(cache: IndexKeyCache)
    requires
        cache.well_formed(),
    ensures
        cache@.well_formed(INDEX_KEY_GROUP_SIZE),
{
    assert forall|i: int| 0 <= i < cache@.rows.len() implies (
    #[trigger] cache@.rows[i]).well_formed(INDEX_KEY_GROUP_SIZE) && cache@.rows[i].width
        == cache@.width by {
        assert(cache.rows@[i].well_formed());
    }
}

/// Every row of an owner's cache has the width of the cache, and scales that are positive numbers.
pub proof fn main_rows_have_the_width(cache: MainKvCache)
    requires
        cache.well_formed(),
    ensures
        cache@.well_formed(MAIN_KV_GROUP_SIZE),
        forall|i: int|
            0 <= i < cache@.rows.len() ==> scales_ok((#[trigger] cache@.rows[i]).scales),
{
    assert forall|i: int| 0 <= i < cache@.rows.len() implies (
    #[trigger] cache@.rows[i]).well_formed(MAIN_KV_GROUP_SIZE) && cache@.rows[i].width
        == cache@.width && scales_ok(cache@.rows[i].scales) by {
        assert(cache.rows@[i].well_formed());
    }
}

/// Append-only storage for the keys of one indexer.
#[derive(Debug, Clone)]
pub struct IndexKeyCache {
    width: usize,
    rows: Vec<IndexKeyRow>,
}

impl View for IndexKeyCache {
    type V = CacheView;

    closed spec fn view(&self) -> CacheView {
        CacheView {
            width: self.width as nat,
            rows: Seq::new(self.rows@.len(), |i: int| self.rows@[i]@),
        }
    }
}

/// Why there is no cache of index keys of this width.
pub open spec fn index_width_problem(width: usize) -> Option<Seq<char>> {
    if width == 0 || width % INDEX_KEY_GROUP_SIZE != 0 {
        Some(
            "index key width must be a non-zero multiple of "@ + text::decimal(
                INDEX_KEY_GROUP_SIZE as nat,
            ),
        )
    } else {
        None
    }
}

impl IndexKeyCache {
    /// Every row has the width of the cache.
    pub closed spec fn well_formed(&self) -> bool {
        &&& self.width > 0
        &&& self.width % INDEX_KEY_GROUP_SIZE == 0
        &&& forall|i: int|
            0 <= i < self.rows@.len() ==> (#[trigger] self.rows@[i]).well_formed()
                && self.rows@[i]@.width == self.width
    }

    pub fn new(width: usize) -> (result: Result<Self, KvCacheError>)
        ensures
            problem(result) == index_width_problem(width),
            result is Ok ==> result->Ok_0.well_formed() && result->Ok_0@ == (CacheView {
                width: width as nat,
                rows: Seq::empty(),
            }),
    {
        if width == 0 || width % INDEX_KEY_GROUP_SIZE != 0 {
            let mut reason = "index key width must be a non-zero multiple of ".to_owned();
            push_decimal(&mut reason, INDEX_KEY_GROUP_SIZE as u64);
            return Err(KvCacheError::Invalid(reason));
        }
        let cache = IndexKeyCache { width, rows: Vec::new() };
        assert(cache@.rows =~= Seq::<RowView>::empty());
        Ok(cache)
    }

    /// Why values are not pushed.
    pub open spec fn push_problem(cache: CacheView, values: Seq<u32>) -> Option<Seq<char>> {
        if values.len() != cache.width {
            Some(
                "index key width "@ + text::decimal(values.len()) + " differs from cache width "@
                    + text::decimal(cache.width),
            )
        } else if row_problem(values, INDEX_KEY_GROUP_SIZE) is Some {
            row_problem(values, INDEX_KEY_GROUP_SIZE)
        } else {
            None
        }
    }

    /// Appends a row. The codes and scales are what its values were rounded to.
    pub fn push(&mut self, values: &[u32], codes: &[u8], scales: Vec<u8>) -> (result: Result<
        (),
        KvCacheError,
    >)
        requires
            old(self).well_formed(),
            row_problem(values@, INDEX_KEY_GROUP_SIZE) is None ==> rounded(
                values@.len(),
                codes@,
                scales@,
                INDEX_KEY_GROUP_SIZE,
            ),
        ensures
            final(self).well_formed(),
            problem(result) == Self::push_problem(old(self)@, values@),
            final(self)@ == if result is Ok {
                old(self)@.pushed(RowView::of(codes@, scales@))
            } else {
                old(self)@
            },
    {
        if values.len() != self.width {
            let mut reason = "index key width ".to_owned();
            push_decimal(&mut reason, values.len() as u64);
            reason.append(" differs from cache width ");
            push_decimal(&mut reason, self.width as u64);
            return Err(KvCacheError::Invalid(reason));
        }
        let ghost before = self@;
        let row = IndexKeyRow::quantize(values, codes, scales)?;
        self.rows.push(row);
        assert(self@.rows =~= before.rows.push(row@));
        Ok(())
    }

    pub fn row(&self, index: usize) -> (row: Option<&IndexKeyRow>)
        requires
            self.well_formed(),
        ensures
            match row {
                Some(row) => index < self@.rows.len() && row@ == self@.rows[index as int]
                    && row.well_formed(),
                None => index >= self@.rows.len(),
            },
    {
        if index < self.rows.len() {
            Some(&self.rows[index])
        } else {
            None
        }
    }

    pub fn len(&self) -> (count: usize)
        ensures
            count == self@.rows.len(),
    {
        self.rows.len()
    }

    pub fn is_empty(&self) -> (empty: bool)
        ensures
            empty == (self@.rows.len() == 0),
    {
        self.rows.len() == 0
    }

    /// Drops the rows behind a checkpoint.
    pub fn rollback(&mut self, checkpoint: usize) -> (result: Result<(), KvCacheError>)
        requires
            old(self).well_formed(),
        ensures
            final(self).well_formed(),
            problem(result) == if checkpoint > old(self)@.rows.len() {
                Some("index-key rollback checkpoint is beyond the current cache"@)
            } else {
                None
            },
            final(self)@ == if result is Ok {
                old(self)@.rolled_back(checkpoint as int)
            } else {
                old(self)@
            },
    {
        if checkpoint > self.rows.len() {
            return invalid("index-key rollback checkpoint is beyond the current cache");
        }
        let ghost before = self@;
        self.rows.truncate(checkpoint);
        assert(self@.rows =~= before.rows.take(checkpoint as int));
        Ok(())
    }

    pub fn storage_bytes(&self) -> (bytes: usize)
        requires
            self.well_formed(),
            rows_bytes(self@.rows) <= usize::MAX,
        ensures
            bytes == rows_bytes(self@.rows),
            bytes == self@.rows.len() * (self@.width / 2 + self@.width / (INDEX_KEY_GROUP_SIZE as nat)),
    {
        proof {
            index_rows_have_the_width(*self);
            cache_bytes_follow_from_the_width(self@, INDEX_KEY_GROUP_SIZE);
        }
        let ghost all = self@.rows;
        let mut bytes: usize = 0;
        let mut index: usize = 0;
        while index < self.rows.len()
            invariant
                self.well_formed(),
                all == self@.rows,
                rows_bytes(all) <= usize::MAX,
                index <= all.len(),
                bytes == rows_bytes(all.take(index as int)),
            decreases all.len() - index,
        {
            proof {
                assert(all.take(index + 1).drop_last() =~= all.take(index as int));
                assert(all.take(index + 1).last() == self.rows@[index as int]@);
                lemma_bytes_grow(all, index + 1);
            }
            bytes = bytes + self.rows[index].storage_bytes();
            index = index + 1;
        }
        assert(all.take(all.len() as int) =~= all);
        bytes
    }
}

/// Append-only storage for one global-KV owner. Rows remain packed while resident and can be rolled
/// back transactionally when a later layer or expert read fails.
#[derive(Debug, Clone)]
pub struct MainKvCache {
    width: usize,
    rows: Vec<MainKvRow>,
}

impl View for MainKvCache {
    type V = CacheView;

    closed spec fn view(&self) -> CacheView {
        CacheView {
            width: self.width as nat,
            rows: Seq::new(self.rows@.len(), |i: int| self.rows@[i]@),
        }
    }
}

/// Why there is no cache of compressed rows of this width.
pub open spec fn main_width_problem(width: usize) -> Option<Seq<char>> {
    if width == 0 || width % MAIN_KV_GROUP_SIZE != 0 {
        Some(
            "cache width must be a non-zero multiple of "@ + text::decimal(
                MAIN_KV_GROUP_SIZE as nat,
            ),
        )
    } else {
        None
    }
}

impl MainKvCache {
    /// Every row has the width of the cache.
    pub closed spec fn well_formed(&self) -> bool {
        &&& self.width > 0
        &&& self.width % MAIN_KV_GROUP_SIZE == 0
        &&& forall|i: int|
            0 <= i < self.rows@.len() ==> (#[trigger] self.rows@[i]).well_formed()
                && self.rows@[i]@.width == self.width
    }

    pub fn new(width: usize) -> (result: Result<Self, KvCacheError>)
        ensures
            problem(result) == main_width_problem(width),
            result is Ok ==> result->Ok_0.well_formed() && result->Ok_0@ == (CacheView {
                width: width as nat,
                rows: Seq::empty(),
            }),
    {
        if width == 0 || width % MAIN_KV_GROUP_SIZE != 0 {
            let mut reason = "cache width must be a non-zero multiple of ".to_owned();
            push_decimal(&mut reason, MAIN_KV_GROUP_SIZE as u64);
            return Err(KvCacheError::Invalid(reason));
        }
        let cache = MainKvCache { width, rows: Vec::new() };
        assert(cache@.rows =~= Seq::<RowView>::empty());
        Ok(cache)
    }

    /// Why values are not pushed, given the scales that they were rounded with.
    pub open spec fn push_problem(cache: CacheView, values: Seq<u32>, scales: Seq<u8>) -> Option<
        Seq<char>,
    > {
        if values.len() != cache.width {
            Some(
                "row width "@ + text::decimal(values.len()) + " differs from cache width "@
                    + text::decimal(cache.width),
            )
        } else if row_problem(values, MAIN_KV_GROUP_SIZE) is Some {
            row_problem(values, MAIN_KV_GROUP_SIZE)
        } else {
            if !scales_ok(scales) {
                Some("E4M3 scale rounded to a non-finite or non-positive value"@)
            } else {
                None
            }
        }
    }

    /// Appends a row. The codes and scales are what its values were rounded to.
    pub fn push(&mut self, values: &[u32], codes: &[u8], scales: Vec<u8>) -> (result: Result<
        (),
        KvCacheError,
    >)
        requires
            old(self).well_formed(),
            row_problem(values@, MAIN_KV_GROUP_SIZE) is None ==> rounded(
                values@.len(),
                codes@,
                scales@,
                MAIN_KV_GROUP_SIZE,
            ),
        ensures
            final(self).well_formed(),
            problem(result) == Self::push_problem(old(self)@, values@, scales@),
            final(self)@ == if result is Ok {
                old(self)@.pushed(RowView::of(codes@, scales@))
            } else {
                old(self)@
            },
    {
        if values.len() != self.width {
            let mut reason = "row width ".to_owned();
            push_decimal(&mut reason, values.len() as u64);
            reason.append(" differs from cache width ");
            push_decimal(&mut reason, self.width as u64);
            return Err(KvCacheError::Invalid(reason));
        }
        let ghost before = self@;
        let row = MainKvRow::quantize(values, codes, scales)?;
        self.rows.push(row);
        assert(self@.rows =~= before.rows.push(row@));
        Ok(())
    }

    pub fn row(&self, index: usize) -> (row: Option<&MainKvRow>)
        requires
            self.well_formed(),
        ensures
            match row {
                Some(row) => index < self@.rows.len() && row@ == self@.rows[index as int]
                    && row.well_formed(),
                None => index >= self@.rows.len(),
            },
    {
        if index < self.rows.len() {
            Some(&self.rows[index])
        } else {
            None
        }
    }

    pub fn len(&self) -> (count: usize)
        ensures
            count == self@.rows.len(),
    {
        self.rows.len()
    }

    pub fn is_empty(&self) -> (empty: bool)
        ensures
            empty == (self@.rows.len() == 0),
    {
        self.rows.len() == 0
    }

    pub fn checkpoint(&self) -> (checkpoint: usize)
        ensures
            checkpoint == self@.rows.len(),
    {
        self.rows.len()
    }

    /// Drops the rows behind a checkpoint.
    pub fn rollback(&mut self, checkpoint: usize) -> (result: Result<(), KvCacheError>)
        requires
            old(self).well_formed(),
        ensures
            final(self).well_formed(),
            problem(result) == if checkpoint > old(self)@.rows.len() {
                Some("rollback checkpoint is beyond the current cache"@)
            } else {
                None
            },
            final(self)@ == if result is Ok {
                old(self)@.rolled_back(checkpoint as int)
            } else {
                old(self)@
            },
    {
        if checkpoint > self.rows.len() {
            return invalid("rollback checkpoint is beyond the current cache");
        }
        let ghost before = self@;
        self.rows.truncate(checkpoint);
        assert(self@.rows =~= before.rows.take(checkpoint as int));
        Ok(())
    }

    pub fn storage_bytes(&self) -> (bytes: usize)
        requires
            self.well_formed(),
            rows_bytes(self@.rows) <= usize::MAX,
        ensures
            bytes == rows_bytes(self@.rows),
            bytes == self@.rows.len() * (self@.width / 2 + self@.width / (MAIN_KV_GROUP_SIZE as nat)),
    {
        proof {
            main_rows_have_the_width(*self);
            cache_bytes_follow_from_the_width(self@, MAIN_KV_GROUP_SIZE);
        }
        let ghost all = self@.rows;
        let mut bytes: usize = 0;
        let mut index: usize = 0;
        while index < self.rows.len()
            invariant
                self.well_formed(),
                all == self@.rows,
                rows_bytes(all) <= usize::MAX,
                index <= all.len(),
                bytes == rows_bytes(all.take(index as int)),
            decreases all.len() - index,
        {
            proof {
                assert(all.take(index + 1).drop_last() =~= all.take(index as int));
                assert(all.take(index + 1).last() == self.rows@[index as int]@);
                lemma_bytes_grow(all, index + 1);
            }
            bytes = bytes + self.rows[index].storage_bytes();
            index = index + 1;
        }
        assert(all.take(all.len() as int) =~= all);
        bytes
    }
}

/// One raw sliding-window KV row: 8-bit values and one power-of-two scale per 32 channels.
#[derive(Debug, Clone, PartialEq, Eq)]
pub struct WindowKvRow {
    values: Vec<u8>,
    scales: Vec<u8>,
}

/// What a [`WindowKvRow`] holds.
pub struct WindowRowView {
    pub values: Seq<u8>,
    pub scales: Seq<u8>,
}

impl View for WindowKvRow {
    type V = WindowRowView;

    closed spec fn view(&self) -> WindowRowView {
        WindowRowView { values: self.values@, scales: self.scales@ }
    }
}

impl WindowRowView {
    pub open spec fn well_formed(self) -> bool {
        &&& 0 < self.values.len() <= usize::MAX
        &&& self.values.len() % (WINDOW_KV_GROUP_SIZE as nat) == 0
        &&& self.scales.len() == self.values.len() / (WINDOW_KV_GROUP_SIZE as nat)
        &&& self.bytes() <= usize::MAX
    }

    pub open spec fn bytes(self) -> nat {
        self.values.len() + self.scales.len()
    }
}

/// An 8-bit code that is no number.
pub open spec fn not_a_number(code: u8) -> bool {
    code == 0x7f || code == 0xff
}

/// The first column whose code is no number.
pub open spec fn first_nan(codes: Seq<u8>) -> Option<int>
    decreases codes.len(),
{
    if codes.len() == 0 {
        None
    } else if first_nan(codes.drop_last()) is Some {
        first_nan(codes.drop_last())
    } else if not_a_number(codes.last()) {
        Some(codes.len() - 1)
    } else {
        None
    }
}

proof fn lemma_first_nan(codes: Seq<u8>, count: int)
    requires
        0 <= count <= codes.len(),
        first_nan(codes.take(count)) is Some,
    ensures
        first_nan(codes) == first_nan(codes.take(count)),
    decreases codes.len(),
{
    if count < codes.len() {
        assert(codes.drop_last().take(count) =~= codes.take(count));
        lemma_first_nan(codes.drop_last(), count);
    } else {
        assert(codes.take(count) =~= codes);
    }
}

/// The row that 8-bit codes and their scales make.
pub open spec fn window_rounded(values: nat, codes: Seq<u8>, scales: Seq<u8>) -> bool {
    &&& codes.len() == values
    &&& scales.len() == values / (WINDOW_KV_GROUP_SIZE as nat)
    &&& codes.len() + scales.len() <= usize::MAX
}

impl WindowKvRow {
    pub open spec fn well_formed(&self) -> bool {
        self@.well_formed()
    }

    /// A row of the codes and scales that its values were rounded to.
    pub fn quantize(values: &[u32], codes: Vec<u8>, scales: Vec<u8>) -> (result: Result<
        Self,
        KvCacheError,
    >)
        requires
            row_problem(values@, WINDOW_KV_GROUP_SIZE) is None ==> window_rounded(
                values@.len(),
                codes@,
                scales@,
            ),
        ensures
            problem(result) == row_problem(values@, WINDOW_KV_GROUP_SIZE),
            result is Ok ==> result->Ok_0@ == (WindowRowView { values: codes@, scales: scales@ })
                && result->Ok_0.well_formed(),
    {
        validate_row(values, WINDOW_KV_GROUP_SIZE)?;
        assert(codes.len() == codes@.len());
        Ok(WindowKvRow { values: codes, scales })
    }

    /// The codes and their scales, unless some code is no number.
    pub fn codes(&self) -> (result: Result<(&Vec<u8>, &Vec<u8>), KvCacheError>)
        ensures
            match result {
                Ok((values, scales)) => first_nan(self@.values) is None && values@ == self@.values
                    && scales@ == self@.scales,
                Err(error) => first_nan(self@.values) is Some && error.reason()
                    == "window KV column "@ + text::decimal(
                    first_nan(self@.values)->Some_0 as nat,
                ) + " contains an E4M3 NaN"@,
            },
    {
        let mut column: usize = 0;
        while column < self.values.len()
            invariant
                column <= self.values@.len(),
                first_nan(self.values@.take(column as int)) is None,
            decreases self.values@.len() - column,
        {
            proof {
                let longer = self.values@.take(column + 1);
                assert(longer.drop_last() =~= self.values@.take(column as int));
                if first_nan(longer) is Some {
                    lemma_first_nan(self.values@, column + 1);
                }
            }
            if self.values[column] == 0x7f || self.values[column] == 0xff {
                let mut reason = "window KV column ".to_owned();
                push_decimal(&mut reason, column as u64);
                reason.append(" contains an E4M3 NaN");
                return Err(KvCacheError::Invalid(reason));
            }
            column = column + 1;
        }
        assert(self.values@.take(self.values@.len() as int) =~= self.values@);
        Ok((&self.values, &self.scales))
    }

    pub fn width(&self) -> (width: usize)
        ensures
            width == self@.values.len(),
    {
        self.values.len()
    }

    pub fn storage_bytes(&self) -> (bytes: usize)
        requires
            self.well_formed(),
        ensures
            bytes == self@.bytes(),
    {
        self.values.len() + self.scales.len()
    }
}

/// Undo record for one ring write. Dropping it commits the write.
#[derive(Debug)]
pub struct WindowKvUndo {
    position: usize,
    slot: usize,
    previous: Option<(usize, WindowKvRow)>,
}

/// What a [`WindowKvUndo`] holds.
pub struct UndoView {
    pub position: usize,
    pub slot: int,
    pub previous: Option<(usize, WindowRowView)>,
}

pub open spec fn slot_view(slot: Option<(usize, WindowKvRow)>) -> Option<(usize, WindowRowView)> {
    match slot {
        Some((position, row)) => Some((position, row@)),
        None => None,
    }
}

impl View for WindowKvUndo {
    type V = UndoView;

    closed spec fn view(&self) -> UndoView {
        UndoView {
            position: self.position,
            slot: self.slot as int,
            previous: slot_view(self.previous),
        }
    }
}

/// Fixed-memory ring for raw sliding-window KV. Absolute positions guard against stale slots.
#[derive(Debug, Clone)]
pub struct WindowKvCache {
    width: usize,
    next_position: usize,
    slots: Vec<Option<(usize, WindowKvRow)>>,
}

/// What a [`WindowKvCache`] holds.
#[verifier::ext_equal]
pub struct WindowView {
    pub width: nat,
    pub next_position: nat,
    pub slots: Seq<Option<(usize, WindowRowView)>>,
}

impl View for WindowKvCache {
    type V = WindowView;

    closed spec fn view(&self) -> WindowView {
        WindowView {
            width: self.width as nat,
            next_position: self.next_position as nat,
            slots: Seq::new(self.slots@.len(), |i: int| slot_view(self.slots@[i])),
        }
    }
}

impl WindowView {
    /// The slot of a position.
    pub open spec fn slot(self, position: nat) -> int {
        position as int % self.slots.len() as int
    }

    /// There are slots, every row has the width of the ring, and every row stands in the slot of its
    /// position, which lies behind.
    pub open spec fn well_formed(self) -> bool {
        &&& 0 < self.slots.len() <= usize::MAX
        &&& 0 < self.width <= usize::MAX
        &&& self.width % (WINDOW_KV_GROUP_SIZE as nat) == 0
        &&& forall|i: int|
            0 <= i < self.slots.len() && #[trigger] self.slots[i] is Some ==> {
                let (position, row) = self.slots[i]->Some_0;
                &&& row.well_formed()
                &&& row.values.len() == self.width
                &&& position < self.next_position
                &&& self.slot(position as nat) == i
            }
    }

    /// A ring that holds nothing.
    pub open spec fn fresh(width: usize, capacity: usize) -> WindowView {
        WindowView {
            width: width as nat,
            next_position: 0,
            slots: Seq::new(capacity as nat, |i: int| None),
        }
    }

    /// The row that stands at a position.
    pub open spec fn at(self, position: nat) -> Option<WindowRowView> {
        match self.slots[self.slot(position)] {
            Some((stored, row)) => if stored == position {
                Some(row)
            } else {
                None
            },
            None => None,
        }
    }

    /// The ring with one position more.
    pub open spec fn appended(self, row: WindowRowView) -> WindowView {
        WindowView {
            next_position: self.next_position + 1,
            slots: self.slots.update(
                self.slot(self.next_position),
                Some((self.next_position as usize, row)),
            ),
            ..self
        }
    }

    /// What undoes the next position.
    pub open spec fn undo(self) -> UndoView {
        UndoView {
            position: self.next_position as usize,
            slot: self.slot(self.next_position),
            previous: self.slots[self.slot(self.next_position)],
        }
    }

    /// The undo record is of the latest write.
    pub open spec fn undoes(self, undo: UndoView) -> bool {
        &&& self.next_position == undo.position + 1
        &&& undo.slot == self.slot(undo.position as nat)
        &&& self.slots[undo.slot] is Some
        &&& self.slots[undo.slot]->Some_0.0 == undo.position
    }

    pub open spec fn undone(self, undo: UndoView) -> WindowView {
        WindowView {
            next_position: undo.position as nat,
            slots: self.slots.update(undo.slot, undo.previous),
            ..self
        }
    }
}

/// A write is found at its position, leaves the positions of other slots as they were, and makes the
/// position that had its slot unknown.
pub proof fn a_write_changes_one_slot(ring: WindowView, row: WindowRowView, position: nat)
    requires
        ring.well_formed(),
        ring.next_position <= usize::MAX,
        position <= usize::MAX,
    ensures
        ring.appended(row).at(position) == if position == ring.next_position {
            Some(row)
        } else if ring.slot(position) == ring.slot(ring.next_position) {
            None
        } else {
            ring.at(position)
        },
{
    vstd::arithmetic::div_mod::lemma_mod_bound(position as int, ring.slots.len() as int);
    vstd::arithmetic::div_mod::lemma_mod_bound(
        ring.next_position as int,
        ring.slots.len() as int,
    );
}

/// Undoing the latest write gives back the ring as it was.
pub proof fn undo_gives_back_the_ring(ring: WindowView, row: WindowRowView)
    requires
        ring.well_formed(),
        ring.next_position < usize::MAX,
    ensures
        ring.appended(row).undoes(ring.undo()),
        ring.appended(row).undone(ring.undo()) == ring,
{
    vstd::arithmetic::div_mod::lemma_mod_bound(
        ring.next_position as int,
        ring.slots.len() as int,
    );
    assert(ring.appended(row).undone(ring.undo()).slots =~= ring.slots);
}

pub open spec fn window_message() -> Seq<char> {
    "window width must be a non-zero multiple of "@ + text::decimal(
        WINDOW_KV_GROUP_SIZE as nat,
    ) + " and capacity must be non-zero"@
}

/// Why there is no ring of this width and capacity.
pub open spec fn window_problem(width: usize, capacity: usize) -> Option<Seq<char>> {
    if width == 0 || width % WINDOW_KV_GROUP_SIZE != 0 || capacity == 0 {
        Some(window_message())
    } else {
        None
    }
}

/// Why a position is not written.
pub open spec fn append_problem(ring: WindowView, position: usize, values: Seq<u32>) -> Option<
    Seq<char>,
> {
    if position != ring.next_position || values.len() != ring.width {
        Some(append_message(ring, position, values.len()))
    } else {
        row_problem(values, WINDOW_KV_GROUP_SIZE)
    }
}

pub open spec fn append_message(ring: WindowView, position: usize, width: nat) -> Seq<char> {
    "window append expects position "@ + text::decimal(ring.next_position) + " and width "@
        + text::decimal(ring.width) + ", got position "@ + text::decimal(position as nat)
        + " and width "@ + text::decimal(width)
}

pub open spec fn slots_bytes(slots: Seq<Option<(usize, WindowRowView)>>) -> nat
    decreases slots.len(),
{
    if slots.len() == 0 {
        0
    } else {
        slots_bytes(slots.drop_last()) + match slots.last() {
            Some((_, row)) => row.bytes(),
            None => 0,
        }
    }
}

proof fn lemma_slots_grow(slots: Seq<Option<(usize, WindowRowView)>>, count: int)
    requires
        0 <= count <= slots.len(),
    ensures
        slots_bytes(slots.take(count)) <= slots_bytes(slots),
    decreases slots.len(),
{
    if count == slots.len() {
        assert(slots.take(count) =~= slots);
    } else {
        assert(slots.drop_last().take(count) =~= slots.take(count));
        lemma_slots_grow(slots.drop_last(), count);
    }
}

impl WindowKvCache {
    pub open spec fn well_formed(&self) -> bool {
        self@.well_formed()
    }

    pub fn new(width: usize, capacity: usize) -> (result: Result<Self, KvCacheError>)
        ensures
            problem(result) == window_problem(width, capacity),
            result is Ok ==> result->Ok_0.well_formed() && result->Ok_0@ == WindowView::fresh(
                width,
                capacity,
            ),
    {
        if width == 0 || width % WINDOW_KV_GROUP_SIZE != 0 || capacity == 0 {
            let mut reason = "window width must be a non-zero multiple of ".to_owned();
            push_decimal(&mut reason, WINDOW_KV_GROUP_SIZE as u64);
            reason.append(" and capacity must be non-zero");
            return Err(KvCacheError::Invalid(reason));
        }
        let mut slots: Vec<Option<(usize, WindowKvRow)>> = Vec::new();
        let mut index: usize = 0;
        while index < capacity
            invariant
                index <= capacity,
                slots@.len() == index,
                forall|i: int| 0 <= i < index ==> #[trigger] slots@[i] is None,
            decreases capacity - index,
        {
            slots.push(None);
            index = index + 1;
        }
        let cache = WindowKvCache { width, next_position: 0, slots };
        assert(cache@.slots =~= Seq::new(capacity as nat, |i: int| None));
        Ok(cache)
    }

    /// Writes the next position. The codes and scales are what its values were rounded to.
    pub fn append(
        &mut self,
        position: usize,
        values: &[u32],
        codes: Vec<u8>,
        scales: Vec<u8>,
    ) -> (result: Result<WindowKvUndo, KvCacheError>)
        requires
            old(self).well_formed(),
            position < usize::MAX,
            row_problem(values@, WINDOW_KV_GROUP_SIZE) is None ==> window_rounded(
                values@.len(),
                codes@,
                scales@,
            ),
        ensures
            final(self).well_formed(),
            problem(result) == append_problem(old(self)@, position, values@),
            match result {
                Ok(undo) => final(self)@ == old(self)@.appended(
                    WindowRowView { values: codes@, scales: scales@ },
                ) && undo@ == old(self)@.undo(),
                Err(_) => final(self)@ == old(self)@,
            },
    {
        if position != self.next_position || values.len() != self.width {
            let mut reason = "window append expects position ".to_owned();
            push_decimal(&mut reason, self.next_position as u64);
            reason.append(" and width ");
            push_decimal(&mut reason, self.width as u64);
            reason.append(", got position ");
            push_decimal(&mut reason, position as u64);
            reason.append(" and width ");
            push_decimal(&mut reason, values.len() as u64);
            return Err(KvCacheError::Invalid(reason));
        }
        let ghost before = self@;
        let row = WindowKvRow::quantize(values, codes, scales)?;
        let slot: usize = position % self.slots.len();
        let previous = self.slots[slot].take();
        self.slots.set(slot, Some((position, row)));
        self.next_position = self.next_position + 1;
        proof {
            let wanted = before.appended(row@);
            assert(self@.slots =~= wanted.slots);
            assert forall|i: int|
                0 <= i < wanted.slots.len() && #[trigger] wanted.slots[i] is Some implies {
                let (position, row) = wanted.slots[i]->Some_0;
                &&& row.well_formed()
                &&& row.values.len() == wanted.width
                &&& position < wanted.next_position
                &&& wanted.slot(position as nat) == i
            } by {
                if i != slot {
                    assert(before.slots[i] is Some);
                }
            }
        }
        Ok(WindowKvUndo { position, slot, previous })
    }

    /// Undoes the latest write.
    pub fn rollback(&mut self, undo: WindowKvUndo) -> (result: Result<(), KvCacheError>)
        requires
            old(self)@.slots.len() > 0,
        ensures
            problem(result) == if old(self)@.undoes(undo@) {
                None
            } else {
                Some("window undo is stale or is not the latest append"@)
            },
            final(self)@ == if result is Ok {
                old(self)@.undone(undo@)
            } else {
                old(self)@
            },
    {
        let ghost before = self@;
        let WindowKvUndo { position, slot, previous } = undo;
        let latest = self.next_position > 0 && self.next_position - 1 == position;
        if !latest || slot != position % self.slots.len() {
            return invalid("window undo is stale or is not the latest append");
        }
        let stands = match &self.slots[slot] {
            Some((stored, _)) => *stored == position,
            None => false,
        };
        assert(before.slots[slot as int] == slot_view(self.slots@[slot as int]));
        if !stands {
            return invalid("window undo is stale or is not the latest append");
        }
        self.slots.set(slot, previous);
        self.next_position = position;
        assert(self@.slots =~= before.undone(undo@).slots);
        Ok(())
    }

    /// The row at a position, as long as it is in the ring.
    pub fn get(&self, position: usize) -> (row: Option<&WindowKvRow>)
        requires
            self@.slots.len() > 0,
        ensures
            match row {
                Some(row) => self@.at(position as nat) == Some(row@),
                None => self@.at(position as nat) is None,
            },
    {
        let slot: usize = position % self.slots.len();
        assert(self@.slots[slot as int] == slot_view(self.slots@[slot as int]));
        match &self.slots[slot] {
            Some((stored, row)) => {
                if *stored == position {
                    Some(row)
                } else {
                    None
                }
            },
            None => None,
        }
    }

    pub fn next_position(&self) -> (position: usize)
        ensures
            position == self@.next_position,
    {
        self.next_position
    }

    pub fn storage_bytes(&self) -> (bytes: usize)
        requires
            self.well_formed(),
            slots_bytes(self@.slots) <= usize::MAX,
        ensures
            bytes == slots_bytes(self@.slots),
            self@.complete() ==> bytes == held_positions(self@) * (self@.width + self@.width / (
            WINDOW_KV_GROUP_SIZE as nat)),
    {
        proof {
            if self@.complete() {
                ring_bytes_follow_from_the_width(self@);
            }
        }
        let ghost all = self@.slots;
        let mut bytes: usize = 0;
        let mut index: usize = 0;
        while index < self.slots.len()
            invariant
                self.well_formed(),
                all == self@.slots,
                slots_bytes(all) <= usize::MAX,
                index <= all.len(),
                bytes == slots_bytes(all.take(index as int)),
            decreases all.len() - index,
        {
            proof {
                assert(all.take(index + 1).drop_last() =~= all.take(index as int));
                assert(all.take(index + 1).last() == slot_view(self.slots@[index as int]));
                lemma_slots_grow(all, index + 1);
            }
            match &self.slots[index] {
                Some((_, row)) => {
                    assert(all[index as int] is Some);
                    bytes = bytes + row.storage_bytes();
                },
                None => {},
            }
            index = index + 1;
        }
        assert(all.take(all.len() as int) =~= all);
        bytes
    }
}

impl WindowKvRow {
    /// The same row once more.
    pub fn copy(&self) -> (copy: Self)
        ensures
            copy@ == self@,
    {
        WindowKvRow { values: copied(self.values.as_slice()), scales: copied(self.scales.as_slice()) }
    }
}

impl WindowKvCache {
    /// The same ring once more.
    pub fn copy(&self) -> (copy: Self)
        ensures
            copy@ == self@,
    {
        let mut slots: Vec<Option<(usize, WindowKvRow)>> = Vec::new();
        let mut index: usize = 0;
        while index < self.slots.len()
            invariant
                index <= self.slots@.len(),
                slots@.len() == index,
                forall|i: int|
                    0 <= i < index ==> slot_view(#[trigger] slots@[i]) == slot_view(self.slots@[i]),
            decreases self.slots@.len() - index,
        {
            let slot = match &self.slots[index] {
                Some((position, row)) => Some((*position, row.copy())),
                None => None,
            };
            slots.push(slot);
            index = index + 1;
        }
        let copy = WindowKvCache { width: self.width, next_position: self.next_position, slots };
        assert(copy@.slots =~= self@.slots);
        copy
    }
}

impl WindowView {
    /// Every position that still has a slot of its own is there.
    pub open spec fn complete(self) -> bool {
        forall|position: nat|
            self.next_position <= position + self.slots.len() && position < self.next_position
                ==> #[trigger] self.at(position) is Some
    }
}

/// A ring that was filled from the beginning holds the last positions, as many as it has slots.
pub proof fn the_ring_stays_complete(ring: WindowView, row: WindowRowView)
    requires
        ring.well_formed(),
        ring.complete(),
        ring.next_position < usize::MAX,
    ensures
        ring.appended(row).complete(),
{
    let next = ring.appended(row);
    let size = ring.slots.len() as int;
    assert forall|position: nat|
        next.next_position <= position + next.slots.len() && position
            < next.next_position implies #[trigger] next.at(position) is Some by {
        a_write_changes_one_slot(ring, row, position);
        if position != ring.next_position {
            if ring.slot(position) == ring.slot(ring.next_position) {
                let gap = ring.next_position - position;
                vstd::arithmetic::div_mod::lemma_mod_equivalence(
                    ring.next_position as int,
                    position as int,
                    size,
                );
                vstd::arithmetic::div_mod::lemma_small_mod(gap as nat, size as nat);
            }
            assert(ring.at(position) is Some);
        }
    }
}

/// The last position before `next` that a slot stands for.
proof fn lemma_last_of_slot(next: int, size: int, slot: int) -> (position: int)
    requires
        0 < size <= next,
        0 <= slot < size,
    ensures
        next - size <= position < next,
        position >= 0,
        position % size == slot,
{
    let gap = (next - 1 - slot) % size;
    let position = next - 1 - gap;
    vstd::arithmetic::div_mod::lemma_mod_bound(next - 1 - slot, size);
    vstd::arithmetic::div_mod::lemma_fundamental_div_mod(next - 1 - slot, size);
    let times = (next - 1 - slot) / size;
    assert(position == times * size + slot) by (nonlinear_arith)
        requires
            next - 1 - slot == size * times + gap,
            position == next - 1 - gap,
    ;
    vstd::arithmetic::div_mod::lemma_fundamental_div_mod_converse(position, size, times, slot);
    position
}

/// The slots of a complete ring are taken in order, and then all of them.
proof fn lemma_taken_slots(ring: WindowView, i: int)
    requires
        ring.well_formed(),
        ring.complete(),
        0 <= i < ring.slots.len(),
    ensures
        ring.slots[i] is Some <==> i < ring.next_position,
        ring.slots[i] is Some ==> ring.next_position <= ring.slots[i]->Some_0.0
            + ring.slots.len(),
{
    let size = ring.slots.len() as int;
    let next = ring.next_position as int;
    if size <= next {
        let last = lemma_last_of_slot(next, size, i);
        assert(ring.at(last as nat) is Some);
    } else if i < next {
        vstd::arithmetic::div_mod::lemma_small_mod(i as nat, size as nat);
        assert(ring.at(i as nat) is Some);
    } else if ring.slots[i] is Some {
        let position = ring.slots[i]->Some_0.0;
        vstd::arithmetic::div_mod::lemma_small_mod(position as nat, size as nat);
    }
}

/// A ring that was filled from the beginning holds its last positions, as many as it has slots, and
/// no others.
pub proof fn a_complete_ring_holds_its_last_positions(ring: WindowView, position: nat)
    requires
        ring.well_formed(),
        ring.complete(),
    ensures
        ring.at(position) is Some <==> position < ring.next_position && ring.next_position
            <= position + ring.slots.len(),
{
    let slot = ring.slot(position);
    vstd::arithmetic::div_mod::lemma_mod_bound(position as int, ring.slots.len() as int);
    lemma_taken_slots(ring, slot);
}

/// How many positions a ring holds.
pub open spec fn held_positions(ring: WindowView) -> nat {
    if ring.next_position < ring.slots.len() {
        ring.next_position
    } else {
        ring.slots.len()
    }
}

/// The bytes of a ring that was filled from the beginning follow from its width and the number of
/// positions that it holds.
pub proof fn ring_bytes_follow_from_the_width(ring: WindowView)
    requires
        ring.well_formed(),
        ring.complete(),
    ensures
        slots_bytes(ring.slots) == held_positions(ring) * (ring.width + ring.width / (
        WINDOW_KV_GROUP_SIZE as nat)),
{
    lemma_slots_bytes(ring, ring.slots.len() as int);
    assert(ring.slots.take(ring.slots.len() as int) =~= ring.slots);
}

proof fn lemma_slots_bytes(ring: WindowView, count: int)
    requires
        ring.well_formed(),
        ring.complete(),
        0 <= count <= ring.slots.len(),
    ensures
        slots_bytes(ring.slots.take(count)) == (if ring.next_position < count {
            ring.next_position as int
        } else {
            count
        }) * (ring.width + ring.width / (WINDOW_KV_GROUP_SIZE as nat)),
    decreases count,
{
    let unit = (ring.width + ring.width / (WINDOW_KV_GROUP_SIZE as nat)) as int;
    if count > 0 {
        let all = ring.slots.take(count);
        assert(all.drop_last() =~= ring.slots.take(count - 1));
        assert(all.last() == ring.slots[count - 1]);
        lemma_slots_bytes(ring, count - 1);
        lemma_taken_slots(ring, count - 1);
        assert(count * unit == (count - 1) * unit + unit) by (nonlinear_arith);
    } else {
        assert(0 * unit == 0);
    }
}

/// A ring that holds nothing lacks nothing.
pub proof fn a_fresh_ring_is_complete(width: usize, capacity: usize)
    ensures
        WindowView::fresh(width, capacity).complete(),
{
}

/// Two codes share a byte: the even column is its lower half and the odd one its upper half, and
/// taking a byte apart gives them in that order.
pub proof fn even_columns_are_lower_halves(codes: Seq<u8>, packed: Seq<u8>, i: int)
    requires
        nibbles(codes),
        codes.len() % 2 == 0,
        0 <= i < packed.len(),
    ensures
        packed_codes(codes).len() * 2 == codes.len(),
        i < packed_codes(codes).len() ==> packed_codes(codes)[i] as int % 16 == codes[2 * i]
            && packed_codes(codes)[i] as int / 16 == codes[2 * i + 1],
        unpacked_codes(packed, packed.len() * 2)[2 * i] as int == packed[i] as int % 16,
        unpacked_codes(packed, packed.len() * 2)[2 * i + 1] as int == packed[i] as int / 16,
{
    if i < packed_codes(codes).len() {
        assert(codes[2 * i] < 16 && codes[2 * i + 1] < 16);
        assert(packed_codes(codes)[i] == codes[2 * i] + 16 * codes[2 * i + 1]);
    }
    assert((2 * i) / 2 == i && (2 * i) % 2 == 0);
    assert((2 * i + 1) / 2 == i && (2 * i + 1) % 2 == 1);
}

/// Rows of main values are divided into sixteens, index keys and window rows into thirty-twos: only
/// such widths are taken, of numbers alone, and every part has a byte for its scale beside the bytes
/// of its values.
pub proof fn rows_are_divided_into_their_groups(
    values: Seq<u32>,
    width: usize,
    capacity: usize,
    row: RowView,
    window: WindowRowView,
)
    ensures
        row_problem(values, MAIN_KV_GROUP_SIZE) is None <==> values.len() > 0 && values.len() % 16
            == 0 && math::all_finite(values),
        row_problem(values, INDEX_KEY_GROUP_SIZE) is None <==> values.len() > 0 && values.len() % 32
            == 0 && math::all_finite(values),
        row_problem(values, WINDOW_KV_GROUP_SIZE) is None <==> values.len() > 0 && values.len() % 32
            == 0 && math::all_finite(values),
        main_width_problem(width) is None <==> width > 0 && width as int % 16 == 0,
        index_width_problem(width) is None <==> width > 0 && width as int % 32 == 0,
        window_problem(width, capacity) is None <==> width > 0 && width as int % 32 == 0 && capacity
            > 0,
        row.well_formed(MAIN_KV_GROUP_SIZE) ==> row.bytes() == row.width / 2 + row.width / 16,
        row.well_formed(INDEX_KEY_GROUP_SIZE) ==> row.bytes() == row.width / 2 + row.width / 32,
        window.well_formed() ==> window.bytes() == window.values.len() + window.values.len() / 32,
{
}

/// A row keeps the scales that it was given and as many columns as it has codes.
pub proof fn rows_keep_their_scales(codes: Seq<u8>, scales: Seq<u8>)
    ensures
        RowView::of(codes, scales).scales == scales,
        RowView::of(codes, scales).width == codes.len(),
{
}

/// A scale is sound where its code is that of a positive number: its sign is clear, and it is neither
/// zero nor the pattern that stands for no number.
pub proof fn scales_are_positive_numbers(code: u8)
    ensures
        scale_ok(code) <==> code as int / 128 == 0 && code as int % 128 != 0 && code as int % 128
            != 127,
{
}

/// The values that are no numbers are those whose lower seven bits are all set, and the first of them
/// is found.
pub proof fn the_first_non_number_is_found(codes: Seq<u8>, i: int)
    requires
        0 <= i < codes.len(),
    ensures
        first_nan(codes) is None ==> codes[i] as int % 128 != 127,
        first_nan(codes) matches Some(at) ==> 0 <= at < codes.len() && codes[at] as int % 128 == 127
            && (i < at ==> codes[i] as int % 128 != 127),
    decreases codes.len(),
{
    let front = codes.drop_last();
    if front.len() > 0 {
        let other = if i < front.len() {
            i
        } else {
            0
        };
        the_first_non_number_is_found(front, other);
        if first_nan(front) is Some {
            let at = first_nan(front)->0;
            assert(front[at] == codes[at]);
        }
        assert(front[other] == codes[other]);
    }
}

/// A push adds its row behind the others and changes none of them.
pub proof fn a_push_adds_the_last_row(cache: CacheView, row: RowView, i: int)
    requires
        0 <= i < cache.rows.len(),
    ensures
        cache.pushed(row).rows.len() == cache.rows.len() + 1,
        cache.pushed(row).rows.last() == row,
        cache.pushed(row).rows[i] == cache.rows[i],
        cache.pushed(row).width == cache.width,
{
}

/// A row is appended exactly where it is as wide as its cache, sound and, in a cache of main values, has
/// sound scales; in a window also only at the next position.
pub proof fn sound_rows_are_appended(
    cache: CacheView,
    ring: WindowView,
    position: usize,
    values: Seq<u32>,
    scales: Seq<u8>,
)
    ensures
        IndexKeyCache::push_problem(cache, values) is None <==> values.len() == cache.width
            && row_problem(values, INDEX_KEY_GROUP_SIZE) is None,
        MainKvCache::push_problem(cache, values, scales) is None <==> values.len() == cache.width
            && row_problem(values, MAIN_KV_GROUP_SIZE) is None && forall|i: int|
            0 <= i < scales.len() ==> scale_ok(#[trigger] scales[i]),
        append_problem(ring, position, values) is None <==> position == ring.next_position
            && values.len() == ring.width && row_problem(values, WINDOW_KV_GROUP_SIZE) is None,
{
}

} // verus!
