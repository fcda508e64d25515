//! The token map of the Engram tables: tokens that normalize to the same text share one id.

use crate::text;
use crate::text::{characters, same_text, trim};
use unicode_general_category::get_general_category;
use unicode_normalization::UnicodeNormalization;
use vstd::hash_map::StringHashMap;
use vstd::prelude::*;
use vstd::string::*;

verus! {

/// The compatibility composition (form NFKC) of a text.
pub uninterp spec fn composed(text: Seq<char>) -> Seq<char>;

/// The canonical decomposition (form NFD) of a text.
pub uninterp spec fn decomposed(text: Seq<char>) -> Seq<char>;

/// The abbreviation of the general category of a character.
pub uninterp spec fn category(character: char) -> Seq<char>;

/// The characters of which the lower case of a character is made.
pub uninterp spec fn lower_case(character: char) -> Seq<char>;

/// Calls `UnicodeNormalization::nfkc` and collects its characters. They depend on the text alone
/// and are named `composed`; what the form is, is left unsaid.
#[verifier::external_body]
fn compose(text: &str) -> (result: String)
    ensures
        result@ == composed(text@),
{
    text.nfkc().collect::<String>()
}

/// Calls `UnicodeNormalization::nfd` and collects its characters. They depend on the text alone
/// and are named `decomposed`; what the form is, is left unsaid.
#[verifier::external_body]
fn decompose(text: &str) -> (result: String)
    ensures
        result@ == decomposed(text@),
{
    text.nfd().collect::<String>()
}

/// Calls `unicode_general_category::get_general_category` and takes the abbreviation of what it
/// gives, of which every category has its own. It depends on the character alone and is named
/// `category`; which characters are of which category is left unsaid.
#[verifier::external_body]
fn categorize(character: char) -> (abbreviation: &'static str)
    ensures
        abbreviation@ == category(character),
{
    get_general_category(character).abbreviation()
}

/// Calls `char::to_lowercase`. The characters that it gives depend on its argument alone and are
/// named `lower_case`; the case mapping is left unsaid.
#[verifier::external_body]
fn lower(character: char) -> (result: String)
    ensures
        result@ == lower_case(character),
{
    character.to_lowercase().to_string()
}

/// The categories of marks: nonspacing, spacing and enclosing ones.
pub open spec fn mark_category(abbreviation: Seq<char>) -> bool {
    abbreviation == "Mn"@ || abbreviation == "Mc"@ || abbreviation == "Me"@
}

/// Whether a category is one of marks.
pub fn is_mark_category(abbreviation: &str) -> (result: bool)
    ensures
        result == mark_category(abbreviation@),
{
    same_text(abbreviation, "Mn") || same_text(abbreviation, "Mc") || same_text(
        abbreviation,
        "Me",
    )
}

/// A text in lower case without its marks.
pub open spec fn without_marks(text: Seq<char>) -> Seq<char>
    decreases text.len(),
{
    if text.len() == 0 {
        Seq::empty()
    } else if mark_category(category(text.last())) {
        without_marks(text.drop_last())
    } else {
        without_marks(text.drop_last()) + lower_case(text.last())
    }
}

/// Drops the marks of a text and lowers the rest.
pub fn strip_marks(text: &str) -> (result: String)
    ensures
        result@ == without_marks(text@),
{
    let list = characters(text);
    let mut result = String::new();
    let mut i: usize = 0;
    proof {
        assert(list@.take(0) =~= Seq::<char>::empty());
    }
    while i < list.len()
        invariant
            i <= list@.len(),
            result@ == without_marks(list@.take(i as int)),
        decreases list@.len() - i,
    {
        proof {
            assert(list@.take(i + 1).drop_last() =~= list@.take(i as int));
        }
        if !is_mark_category(categorize(list[i])) {
            let lowered = lower(list[i]);
            result.append(lowered.as_str());
        }
        i = i + 1;
    }
    proof {
        assert(list@.take(i as int) =~= text@);
    }
    result
}

/// A blank, a tab or an end of line.
pub open spec fn ascii_space(character: char) -> bool {
    character == ' ' || character == '\t' || character == '\r' || character == '\n'
}

/// A text with one blank for each run of ASCII white space.
pub open spec fn collapsed(text: Seq<char>) -> Seq<char>
    decreases text.len(),
{
    if text.len() == 0 {
        Seq::empty()
    } else if !ascii_space(text.last()) {
        collapsed(text.drop_last()).push(text.last())
    } else if text.len() > 1 && ascii_space(text[text.len() - 2]) {
        collapsed(text.drop_last())
    } else {
        collapsed(text.drop_last()).push(' ')
    }
}

/// Puts one blank for each run of ASCII white space.
pub fn collapse_spaces(text: &str) -> (result: String)
    ensures
        result@ == collapsed(text@),
{
    let list = characters(text);
    let mut result = String::new();
    let mut in_space: bool = false;
    let mut i: usize = 0;
    proof {
        assert(list@.take(0) =~= Seq::<char>::empty());
    }
    while i < list.len()
        invariant
            list@ == text@,
            i <= list@.len(),
            in_space == (i > 0 && ascii_space(list@[i - 1])),
            result@ == collapsed(list@.take(i as int)),
        decreases list@.len() - i,
    {
        let character = list[i];
        proof {
            reveal_strlit(" ");
            assert(list@.take(i + 1).drop_last() =~= list@.take(i as int));
            assert(text@.subrange(i as int, i + 1) =~= seq![character]);
        }
        if character == ' ' || character == '\t' || character == '\r' || character == '\n' {
            if !in_space {
                result.append(" ");
                assert(result@ =~= collapsed(list@.take(i as int)).push(' '));
                in_space = true;
            }
        } else {
            result.append(text.substring_char(i, i + 1));
            assert(result@ =~= collapsed(list@.take(i as int)).push(character));
            in_space = false;
        }
        i = i + 1;
    }
    proof {
        assert(list@.take(i as int) =~= text@);
    }
    result
}

/// A collapsed text without the blanks around it, where it is not a single blank.
pub open spec fn inner(text: Seq<char>) -> Seq<char> {
    if text == seq![' '] {
        text
    } else {
        text::trimmed(text)
    }
}

/// The text by which tokens are grouped.
pub open spec fn normalized(value: Seq<char>) -> Seq<char> {
    inner(collapsed(without_marks(decomposed(composed(value)))))
}

/// What follows the decomposition: marks and case go, blanks collapse, and the text is trimmed
/// where more than one blank is left of it.
pub fn finish_normalization(decomposition: &str) -> (result: String)
    ensures
        result@ == inner(collapsed(without_marks(decomposition@))),
{
    let lowered = strip_marks(decomposition);
    let text = collapse_spaces(lowered.as_str());
    proof {
        reveal_strlit(" ");
        assert(" "@ =~= seq![' ']);
    }
    if same_text(text.as_str(), " ") {
        text
    } else {
        trim(text.as_str()).to_owned()
    }
}

pub fn normalize_engram_token(value: &str) -> (result: String)
    ensures
        result@ == normalized(value@),
{
    let compatible = compose(value);
    let decomposition = decompose(compatible.as_str());
    finish_normalization(decomposition.as_str())
}

/// What stands for a token: its raw content where its bytes are no text of their own, and its
/// normalized text, or its text where nothing is left of that, otherwise.
pub open spec fn token_key(decoded: Seq<char>, raw: Seq<char>) -> Seq<char> {
    if decoded.contains('\u{fffd}') {
        raw
    } else if normalized(decoded).len() == 0 {
        decoded
    } else {
        normalized(decoded)
    }
}

fn holds_character(text: &str, character: char) -> (found: bool)
    ensures
        found == text@.contains(character),
{
    let list = characters(text);
    let mut i: usize = 0;
    while i < list.len()
        invariant
            list@ == text@,
            i <= list@.len(),
            forall|k: int| 0 <= k < i ==> list@[k] != character,
        decreases list@.len() - i,
    {
        if list[i] == character {
            return true;
        }
        i = i + 1;
    }
    false
}

/// The key of one token.
pub fn make_key(decoded: &str, raw: &str) -> (key: String)
    ensures
        key@ == token_key(decoded@, raw@),
{
    if holds_character(decoded, '\u{fffd}') {
        return raw.to_owned();
    }
    let text = normalize_engram_token(decoded);
    let length: usize = text.as_str().unicode_len();
    if length == 0 {
        decoded.to_owned()
    } else {
        text
    }
}

/// The keys of a vocabulary, by token.
pub open spec fn token_keys(decoded: Seq<String>, raw: Seq<String>) -> Seq<Seq<char>> {
    Seq::new(decoded.len(), |i: int| token_key(decoded[i]@, raw[i]@))
}

/// The keys in the order in which they come up first, each once.
pub open spec fn distinct(keys: Seq<Seq<char>>) -> Seq<Seq<char>>
    decreases keys.len(),
{
    if keys.len() == 0 {
        Seq::empty()
    } else if distinct(keys.drop_last()).contains(keys.last()) {
        distinct(keys.drop_last())
    } else {
        distinct(keys.drop_last()).push(keys.last())
    }
}

/// For each key its place among the distinct ones.
pub open spec fn compressed(keys: Seq<Seq<char>>) -> Seq<u32> {
    Seq::new(keys.len(), |i: int| distinct(keys).index_of(keys[i]) as u32)
}

proof fn lemma_distinct(keys: Seq<Seq<char>>)
    ensures
        distinct(keys).no_duplicates(),
        distinct(keys).len() <= keys.len(),
        forall|i: int| 0 <= i < keys.len() ==> #[trigger] distinct(keys).contains(keys[i]),
        forall|k: int|
            0 <= k < distinct(keys).len() ==> keys.contains(#[trigger] distinct(keys)[k]),
    decreases keys.len(),
{
    if keys.len() > 0 {
        let front = keys.drop_last();
        lemma_distinct(front);
        let earlier = distinct(front);
        assert forall|i: int| 0 <= i < keys.len() implies #[trigger] distinct(keys).contains(
            keys[i],
        ) by {
            if i < front.len() {
                assert(front[i] == keys[i]);
                assert(earlier.contains(front[i]));
                let at = choose|at: int| 0 <= at < earlier.len() && earlier[at] == front[i];
                assert(distinct(keys)[at] == keys[i]);
            } else if !earlier.contains(keys.last()) {
                assert(distinct(keys)[earlier.len() as int] == keys[i]);
            }
        }
        assert forall|k: int| 0 <= k < distinct(keys).len() implies keys.contains(
            #[trigger] distinct(keys)[k],
        ) by {
            if k < earlier.len() {
                assert(front.contains(earlier[k]));
                let at = choose|at: int| 0 <= at < front.len() && front[at] == earlier[k];
                assert(keys[at] == distinct(keys)[k]);
            } else {
                assert(keys[keys.len() - 1] == distinct(keys)[k]);
            }
        }
    }
}

/// The place of a key does not change when keys are added behind it.
proof fn lemma_places_stay(keys: Seq<Seq<char>>, key: Seq<char>)
    requires
        keys.len() > 0,
        distinct(keys.drop_last()).contains(key),
    ensures
        distinct(keys).contains(key),
        distinct(keys).index_of(key) == distinct(keys.drop_last()).index_of(key),
{
    lemma_distinct(keys);
    let earlier = distinct(keys.drop_last());
    let place = earlier.index_of(key);
    assert(distinct(keys)[place] == key);
    let now = distinct(keys).index_of(key);
    assert(distinct(keys)[now] == key);
}

/// Gives every token the place of its key among the distinct keys of the vocabulary. `decoded`
/// holds the text of each token alone and `raw` its raw content.
pub fn build_compressed_token_map(decoded: &Vec<String>, raw: &Vec<String>) -> (lookup: Vec<u32>)
    requires
        decoded@.len() == raw@.len(),
        decoded@.len() <= u32::MAX,
    ensures
        lookup@ == compressed(token_keys(decoded@, raw@)),
{
    let ghost keys = token_keys(decoded@, raw@);
    let mut ids: StringHashMap<u32> = StringHashMap::new();
    let mut count: u32 = 0;
    let mut lookup: Vec<u32> = Vec::new();
    let mut i: usize = 0;
    proof {
        assert(keys.take(0) =~= Seq::<Seq<char>>::empty());
    }
    while i < decoded.len()
        invariant
            decoded@.len() == raw@.len() <= u32::MAX,
            keys == token_keys(decoded@, raw@),
            i <= decoded@.len(),
            count == distinct(keys.take(i as int)).len() <= i,
            lookup@ == compressed(keys.take(i as int)),
            forall|key: Seq<char>|
                #[trigger] ids@.dom().contains(key) == distinct(keys.take(i as int)).contains(key),
            forall|key: Seq<char>| #[trigger]
                ids@.dom().contains(key) ==> ids@[key] == distinct(keys.take(i as int)).index_of(
                    key,
                ),
        decreases decoded@.len() - i,
    {
        let key = make_key(decoded[i].as_str(), raw[i].as_str());
        let ghost before = keys.take(i as int);
        let ghost now = keys.take(i + 1);
        proof {
            assert(now.drop_last() =~= before);
            assert(key@ == now.last());
            lemma_distinct(before);
            lemma_distinct(now);
            assert forall|k: int| 0 <= k < i implies compressed(now)[k] == compressed(
                before,
            )[k] by {
                assert(distinct(before).contains(before[k]));
                lemma_places_stay(now, before[k]);
            }
            assert forall|other: Seq<char>| #[trigger] distinct(before).contains(other) implies
                distinct(now).contains(other) && distinct(now).index_of(other) == distinct(
                before,
            ).index_of(other) by {
                lemma_places_stay(now, other);
            }
        }
        let known: Option<u32> = match ids.get(key.as_str()) {
            Some(id) => Some(*id),
            None => None,
        };
        match known {
            Some(id) => {
                assert(ids@.dom().contains(key@));
                assert(distinct(now) == distinct(before));
                lookup.push(id);
            },
            None => {
                proof {
                    assert(!ids@.dom().contains(key@));
                    assert(distinct(now) == distinct(before).push(key@));
                    assert(distinct(now)[count as int] == key@);
                    let place = distinct(now).index_of(key@);
                    assert(distinct(now)[place] == key@);
                    assert forall|other: Seq<char>| #[trigger]
                        distinct(now).contains(other) implies other == key@ || distinct(
                        before,
                    ).contains(other) by {
                        let at = choose|at: int|
                            0 <= at < distinct(now).len() && distinct(now)[at] == other;
                        if at < distinct(before).len() {
                            assert(distinct(before)[at] == other);
                        }
                    }
                }
                ids.insert(key, count);
                lookup.push(count);
                count = count + 1;
            },
        }
        assert(lookup@ =~= compressed(now));
        i = i + 1;
    }
    proof {
        assert(keys.take(i as int) =~= keys);
    }
    lookup
}

/// Two tokens share an id exactly where they share a key, and the ids are the numbers below the
/// count of distinct keys, each of them taken.
pub proof fn tokens_share_an_id_with_their_key(keys: Seq<Seq<char>>, i: int, j: int)
    requires
        keys.len() <= u32::MAX,
        0 <= i < keys.len(),
        0 <= j < keys.len(),
    ensures
        (compressed(keys)[i] == compressed(keys)[j]) == (keys[i] == keys[j]),
        compressed(keys)[i] < distinct(keys).len(),
        forall|id: u32| #![auto]
            id < distinct(keys).len() ==> compressed(keys).contains(id),
{
    lemma_distinct(keys);
    let list = distinct(keys);
    assert(list.contains(keys[i]) && list.contains(keys[j]));
    assert(list[list.index_of(keys[i])] == keys[i]);
    assert(list[list.index_of(keys[j])] == keys[j]);
    assert forall|id: u32| #![auto] id < list.len() implies compressed(keys).contains(id) by {
        assert(keys.contains(list[id as int]));
        let at = choose|at: int| 0 <= at < keys.len() && keys[at] == list[id as int];
        let place = list.index_of(keys[at]);
        assert(list.contains(keys[at]));
        assert(list[place] == list[id as int]);
        assert(compressed(keys)[at] == id);
    }
}

/// No two blanks stand side by side in a collapsed text.
pub proof fn collapsed_blanks_stand_alone(text: Seq<char>, i: int)
    requires
        0 <= i < collapsed(text).len() - 1,
    ensures
        !(ascii_space(collapsed(text)[i]) && ascii_space(collapsed(text)[i + 1])),
    decreases text.len(),
{
    lemma_collapsed_last(text);
    if text.len() > 0 {
        let front = text.drop_last();
        lemma_collapsed_last(front);
        if i + 1 < collapsed(front).len() {
            collapsed_blanks_stand_alone(front, i);
        }
    }
}

proof fn lemma_collapsed_last(text: Seq<char>)
    ensures
        (collapsed(text).len() == 0) == (text.len() == 0),
        text.len() > 0 ==> ascii_space(collapsed(text).last()) == ascii_space(text.last()),
    decreases text.len(),
{
    if text.len() > 0 {
        lemma_collapsed_last(text.drop_last());
    }
}

/// Collapsing a collapsed text changes nothing.
pub proof fn collapsing_twice_changes_nothing(text: Seq<char>)
    ensures
        collapsed(collapsed(text)) == collapsed(text),
    decreases text.len(),
{
    if text.len() > 0 {
        let front = text.drop_last();
        collapsing_twice_changes_nothing(front);
        lemma_collapsed_last(front);
        let once = collapsed(text);
        if once != collapsed(front) {
            assert(once.drop_last() =~= collapsed(front));
            if once.len() > 1 {
                assert(once[once.len() - 2] == collapsed(front).last());
            }
        }
    }
}

/// The four bytes of a number, the low one first.
pub open spec fn little_endian(value: u32) -> Seq<u8> {
    seq![
        (value % 256) as u8,
        ((value / 256) % 256) as u8,
        ((value / 65536) % 256) as u8,
        (value / 16777216) as u8,
    ]
}

/// The bytes of a list of numbers.
pub open spec fn list_bytes(list: Seq<u32>) -> Seq<u8>
    decreases list.len(),
{
    if list.len() == 0 {
        Seq::empty()
    } else {
        list_bytes(list.drop_last()) + little_endian(list.last())
    }
}

/// The 64-bit FNV-1a hash of bytes.
pub open spec fn fnv1a(bytes: Seq<u8>) -> u64
    decreases bytes.len(),
{
    if bytes.len() == 0 {
        0xcbf2_9ce4_8422_2325
    } else {
        fnv1a_step(fnv1a(bytes.drop_last()), bytes.last())
    }
}

#[verifier::opaque]
pub open spec fn fnv1a_step(hash: u64, byte: u8) -> u64 {
    (((hash ^ byte as u64) * 0x0000_0100_0000_01b3) % 0x1_0000_0000_0000_0000) as u64
}

fn mix(hash: u64, byte: u8) -> (result: u64)
    ensures
        result == fnv1a_step(hash, byte),
{
    proof {
        reveal(fnv1a_step);
    }
    (hash ^ (byte as u64)).wrapping_mul(0x0000_0100_0000_01b3)
}

proof fn lemma_one_byte(done: Seq<u8>, byte: u8)
    ensures
        fnv1a(done.push(byte)) == fnv1a_step(fnv1a(done), byte),
{
    assert(done.push(byte).drop_last() =~= done);
}

proof fn lemma_four_bytes(done: Seq<u8>, value: u32)
    ensures
        ({
            let bytes = little_endian(value);
            let one = fnv1a_step(fnv1a(done), bytes[0]);
            let two = fnv1a_step(one, bytes[1]);
            let three = fnv1a_step(two, bytes[2]);
            fnv1a(done + bytes) == fnv1a_step(three, bytes[3])
        }),
{
    let bytes = little_endian(value);
    let one = done.push(bytes[0]);
    let two = one.push(bytes[1]);
    let three = two.push(bytes[2]);
    lemma_one_byte(done, bytes[0]);
    lemma_one_byte(one, bytes[1]);
    lemma_one_byte(two, bytes[2]);
    lemma_one_byte(three, bytes[3]);
    assert(done + bytes =~= three.push(bytes[3]));
}

/// The hash by which a token map is recognized.
pub fn token_map_fingerprint(token_map: &Vec<u32>) -> (hash: u64)
    ensures
        hash == fnv1a(list_bytes(token_map@)),
{
    let mut hash: u64 = 0xcbf2_9ce4_8422_2325;
    let mut i: usize = 0;
    proof {
        assert(token_map@.take(0) =~= Seq::<u32>::empty());
    }
    while i < token_map.len()
        invariant
            i <= token_map@.len(),
            hash == fnv1a(list_bytes(token_map@.take(i as int))),
        decreases token_map@.len() - i,
    {
        let value: u32 = token_map[i];
        proof {
            assert(token_map@.take(i + 1).drop_last() =~= token_map@.take(i as int));
            lemma_four_bytes(list_bytes(token_map@.take(i as int)), value);
        }
        hash = mix(hash, (value % 256) as u8);
        hash = mix(hash, ((value / 256) % 256) as u8);
        hash = mix(hash, ((value / 65536) % 256) as u8);
        hash = mix(hash, (value / 16777216) as u8);
        i = i + 1;
    }
    proof {
        assert(token_map@.take(i as int) =~= token_map@);
    }
    hash
}

/// Marks are stripped character by character: a character of one of the three mark categories is
/// dropped, every other one is put into lower case.
pub proof fn marks_are_stripped_one_by_one(one: Seq<char>, other: Seq<char>, character: char)
    ensures
        without_marks(one + other) == without_marks(one) + without_marks(other),
        without_marks(seq![character]) == if category(character) == "Mn"@ || category(character)
            == "Mc"@ || category(character) == "Me"@ {
            Seq::<char>::empty()
        } else {
            lower_case(character)
        },
    decreases other.len(),
{
    let single = seq![character];
    assert(single.drop_last() =~= Seq::<char>::empty());
    assert(without_marks(single.drop_last()) == Seq::<char>::empty());
    assert(Seq::<char>::empty() + lower_case(character) =~= lower_case(character));
    if other.len() == 0 {
        assert(one + other =~= one);
        assert(without_marks(one) + Seq::<char>::empty() =~= without_marks(one));
    } else {
        marks_are_stripped_one_by_one(one, other.drop_last(), character);
        let whole = one + other;
        assert(whole.drop_last() =~= one + other.drop_last());
        assert(whole.last() == other.last());
        let front = without_marks(other.drop_last());
        if !mark_category(category(other.last())) {
            assert(without_marks(one) + front + lower_case(other.last()) =~= without_marks(one) + (
            front + lower_case(other.last())));
        }
    }
}

/// Whether a character is one of the four blanks.
pub open spec fn is_blank(character: char) -> bool {
    character == ' ' || character == '\t' || character == '\r' || character == '\n'
}

/// A run of blanks becomes one space, text without blanks stays as it is, and texts that do not meet
/// within a run are collapsed apart.
pub proof fn runs_of_blanks_become_spaces(one: Seq<char>, other: Seq<char>)
    ensures
        one.len() > 0 && (forall|i: int| 0 <= i < one.len() ==> is_blank(#[trigger] one[i]))
            ==> collapsed(one) == seq![' '],
        (forall|i: int| 0 <= i < one.len() ==> !is_blank(#[trigger] one[i])) ==> collapsed(one)
            == one,
        one.len() == 0 || other.len() == 0 || !is_blank(one.last()) || !is_blank(other[0])
            ==> collapsed(one + other) == collapsed(one) + collapsed(other),
{
    lemma_blank_run(one);
    lemma_no_blanks(one);
    if one.len() == 0 || other.len() == 0 || !is_blank(one.last()) || !is_blank(other[0]) {
        lemma_collapsed_apart(one, other);
    }
}

proof fn lemma_blank_run(text: Seq<char>)
    ensures
        text.len() > 0 && (forall|i: int| 0 <= i < text.len() ==> is_blank(#[trigger] text[i]))
            ==> collapsed(text) == seq![' '],
    decreases text.len(),
{
    if text.len() > 0 && (forall|i: int| 0 <= i < text.len() ==> is_blank(#[trigger] text[i])) {
        let front = text.drop_last();
        assert(is_blank(text[text.len() - 1]));
        if text.len() == 1 {
            assert(front =~= Seq::<char>::empty());
            assert(collapsed(front) == Seq::<char>::empty());
            assert(Seq::<char>::empty().push(' ') =~= seq![' ']);
        } else {
            assert forall|i: int| 0 <= i < front.len() implies is_blank(#[trigger] front[i]) by {
                assert(is_blank(text[i]));
            }
            assert(is_blank(text[text.len() - 2]));
            lemma_blank_run(front);
        }
    }
}

proof fn lemma_no_blanks(text: Seq<char>)
    ensures
        (forall|i: int| 0 <= i < text.len() ==> !is_blank(#[trigger] text[i])) ==> collapsed(text)
            == text,
    decreases text.len(),
{
    if text.len() > 0 && (forall|i: int| 0 <= i < text.len() ==> !is_blank(#[trigger] text[i])) {
        let front = text.drop_last();
        assert(!is_blank(text[text.len() - 1]));
        assert forall|i: int| 0 <= i < front.len() implies !is_blank(#[trigger] front[i]) by {
            assert(!is_blank(text[i]));
        }
        lemma_no_blanks(front);
        assert(front.push(text.last()) =~= text);
    } else if text.len() == 0 {
        assert(collapsed(text) =~= text);
    }
}

proof fn lemma_collapsed_apart(one: Seq<char>, other: Seq<char>)
    requires
        one.len() == 0 || other.len() == 0 || !is_blank(one.last()) || !is_blank(other[0]),
    ensures
        collapsed(one + other) == collapsed(one) + collapsed(other),
    decreases other.len(),
{
    let whole = one + other;
    if other.len() == 0 {
        assert(whole =~= one);
        assert(collapsed(other) =~= Seq::<char>::empty());
        assert(collapsed(one) + collapsed(other) =~= collapsed(one));
    } else if one.len() == 0 {
        assert(whole =~= other);
        assert(collapsed(one) =~= Seq::<char>::empty());
        assert(collapsed(one) + collapsed(other) =~= collapsed(other));
    } else {
        let front = other.drop_last();
        if front.len() > 0 {
            assert(front[0] == other[0]);
        }
        lemma_collapsed_apart(one, front);
        assert(whole.drop_last() =~= one + front);
        assert(whole.last() == other.last());
        if other.len() > 1 {
            assert(whole[whole.len() - 2] == other[other.len() - 2]);
        } else {
            assert(whole[whole.len() - 2] == one.last());
            assert(other[0] == other.last());
            assert(collapsed(front) =~= Seq::<char>::empty());
        }
        assert(collapsed(one) + collapsed(front).push(other.last()) =~= (collapsed(one) + collapsed(
            front,
        )).push(other.last()));
        assert(collapsed(one) + collapsed(front).push(' ') =~= (collapsed(one) + collapsed(
            front,
        )).push(' '));
    }
}

/// A normalized text that is a single space stays one; any other has no white space at its ends.
pub proof fn a_single_space_is_kept(text: Seq<char>)
    ensures
        inner(seq![' ']) == seq![' '],
        text != seq![' '] ==> inner(text) == text::trimmed(text),
{
}

/// A token is known by its raw form where it does not decode, by its decoded form where nothing of
/// that is left by normalization, and by its normalized form otherwise.
pub proof fn keys_are_taken_from_the_first_sound_form(decoded: Seq<char>, raw: Seq<char>, at: int)
    ensures
        0 <= at < decoded.len() && decoded[at] == '\u{fffd}' ==> token_key(decoded, raw) == raw,
        token_key(decoded, raw).len() == 0 ==> decoded.len() == 0 || raw.len() == 0,
        !decoded.contains('\u{fffd}') && normalized(decoded).len() > 0 ==> token_key(decoded, raw)
            == normalized(decoded),
        !decoded.contains('\u{fffd}') && normalized(decoded).len() == 0 ==> token_key(decoded, raw)
            == decoded,
{
}

proof fn lemma_distinct_order(keys: Seq<Seq<char>>, count: int)
    requires
        0 <= count <= keys.len(),
    ensures
        distinct(keys.take(count)).len() <= distinct(keys).len(),
        distinct(keys).take(distinct(keys.take(count)).len() as int) == distinct(keys.take(count)),
    decreases keys.len(),
{
    if count == keys.len() {
        assert(keys.take(count) =~= keys);
        assert(distinct(keys).take(distinct(keys).len() as int) =~= distinct(keys));
    } else {
        let front = keys.drop_last();
        lemma_distinct_order(front, count);
        assert(front.take(count) =~= keys.take(count));
        let length = distinct(keys.take(count)).len() as int;
        assert(distinct(keys).take(length) =~= distinct(front).take(length));
    }
}

/// Ids are given in the order in which keys first appear: a key that has appeared keeps its id, and a
/// new one gets the next number, the first of all zero.
pub proof fn ids_follow_the_first_appearance(keys: Seq<Seq<char>>, i: int)
    requires
        keys.len() <= u32::MAX,
        0 <= i < keys.len(),
    ensures
        compressed(keys)[0] == 0,
        forall|j: int|
            0 <= j < i && keys[j] == keys[i] ==> #[trigger] compressed(keys)[j] == compressed(
                keys,
            )[i],
        (forall|j: int| 0 <= j < i ==> #[trigger] keys[j] != keys[i]) ==> {
            &&& forall|j: int|
                0 <= j < i ==> #[trigger] compressed(keys)[j] < compressed(keys)[i]
            &&& i > 0 ==> exists|j: int|
                0 <= j < i && #[trigger] compressed(keys)[j] + 1 == compressed(keys)[i]
        },
{
    let ids = compressed(keys);
    let list = distinct(keys);
    lemma_distinct(keys);
    lemma_distinct_order(keys, 1);
    let first = keys.take(1);
    assert(first.drop_last() =~= Seq::<Seq<char>>::empty());
    assert(distinct(first.drop_last()) == Seq::<Seq<char>>::empty());
    assert(distinct(first) =~= seq![keys[0]]);
    assert(list.take(1)[0] == keys[0]);
    assert(list[0] == keys[0]);
    assert(list.contains(keys[0]));
    assert(list[list.index_of(keys[0])] == list[0]);
    if forall|j: int| 0 <= j < i ==> #[trigger] keys[j] != keys[i] {
        let before = keys.take(i);
        let behind = keys.take(i + 1);
        lemma_distinct_order(keys, i);
        lemma_distinct_order(keys, i + 1);
        lemma_distinct(before);
        lemma_distinct(behind);
        assert(behind.drop_last() =~= before);
        let count = distinct(before).len() as int;
        if distinct(before).contains(keys[i]) {
            assert(before.contains(keys[i]));
            let j = choose|j: int| 0 <= j < before.len() && before[j] == keys[i];
            assert(keys[j] == keys[i]);
        }
        assert(distinct(behind) == distinct(before).push(keys[i]));
        assert(list.take(count + 1)[count] == keys[i]);
        assert(list[count] == keys[i]);
        assert(list.contains(keys[i]));
        assert(list[list.index_of(keys[i])] == list[count]);
        assert(list.index_of(keys[i]) == count);
        assert forall|j: int| 0 <= j < i implies #[trigger] ids[j] < ids[i] by {
            assert(before[j] == keys[j]);
            assert(before.contains(keys[j]));
            assert(distinct(before).contains(keys[j]));
            let at = choose|at: int|
                0 <= at < distinct(before).len() && distinct(before)[at] == keys[j];
            assert(list.take(count)[at] == keys[j]);
            assert(list[at] == keys[j]);
            assert(list.contains(keys[j]));
            assert(list[list.index_of(keys[j])] == list[at]);
            assert(list.index_of(keys[j]) == at);
        }
        if i > 0 {
            assert(before[0] == keys[0]);
            assert(before.contains(keys[0]));
            assert(distinct(before).contains(keys[0]));
            let key = distinct(before)[count - 1];
            assert(distinct(before).contains(key));
            assert(before.contains(key));
            let j = choose|j: int| 0 <= j < before.len() && before[j] == key;
            assert(keys[j] == key);
            assert(list.take(count)[count - 1] == key);
            assert(list[count - 1] == key);
            assert(list.contains(key));
            assert(list[list.index_of(key)] == list[count - 1]);
            assert(list.index_of(key) == count - 1);
            assert(ids[j] + 1 == ids[i]);
        }
    }
}

/// A fingerprint reads each number as four bytes, the lowest first, and mixes every byte in by an
/// exclusive or and a product that wraps around.
pub proof fn fingerprints_mix_every_byte(list: Seq<u32>, value: u32, bytes: Seq<u8>, byte: u8)
    ensures
        list_bytes(list).len() == 4 * list.len(),
        list_bytes(list.push(value)).take(4 * list.len() as int) == list_bytes(list),
        ({
            let end = list_bytes(list.push(value)).skip(4 * list.len() as int);
            &&& end.len() == 4
            &&& end[0] + 256 * end[1] + 65536 * end[2] + 16777216 * end[3] == value
        }),
        fnv1a(Seq::empty()) == 0xcbf2_9ce4_8422_2325,
        fnv1a(bytes.push(byte)) as int == ((fnv1a(bytes) ^ byte as u64) * 0x0000_0100_0000_01b3)
            % 0x1_0000_0000_0000_0000,
    decreases list.len(),
{
    if list.len() > 0 {
        fingerprints_mix_every_byte(list.drop_last(), list.last(), bytes, byte);
        assert(list.drop_last().push(list.last()) =~= list);
    }
    let longer = list.push(value);
    assert(longer.drop_last() =~= list);
    assert(longer.last() == value);
    assert(list_bytes(longer).take(4 * list.len() as int) =~= list_bytes(list));
    assert(list_bytes(longer).skip(4 * list.len() as int) =~= little_endian(value));
    assert(bytes.push(byte).drop_last() =~= bytes);
    assert(bytes.push(byte).last() == byte);
    reveal(fnv1a_step);
}

} // verus!
