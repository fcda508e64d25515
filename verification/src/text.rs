//! Text building shared by tensor names, prompts and error messages.

use vstd::prelude::*;
use vstd::string::*;

verus! {

/// The character of one decimal digit.
pub open spec fn digit(d: nat) -> char {
    (48 + d) as char
}

/// The decimal digits of `n`, most significant first, without leading zeros.
pub open spec fn decimal(n: nat) -> Seq<char>
    decreases n,
{
    if n < 10 {
        seq![digit(n)]
    } else {
        decimal(n / 10).push(digit(n % 10))
    }
}

fn digit_text(d: u64) -> (text: &'static str)
    requires
        d < 10,
    ensures
        text@ == seq![digit(d as nat)],
{
    proof {
        reveal_strlit("0");
        reveal_strlit("1");
        reveal_strlit("2");
        reveal_strlit("3");
        reveal_strlit("4");
        reveal_strlit("5");
        reveal_strlit("6");
        reveal_strlit("7");
        reveal_strlit("8");
        reveal_strlit("9");
    }
    match d {
        0 => "0",
        1 => "1",
        2 => "2",
        3 => "3",
        4 => "4",
        5 => "5",
        6 => "6",
        7 => "7",
        8 => "8",
        _ => "9",
    }
}

/// Appends the decimal digits of `n` to `text`.
pub fn push_decimal(text: &mut String, n: u64)
    ensures
        final(text)@ == old(text)@ + decimal(n as nat),
    decreases n,
{
    if n >= 10 {
        push_decimal(text, n / 10);
    }
    text.append(digit_text(n % 10));
    proof {
        assert(text@ =~= old(text)@ + decimal(n as nat));
    }
}

/// Whether two texts hold the same characters.
pub fn same_text(left: &str, right: &str) -> (same: bool)
    ensures
        same == (left@ == right@),
{
    left.to_owned() == right.to_owned()
}

/// One text behind another.
pub fn join(left: &str, right: &str) -> (text: String)
    ensures
        text@ == left@ + right@,
{
    let mut text = left.to_owned();
    text.append(right);
    text
}

/// A text with a number behind it.
pub fn join_number(left: &str, number: usize) -> (text: String)
    ensures
        text@ == left@ + decimal(number as nat),
{
    let mut text = left.to_owned();
    push_decimal(&mut text, number as u64);
    text
}

/// Whether `text` ends in `suffix`.
pub open spec fn ends_in(text: Seq<char>, suffix: Seq<char>) -> bool {
    suffix.len() <= text.len() && text.skip(text.len() - suffix.len()) == suffix
}

/// The text in front of `suffix`, where it ends in it.
pub fn strip_suffix<'a>(text: &'a str, suffix: &str) -> (front: Option<&'a str>)
    ensures
        match front {
            Some(front) => ends_in(text@, suffix@) && front@ == text@.take(
                text@.len() - suffix@.len(),
            ),
            None => !ends_in(text@, suffix@),
        },
{
    let length: usize = text.unicode_len();
    let tail: usize = suffix.unicode_len();
    if tail > length {
        return None;
    }
    let back = text.substring_char(length - tail, length);
    proof {
        assert(back@ =~= text@.skip(length - tail));
    }
    if same_text(back, suffix) {
        Some(text.substring_char(0, length - tail))
    } else {
        None
    }
}

/// The characters of a text, in order.
pub fn characters(text: &str) -> (list: Vec<char>)
    ensures
        list@ == text@,
{
    let mut list: Vec<char> = Vec::new();
    for c in it: text.chars()
        invariant
            it.seq() == text@,
            list@ == text@.take(it.index() as int),
    {
        list.push(c);
        proof {
            assert(list@ =~= text@.take(it.index() + 1));
        }
    }
    proof {
        assert(text@.take(text@.len() as int) =~= text@);
    }
    list
}

/// The Unicode property `White_Space`.
pub open spec fn white_space(c: char) -> bool {
    let code = c as u32;
    ||| 0x9 <= code <= 0xd
    ||| code == 0x20
    ||| code == 0x85
    ||| code == 0xa0
    ||| code == 0x1680
    ||| 0x2000 <= code <= 0x200a
    ||| code == 0x2028
    ||| code == 0x2029
    ||| code == 0x202f
    ||| code == 0x205f
    ||| code == 0x3000
}

pub fn is_white_space(c: char) -> (result: bool)
    ensures
        result == white_space(c),
{
    let code = c as u32;
    (0x9 <= code && code <= 0xd) || code == 0x20 || code == 0x85 || code == 0xa0 || code == 0x1680
        || (0x2000 <= code && code <= 0x200a) || code == 0x2028 || code == 0x2029 || code == 0x202f
        || code == 0x205f || code == 0x3000
}

/// A text without its leading white space.
pub open spec fn trimmed_start(text: Seq<char>) -> Seq<char>
    decreases text.len(),
{
    if text.len() > 0 && white_space(text[0]) {
        trimmed_start(text.skip(1))
    } else {
        text
    }
}

/// A text without its trailing white space.
pub open spec fn trimmed_end(text: Seq<char>) -> Seq<char>
    decreases text.len(),
{
    if text.len() > 0 && white_space(text.last()) {
        trimmed_end(text.drop_last())
    } else {
        text
    }
}

/// A text without the white space around it.
pub open spec fn trimmed(text: Seq<char>) -> Seq<char> {
    trimmed_end(trimmed_start(text))
}

/// A text without the white space around it.
pub fn trim<'a>(text: &'a str) -> (inner: &'a str)
    ensures
        inner@ == trimmed(text@),
{
    let list = characters(text);
    let mut start: usize = 0;
    let mut end: usize = list.len();
    proof {
        assert(text@.skip(0) =~= text@);
    }
    while start < end && is_white_space(list[start])
        invariant
            list@ == text@,
            start <= end == list@.len(),
            trimmed_start(text@.skip(start as int)) == trimmed_start(text@),
        ensures
            list@ == text@,
            start <= end == list@.len(),
            trimmed_start(text@) == text@.skip(start as int),
        decreases end - start,
    {
        proof {
            assert(text@.skip(start as int).skip(1) =~= text@.skip(start + 1));
        }
        start = start + 1;
    }
    proof {
        assert(text@.subrange(start as int, end as int) =~= text@.skip(start as int));
    }
    while start < end && is_white_space(list[end - 1])
        invariant
            list@ == text@,
            start <= end <= list@.len(),
            trimmed_end(text@.subrange(start as int, end as int)) == trimmed(text@),
        ensures
            start <= end <= text@.len(),
            trimmed(text@) == text@.subrange(start as int, end as int),
        decreases end,
    {
        proof {
            let window = text@.subrange(start as int, end as int);
            assert(window.drop_last() =~= text@.subrange(start as int, end - 1));
            assert(window.last() == text@[end - 1]);
        }
        end = end - 1;
    }
    text.substring_char(start, end)
}

/// `pattern` stands in `text` at position `at`.
pub open spec fn stands_at(text: Seq<char>, pattern: Seq<char>, at: int) -> bool {
    0 <= at && at + pattern.len() <= text.len() && text.subrange(at, at + pattern.len()) == pattern
}

/// The first position, from `from` on, at which `pattern` stands.
pub open spec fn first_from(text: Seq<char>, pattern: Seq<char>, from: nat) -> Option<nat>
    decreases text.len() + 1 - from,
{
    if from + pattern.len() > text.len() {
        None
    } else if stands_at(text, pattern, from as int) {
        Some(from)
    } else {
        first_from(text, pattern, from + 1)
    }
}

/// The last position, before `until`, at which `pattern` stands.
pub open spec fn last_before(text: Seq<char>, pattern: Seq<char>, until: nat) -> Option<nat>
    decreases until,
{
    if until == 0 {
        None
    } else if stands_at(text, pattern, until - 1) {
        Some((until - 1) as nat)
    } else {
        last_before(text, pattern, (until - 1) as nat)
    }
}

fn holds_at(text: &Vec<char>, end: usize, pattern: &Vec<char>, at: usize) -> (result: bool)
    requires
        end <= text@.len(),
        at <= end,
    ensures
        result == stands_at(text@.take(end as int), pattern@, at as int),
{
    if pattern.len() > end - at {
        return false;
    }
    let mut index: usize = 0;
    while index < pattern.len()
        invariant
            end <= text@.len(),
            index <= pattern@.len(),
            at + pattern@.len() <= end,
            forall|i: int| 0 <= i < index ==> text@[at + i] == pattern@[i],
        decreases pattern@.len() - index,
    {
        if text[at + index] != pattern[index] {
            proof {
                let window = text@.take(end as int).subrange(
                    at as int,
                    at + pattern@.len(),
                );
                assert(window[index as int] != pattern@[index as int]);
            }
            return false;
        }
        index = index + 1;
    }
    proof {
        assert(text@.take(end as int).subrange(at as int, at + pattern@.len()) =~= pattern@);
    }
    true
}

/// The first position of a pattern.
pub fn find(text: &Vec<char>, pattern: &Vec<char>) -> (position: Option<usize>)
    ensures
        match position {
            Some(at) => first_from(text@, pattern@, 0) == Some(at as nat) && at + pattern@.len()
                <= text@.len(),
            None => first_from(text@, pattern@, 0) is None,
        },
{
    if pattern.len() > text.len() {
        return None;
    }
    let last: usize = text.len() - pattern.len();
    let mut at: usize = 0;
    proof {
        assert(text@.take(text@.len() as int) =~= text@);
    }
    loop
        invariant
            at <= last,
            last == text@.len() - pattern@.len(),
            text@.take(text@.len() as int) == text@,
            first_from(text@, pattern@, at as nat) == first_from(text@, pattern@, 0),
        decreases last - at,
    {
        if holds_at(text, text.len(), pattern, at) {
            return Some(at);
        }
        if at == last {
            assert(first_from(text@, pattern@, at as nat + 1) is None);
            return None;
        }
        at = at + 1;
    }
}

/// The last position of a pattern within the first `end` characters.
pub fn rfind(text: &Vec<char>, end: usize, pattern: &Vec<char>) -> (position: Option<usize>)
    requires
        end <= text@.len(),
    ensures
        match position {
            Some(at) => last_before(text@.take(end as int), pattern@, end as nat + 1) == Some(
                at as nat,
            ) && at + pattern@.len() <= end,
            None => last_before(text@.take(end as int), pattern@, end as nat + 1) is None,
        },
{
    let mut at: usize = end;
    loop
        invariant
            at <= end,
            end <= text@.len(),
            last_before(text@.take(end as int), pattern@, at as nat + 1) == last_before(
                text@.take(end as int),
                pattern@,
                end as nat + 1,
            ),
        decreases at,
    {
        if holds_at(text, end, pattern, at) {
            return Some(at);
        }
        if at == 0 {
            assert(last_before(text@.take(end as int), pattern@, 0) is None);
            return None;
        }
        at = at - 1;
    }
}

/// What is left of a text without the white space around it neither begins nor ends with white
/// space, and stands in the text between white space.
pub proof fn trimming_removes_white_space_only(text: Seq<char>)
    ensures
        ({
            let inner = trimmed(text);
            &&& inner.len() > 0 ==> !white_space(inner[0]) && !white_space(inner.last())
            &&& exists|start: int|
                #![trigger text.subrange(start, start + inner.len())]
                0 <= start <= start + inner.len() <= text.len() && text.subrange(
                    start,
                    start + inner.len(),
                ) == inner && (forall|i: int|
                    (0 <= i < start || start + inner.len() <= i < text.len()) ==> white_space(
                        #[trigger] text[i],
                    ))
        }),
{
    let front = trimmed_start(text);
    let inner = trimmed(text);
    lemma_trimmed_start(text);
    lemma_trimmed_end(front);
    let start = text.len() - front.len();
    assert(text.subrange(start, start + inner.len()) =~= inner);
    assert forall|i: int| (0 <= i < start || start + inner.len() <= i < text.len()) implies
        white_space(#[trigger] text[i]) by {
        if i >= start + inner.len() {
            assert(front[i - start] == text[i]);
        }
    }
    if inner.len() > 0 {
        assert(inner[0] == front[0]);
    }
}

proof fn lemma_trimmed_start(text: Seq<char>)
    ensures
        ({
            let front = trimmed_start(text);
            let start = text.len() - front.len();
            &&& 0 <= start
            &&& front == text.skip(start)
            &&& front.len() > 0 ==> !white_space(front[0])
            &&& forall|i: int| 0 <= i < start ==> white_space(#[trigger] text[i])
        }),
    decreases text.len(),
{
    if text.len() > 0 && white_space(text[0]) {
        lemma_trimmed_start(text.skip(1));
        let front = trimmed_start(text);
        let start = text.len() - front.len();
        assert(front =~= text.skip(start));
        assert forall|i: int| 0 <= i < start implies white_space(#[trigger] text[i]) by {
            if i > 0 {
                assert(text.skip(1)[i - 1] == text[i]);
            }
        }
    } else {
        assert(text.skip(0) =~= text);
    }
}

proof fn lemma_trimmed_end(text: Seq<char>)
    ensures
        ({
            let back = trimmed_end(text);
            &&& back.len() <= text.len()
            &&& back == text.take(back.len() as int)
            &&& back.len() > 0 ==> !white_space(back.last())
            &&& forall|i: int| back.len() <= i < text.len() ==> white_space(#[trigger] text[i])
        }),
    decreases text.len(),
{
    if text.len() > 0 && white_space(text.last()) {
        lemma_trimmed_end(text.drop_last());
        let back = trimmed_end(text);
        assert(back =~= text.take(back.len() as int));
        assert forall|i: int| back.len() <= i < text.len() implies white_space(#[trigger] text[i]) by {
            if i < text.len() - 1 {
                assert(text.drop_last()[i] == text[i]);
            }
        }
    } else {
        assert(text.take(text.len() as int) =~= text);
    }
}

/// The number that decimal digits stand for.
pub open spec fn number_of(digits: Seq<char>) -> int
    decreases digits.len(),
{
    if digits.len() == 0 {
        0
    } else {
        number_of(digits.drop_last()) * 10 + (digits.last() as int - '0' as int)
    }
}

/// The decimal digits of a number stand for it: they are digits, the first is no zero but that of
/// zero itself, and read from the left they give the number back.
pub proof fn decimal_digits_read_back(n: nat)
    ensures
        number_of(decimal(n)) == n,
        decimal(n).len() > 0,
        n > 0 ==> decimal(n)[0] != '0',
        forall|i: int| 0 <= i < decimal(n).len() ==> '0' <= #[trigger] decimal(n)[i] <= '9',
    decreases n,
{
    let digits = decimal(n);
    if n < 10 {
        assert(digits.drop_last() =~= Seq::<char>::empty());
        assert(number_of(digits.drop_last()) == 0);
        assert(digits.last() as int - '0' as int == n);
    } else {
        decimal_digits_read_back(n / 10);
        assert(digits.drop_last() =~= decimal(n / 10));
        assert(digits[0] == decimal(n / 10)[0]);
        assert forall|i: int| 0 <= i < digits.len() implies '0' <= #[trigger] digits[i] <= '9' by {
            if i < decimal(n / 10).len() {
                assert(digits[i] == decimal(n / 10)[i]);
            }
        }
    }
}

/// The first place of a pattern from some place on is found: it stands there, and nowhere between.
pub proof fn the_first_place_is_found(text: Seq<char>, pattern: Seq<char>, from: nat, at: int)
    requires
        from <= at,
    ensures
        first_from(text, pattern, from) is None ==> !stands_at(text, pattern, at),
        first_from(text, pattern, from) matches Some(found) ==> from <= found && stands_at(
            text,
            pattern,
            found as int,
        ) && (at < found ==> !stands_at(text, pattern, at)),
    decreases text.len() + 1 - from,
{
    if from + pattern.len() <= text.len() && !stands_at(text, pattern, from as int) {
        if from + 1 <= at {
            the_first_place_is_found(text, pattern, from + 1, at);
        } else {
            the_first_place_is_found(text, pattern, from + 1, at + 1);
        }
    }
}

/// The last place of a pattern before some place is found: it stands there, and nowhere between.
pub proof fn the_last_place_is_found(text: Seq<char>, pattern: Seq<char>, until: nat, at: int)
    requires
        0 <= at < until,
    ensures
        last_before(text, pattern, until) is None ==> !stands_at(text, pattern, at),
        last_before(text, pattern, until) matches Some(found) ==> found < until && stands_at(
            text,
            pattern,
            found as int,
        ) && (found < at ==> !stands_at(text, pattern, at)),
    decreases until,
{
    assert(last_before(text, pattern, 0) is None);
    if !stands_at(text, pattern, until - 1) && until > 1 {
        if at < until - 1 {
            the_last_place_is_found(text, pattern, (until - 1) as nat, at);
        } else {
            the_last_place_is_found(text, pattern, (until - 1) as nat, at - 1);
        }
    }
}

/// White space is the space, the five controls from the tab on, the next line and the no-break space,
/// and beyond Latin the blanks of the scripts, of typography and of ideographs.
pub proof fn white_space_is_listed(c: char)
    ensures
        (c as u32) < 0x80 ==> (white_space(c) <==> c == ' ' || c == '\t' || c == '\n' || c
            == '\u{b}' || c == '\u{c}' || c == '\r'),
        0x80 <= (c as u32) < 0x2000 ==> (white_space(c) <==> c == '\u{85}' || c == '\u{a0}' || c
            == '\u{1680}'),
        (c as u32) >= 0x2000 ==> (white_space(c) <==> (c as u32) <= 0x200a || c == '\u{2028}' || c
            == '\u{2029}' || c == '\u{202f}' || c == '\u{205f}' || c == '\u{3000}'),
{
}

} // verus!
