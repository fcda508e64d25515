//! What every model configuration check shares: the error, its messages, and range and size
//! checks.

use crate::text;
use crate::text::push_decimal;
use vstd::prelude::*;
use vstd::string::*;

verus! {

/// A configuration that the runtime refuses, with the reason.
#[derive(Debug)]
pub enum ConfigError {
    Invalid(String),
}

impl ConfigError {
    /// The reason as text.
    pub open spec fn reason(self) -> Seq<char> {
        match self {
            ConfigError::Invalid(reason) => reason@,
        }
    }

    pub fn message(&self) -> (text: String)
        ensures
            text@ == self.reason(),
    {
        match self {
            ConfigError::Invalid(reason) => reason.clone(),
        }
    }
}

/// The reason of a refusal, or nothing where the check passed.
pub open spec fn problem<T>(result: Result<T, ConfigError>) -> Option<Seq<char>> {
    match result {
        Ok(_) => None,
        Err(error) => Some(error.reason()),
    }
}

/// The first of two problems, in the order in which they are looked for.
pub open spec fn first(earlier: Option<Seq<char>>, later: Option<Seq<char>>) -> Option<Seq<char>> {
    if earlier is Some {
        earlier
    } else {
        later
    }
}

/// `reason` where `broken` holds.
pub open spec fn refused_if(broken: bool, reason: Seq<char>) -> Option<Seq<char>> {
    if broken {
        Some(reason)
    } else {
        None
    }
}

/// The quoted, escaped form of a text in a message.
pub uninterp spec fn quoted(text: Seq<char>) -> Seq<char>;

/// Calls the `Debug` formatting of `str`. Its result depends on the text alone and is named
/// `quoted`; which characters it escapes is left unsaid.
#[verifier::external_body]
pub(crate) fn quote(text: &str) -> (result: String)
    ensures
        result@ == quoted(text@),
{
    format!("{:?}", text)
}

pub open spec fn range_message(name: Seq<char>, value: nat, min: nat, max: nat) -> Seq<char> {
    name + "="@ + text::decimal(value) + " is outside ["@ + text::decimal(min) + ", "@ + text::decimal(max) + "]"@
}

pub open spec fn range_problem(name: Seq<char>, value: nat, min: nat, max: nat) -> Option<
    Seq<char>,
> {
    refused_if(value < min || value > max, range_message(name, value, min, max))
}

/// Refuses a value outside `min..=max`.
pub fn check_range(name: &str, value: usize, min: usize, max: usize) -> (result: Result<
    (),
    ConfigError,
>)
    ensures
        problem(result) == range_problem(name@, value as nat, min as nat, max as nat),
{
    if value < min || value > max {
        let mut reason = name.to_owned();
        reason.append("=");
        push_decimal(&mut reason, value as u64);
        reason.append(" is outside [");
        push_decimal(&mut reason, min as u64);
        reason.append(", ");
        push_decimal(&mut reason, max as u64);
        reason.append("]");
        return Err(ConfigError::Invalid(reason));
    }
    Ok(())
}

/// The product of all factors.
pub open spec fn product(factors: Seq<usize>) -> nat
    decreases factors.len(),
{
    if factors.len() == 0 {
        1
    } else {
        product(factors.drop_last()) * (factors.last() as nat)
    }
}

/// Every partial product, from the left, is a `usize`.
pub open spec fn products_fit(factors: Seq<usize>) -> bool {
    forall|count: int|
        0 <= count <= factors.len() ==> #[trigger] product(factors.take(count)) <= usize::MAX
}

/// The items in order, separated by a comma and a space.
pub open spec fn listed(items: Seq<usize>) -> Seq<char>
    decreases items.len(),
{
    if items.len() == 0 {
        Seq::empty()
    } else if items.len() == 1 {
        text::decimal(items[0] as nat)
    } else {
        listed(items.drop_last()) + ", "@ + text::decimal(items.last() as nat)
    }
}

/// Appends the items in order, separated by a comma and a space.
pub fn push_list(text: &mut String, items: &[usize])
    ensures
        final(text)@ == old(text)@ + listed(items@),
{
    let mut index: usize = 0;
    proof {
        assert(text@ =~= old(text)@ + listed(items@.take(0)));
    }
    while index < items.len()
        invariant
            0 <= index <= items.len(),
            text@ == old(text)@ + listed(items@.take(index as int)),
        decreases items.len() - index,
    {
        if index > 0 {
            text.append(", ");
        }
        push_decimal(text, items[index] as u64);
        proof {
            let longer = items@.take(index + 1);
            assert(longer.drop_last() =~= items@.take(index as int));
            assert(longer.last() == items@[index as int]);
            assert(text@ =~= old(text)@ + listed(longer));
        }
        index = index + 1;
    }
    proof {
        assert(items@.take(items@.len() as int) =~= items@);
    }
}

/// The product of all factors, or nothing where a partial product leaves `usize`.
pub fn multiply(factors: &[usize]) -> (result: Option<usize>)
    ensures
        result == if products_fit(factors@) {
            Some(product(factors@) as usize)
        } else {
            None::<usize>
        },
        products_fit(factors@) ==> product(factors@) <= usize::MAX,
{
    let mut total: usize = 1;
    let mut index: usize = 0;
    proof {
        assert(product(factors@.take(0)) == 1);
    }
    while index < factors.len()
        invariant
            0 <= index <= factors.len(),
            total == product(factors@.take(index as int)),
            forall|count: int|
                0 <= count <= index ==> #[trigger] product(factors@.take(count)) <= usize::MAX,
        decreases factors.len() - index,
    {
        proof {
            let longer = factors@.take(index + 1);
            assert(longer.drop_last() =~= factors@.take(index as int));
            assert(longer.last() == factors@[index as int]);
            assert(product(longer) == total * factors@[index as int]);
        }
        match total.checked_mul(factors[index]) {
            Some(next) => {
                total = next;
            },
            None => {
                return None;
            },
        }
        index = index + 1;
    }
    proof {
        assert(factors@.take(factors@.len() as int) =~= factors@);
        assert(product(factors@.take(factors@.len() as int)) <= usize::MAX);
    }
    Some(total)
}

pub open spec fn product_problem(name: Seq<char>, factors: Seq<usize>) -> Option<Seq<char>> {
    refused_if(
        !products_fit(factors),
        name + " dimensions overflow usize: ["@ + listed(factors) + "]"@,
    )
}

/// The product of all factors, refused where a partial product leaves `usize`.
pub fn checked_product(name: &str, factors: &[usize]) -> (result: Result<usize, ConfigError>)
    ensures
        problem(result) == product_problem(name@, factors@),
        result matches Ok(value) ==> value == product(factors@),
{
    match multiply(factors) {
        Some(value) => Ok(value),
        None => {
            let mut reason = name.to_owned();
            reason.append(" dimensions overflow usize: [");
            push_list(&mut reason, factors);
            reason.append("]");
            Err(ConfigError::Invalid(reason))
        },
    }
}

/// Where no factor is zero, all partial products fit exactly where the whole product does; that of a
/// longer list is that of the list times its last factor.
pub proof fn products_fit_where_the_whole_does(factors: Seq<usize>, last: usize)
    requires
        forall|i: int| 0 <= i < factors.len() ==> #[trigger] factors[i] > 0,
    ensures
        products_fit(factors) <==> product(factors) <= usize::MAX,
        product(Seq::empty()) == 1,
        product(factors.push(last)) == product(factors) * last,
{
    assert(factors.push(last).drop_last() =~= factors);
    assert(factors.take(factors.len() as int) =~= factors);
    assert forall|count: int| 0 <= count <= factors.len() implies #[trigger] product(
        factors.take(count),
    ) <= product(factors) by {
        lemma_product_grows(factors, count);
    }
}

proof fn lemma_product_grows(factors: Seq<usize>, count: int)
    requires
        forall|i: int| 0 <= i < factors.len() ==> #[trigger] factors[i] > 0,
        0 <= count <= factors.len(),
    ensures
        product(factors.take(count)) <= product(factors),
    decreases factors.len(),
{
    if count == factors.len() {
        assert(factors.take(count) =~= factors);
    } else {
        let front = factors.drop_last();
        assert forall|i: int| 0 <= i < front.len() implies #[trigger] front[i] > 0 by {
            assert(factors[i] > 0);
        }
        lemma_product_grows(front, count);
        assert(front.take(count) =~= factors.take(count));
        assert(factors[factors.len() - 1] > 0);
        let last = factors.last() as nat;
        let before = product(front);
        assert(before <= before * last) by (nonlinear_arith)
            requires
                last > 0,
        ;
    }
}

/// A value is in its range exactly from the least to the greatest, both of them taken.
pub proof fn ranges_hold_their_ends(name: Seq<char>, value: nat, min: nat, max: nat)
    ensures
        range_problem(name, value, min, max) is None <==> min <= value <= max,
{
}

} // verus!
