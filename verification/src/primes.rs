//! Prime numbers: modular powers, Miller-Rabin rounds, an exact primality test and the search for
//! the next prime.

use vstd::arithmetic::div_mod;
use vstd::arithmetic::power;
use vstd::arithmetic::power2;
use vstd::prelude::*;

verus! {

pub open spec fn divides(divisor: int, value: int) -> bool {
    value % divisor == 0
}

/// The numbers from 2 on that nothing between 1 and themselves divides.
pub open spec fn prime(value: int) -> bool {
    value >= 2 && forall|divisor: int| 1 < divisor < value ==> !#[trigger] divides(divisor, value)
}

/// A prime that divides a product of a smaller positive factor divides the other factor.
proof fn lemma_euclid(p: int, a: int, b: int)
    requires
        prime(p),
        0 < a < p,
        (a * b) % p == 0,
    ensures
        b % p == 0,
    decreases a,
{
    if a == 1 {
        assert(a * b == b) by (nonlinear_arith)
            requires
                a == 1,
        ;
    } else {
        let quotient = p / a;
        let rest = p % a;
        assert(!divides(a, p));
        div_mod::lemma_fundamental_div_mod(p, a);
        div_mod::lemma_fundamental_div_mod(a * b, p);
        let k = (a * b) / p;
        assert(rest * b == (b - quotient * k) * p) by (nonlinear_arith)
            requires
                p == a * quotient + rest,
                a * b == p * k + 0,
        ;
        div_mod::lemma_mod_multiples_basic(b - quotient * k, p);
        lemma_euclid(p, rest, b);
    }
}

/// What a prime does not divide, it does not divide multiplied.
proof fn lemma_product(p: int, x: int, y: int)
    requires
        prime(p),
        x % p != 0,
        y % p != 0,
    ensures
        (x * y) % p != 0,
{
    if (x * y) % p == 0 {
        div_mod::lemma_mul_mod_noop_left(x, y, p);
        lemma_euclid(p, x % p, y);
    }
}

pub open spec fn product(list: Seq<int>) -> int
    decreases list.len(),
{
    if list.len() == 0 {
        1
    } else {
        product(list.drop_last()) * list.last()
    }
}

pub open spec fn factorial(n: nat) -> int
    decreases n,
{
    if n == 0 {
        1
    } else {
        factorial((n - 1) as nat) * n
    }
}

proof fn lemma_product_without(list: Seq<int>, i: int)
    requires
        0 <= i < list.len(),
    ensures
        product(list) == product(list.remove(i)) * list[i],
    decreases list.len(),
{
    let front = list.drop_last();
    if i == list.len() - 1 {
        assert(list.remove(i) =~= front);
    } else {
        lemma_product_without(front, i);
        assert(list.remove(i).drop_last() =~= front.remove(i));
        assert(list.remove(i).last() == list.last());
        let rest = product(front.remove(i));
        assert((rest * list[i]) * list.last() == (rest * list.last()) * list[i])
            by (nonlinear_arith);
    }
}

/// The numbers from 1 to `n`, in whatever order, multiply to the factorial.
proof fn lemma_permutation(list: Seq<int>, n: nat)
    requires
        list.len() == n,
        list.no_duplicates(),
        forall|i: int| 0 <= i < n ==> 1 <= #[trigger] list[i] <= n,
    ensures
        product(list) == factorial(n),
    decreases n,
{
    if n > 0 {
        if !list.contains(n as int) {
            list.unique_seq_to_set();
            let below = vstd::set_lib::set_int_range(1, n as int);
            vstd::set_lib::lemma_int_range(1, n as int);
            assert forall|x: int| list.to_set().contains(x) implies below.contains(x) by {
                let i = choose|i: int| 0 <= i < list.len() && list[i] == x;
                assert(list[i] == x);
            }
            vstd::set_lib::lemma_len_subset(list.to_set(), below);
            assert(false);
        }
        let i = choose|i: int| 0 <= i < list.len() && list[i] == n;
        let rest = list.remove(i);
        assert forall|j: int| 0 <= j < rest.len() implies 1 <= #[trigger] rest[j] <= n - 1 by {
            let k = if j < i {
                j
            } else {
                j + 1
            };
            assert(rest[j] == list[k]);
        }
        assert(rest.no_duplicates()) by {
            assert forall|j: int, k: int|
                0 <= j < rest.len() && 0 <= k < rest.len() && j != k implies rest[j] != rest[k] by {
                let from = if j < i {
                    j
                } else {
                    j + 1
                };
                let to = if k < i {
                    k
                } else {
                    k + 1
                };
                assert(rest[j] == list[from] && rest[k] == list[to]);
            }
        }
        lemma_permutation(rest, (n - 1) as nat);
        lemma_product_without(list, i);
    }
}

proof fn lemma_factorial_below(p: int, n: nat)
    requires
        prime(p),
        n < p,
    ensures
        factorial(n) % p != 0,
    decreases n,
{
    if n == 0 {
        div_mod::lemma_small_mod(1, p as nat);
    } else {
        lemma_factorial_below(p, (n - 1) as nat);
        div_mod::lemma_small_mod(n, p as nat);
        lemma_product(p, factorial((n - 1) as nat), n as int);
    }
}

/// The multiples of `a` by 1 to `count`, reduced.
spec fn multiples(a: int, p: int, count: nat) -> Seq<int> {
    Seq::new(count, |i: int| (a * (i + 1)) % p)
}

proof fn lemma_multiples(a: int, p: int, count: nat)
    requires
        p > 1,
    ensures
        product(multiples(a, p, count)) % p == (power::pow(a, count) * factorial(count)) % p,
    decreases count,
{
    if count == 0 {
        power::lemma_pow0(a);
    } else {
        let shorter = (count - 1) as nat;
        lemma_multiples(a, p, shorter);
        assert(multiples(a, p, count).drop_last() =~= multiples(a, p, shorter));
        let front = product(multiples(a, p, shorter));
        let step = a * count;
        assert(multiples(a, p, count).last() == step % p);
        div_mod::lemma_mul_mod_noop_right(front, step, p);
        div_mod::lemma_mul_mod_noop_left(front, step, p);
        let known = power::pow(a, shorter) * factorial(shorter);
        div_mod::lemma_mul_mod_noop_left(known, step, p);
        reveal(power::pow);
        assert(known * step == power::pow(a, count) * factorial(count)) by (nonlinear_arith)
            requires
                known == power::pow(a, shorter) * factorial(shorter),
                step == a * count,
                power::pow(a, count) == a * power::pow(a, shorter),
                factorial(count) == factorial(shorter) * count,
        ;
    }
}

/// A prime divides one less than the power one less than itself of anything that it does not
/// divide.
pub proof fn little_theorem(p: int, a: int)
    requires
        prime(p),
        a % p != 0,
    ensures
        power::pow(a, (p - 1) as nat) % p == 1,
{
    let count = (p - 1) as nat;
    let list = multiples(a, p, count);
    assert forall|i: int| 0 <= i < count implies 1 <= #[trigger] list[i] <= count by {
        div_mod::lemma_small_mod((i + 1) as nat, p as nat);
        lemma_product(p, a, i + 1);
        div_mod::lemma_mod_bound(a * (i + 1), p);
    }
    assert forall|i: int, j: int| 0 <= i < j < count implies list[i] != list[j] by {
        if list[i] == list[j] {
            let low = a * (i + 1);
            let high = a * (j + 1);
            div_mod::lemma_mod_equivalence(high, low, p);
            assert(high - low == a * (j - i)) by (nonlinear_arith)
                requires
                    low == a * (i + 1),
                    high == a * (j + 1),
            ;
            div_mod::lemma_small_mod((j - i) as nat, p as nat);
            lemma_product(p, a, j - i);
        }
    }
    assert(list.no_duplicates());
    lemma_permutation(list, count);
    lemma_multiples(a, p, count);
    let all = factorial(count);
    let raised = power::pow(a, count);
    div_mod::lemma_mod_equivalence(raised * all, all, p);
    assert(raised * all - all == (raised - 1) * all) by (nonlinear_arith);
    lemma_factorial_below(p, count);
    if (raised - 1) % p != 0 {
        lemma_product(p, raised - 1, all);
    }
    div_mod::lemma_mod_equivalence(raised, 1, p);
    div_mod::lemma_small_mod(1, p as nat);
}

/// That the power of `base` by `odd` doubled `r` times is one less than nothing.
pub open spec fn is_minus_one(modulus: int, odd: nat, base: int, r: nat) -> bool {
    power::pow(base, odd * power2::pow2(r)) % modulus == modulus - 1
}

/// What one Miller-Rabin round asks of `base`.
pub open spec fn passes(modulus: int, odd: nat, shifts: nat, base: int) -> bool {
    ||| base == 0
    ||| power::pow(base, odd) % modulus == 1
    ||| is_minus_one(modulus, odd, base, 0)
    ||| exists|r: nat| 0 < r < shifts && #[trigger] is_minus_one(modulus, odd, base, r)
}

proof fn lemma_doubled(base: int, odd: nat, r: nat)
    ensures
        power::pow(base, odd * power2::pow2(0)) == power::pow(base, odd),
        power::pow(base, odd * power2::pow2(r + 1)) == power::pow(base, odd * power2::pow2(r))
            * power::pow(base, odd * power2::pow2(r)),
{
    power2::lemma2_to64();
    assert(odd * power2::pow2(0) == odd) by (nonlinear_arith)
        requires
            power2::pow2(0) == 1,
    ;
    power2::lemma_pow2_unfold(r + 1);
    let half = odd * power2::pow2(r);
    assert(odd * power2::pow2(r + 1) == half + half) by (nonlinear_arith)
        requires
            half == odd * power2::pow2(r),
            power2::pow2(r + 1) == 2 * power2::pow2(r),
    ;
    power::lemma_pow_adds(base, half, half);
}

proof fn lemma_descend(p: int, odd: nat, base: int, r: nat)
    requires
        prime(p),
        power::pow(base, odd * power2::pow2(r)) % p == 1,
    ensures
        power::pow(base, odd) % p == 1 || exists|s: nat|
            s < r && #[trigger] is_minus_one(p, odd, base, s),
    decreases r,
{
    if r == 0 {
        lemma_doubled(base, odd, 0);
    } else {
        let s = (r - 1) as nat;
        lemma_doubled(base, odd, s);
        let x = power::pow(base, odd * power2::pow2(s));
        div_mod::lemma_small_mod(1, p as nat);
        div_mod::lemma_mod_equivalence(x * x, 1, p);
        assert(x * x - 1 == (x - 1) * (x + 1)) by (nonlinear_arith);
        if (x - 1) % p == 0 {
            div_mod::lemma_mod_equivalence(x, 1, p);
            lemma_descend(p, odd, base, s);
            if power::pow(base, odd) % p != 1 {
                let t = choose|t: nat| t < s && #[trigger] is_minus_one(p, odd, base, t);
                assert(is_minus_one(p, odd, base, t));
            }
        } else {
            if (x + 1) % p != 0 {
                lemma_product(p, x - 1, x + 1);
            }
            assert(x + 1 == x - (p - 1) + p);
            div_mod::lemma_mod_add_multiples_vanish(x - (p - 1), p);
            div_mod::lemma_mod_equivalence(x, p - 1, p);
            div_mod::lemma_small_mod((p - 1) as nat, p as nat);
            assert(is_minus_one(p, odd, base, s));
        }
    }
}

/// A prime passes the round of every base.
pub proof fn primes_pass_every_round(p: int, odd: nat, shifts: nat, base: int)
    requires
        prime(p),
        p - 1 == odd * power2::pow2(shifts),
        0 <= base < p,
    ensures
        passes(p, odd, shifts, base),
{
    if base != 0 {
        div_mod::lemma_small_mod(base as nat, p as nat);
        little_theorem(p, base);
        lemma_descend(p, odd, base, shifts);
        if power::pow(base, odd) % p != 1 {
            let r = choose|r: nat| r < shifts && #[trigger] is_minus_one(p, odd, base, r);
            assert(is_minus_one(p, odd, base, r));
        }
    }
}

fn multiply(a: u64, b: u64, modulus: u64) -> (result: u64)
    requires
        modulus > 0,
    ensures
        result == (a * b) % (modulus as int),
        result < modulus,
{
    proof {
        assert(0 <= a * b <= u64::MAX * u64::MAX) by (nonlinear_arith)
            requires
                a <= u64::MAX,
                b <= u64::MAX,
        ;
        div_mod::lemma_mod_bound(a * b, modulus as int);
    }
    ((a as u128 * b as u128) % (modulus as u128)) as u64
}

/// The power of `base` by `exponent`, reduced.
pub fn modular_pow(base: u64, exponent: u64, modulus: u64) -> (result: u64)
    requires
        modulus > 1,
    ensures
        result == power::pow(base as int, exponent as nat) % (modulus as int),
{
    let mut output: u64 = 1;
    let mut factor: u64 = base;
    let mut left: u64 = exponent;
    proof {
        assert(1 * power::pow(base as int, exponent as nat) == power::pow(
            base as int,
            exponent as nat,
        ));
    }
    while left != 0
        invariant
            modulus > 1,
            output < modulus,
            (output * power::pow(factor as int, left as nat)) % (modulus as int) == power::pow(
                base as int,
                exponent as nat,
            ) % (modulus as int),
        decreases left,
    {
        proof {
            lemma_square_step(output as int, factor as int, left as nat, modulus as int);
        }
        if left % 2 != 0 {
            output = multiply(output, factor, modulus);
        }
        factor = multiply(factor, factor, modulus);
        left = left / 2;
    }
    proof {
        power::lemma_pow0(factor as int);
        div_mod::lemma_small_mod(output as nat, modulus as nat);
    }
    output
}

/// One step of raising by squaring.
proof fn lemma_square_step(output: int, factor: int, left: nat, modulus: int)
    requires
        modulus > 1,
        left > 0,
    ensures
        ({
            let next = if left % 2 != 0 {
                (output * factor) % modulus
            } else {
                output
            };
            (next * power::pow((factor * factor) % modulus, left / 2)) % modulus == (output
                * power::pow(factor, left)) % modulus
        }),
{
    let half = left / 2;
    let square = factor * factor;
    let reduced = power::pow(square % modulus, half);
    let raised = power::pow(square, half);
    power::lemma_pow_mod_noop(square, half, modulus);
    power::lemma_pow_distributes(factor, factor, half);
    power::lemma_pow_adds(factor, half, half);
    let even = power::pow(factor, half + half);
    assert(raised == even);
    if left % 2 != 0 {
        let both = output * factor;
        reveal(power::pow);
        assert(power::pow(factor, left) == factor * even);
        assert(output * (factor * even) == both * raised) by (nonlinear_arith)
            requires
                both == output * factor,
                raised == even,
        ;
        div_mod::lemma_mul_mod_noop_left(both, reduced, modulus);
        div_mod::lemma_mul_mod_noop_right(both, reduced, modulus);
        div_mod::lemma_mul_mod_noop_right(both, raised, modulus);
    } else {
        assert(half + half == left);
        div_mod::lemma_mul_mod_noop_right(output, reduced, modulus);
        div_mod::lemma_mul_mod_noop_right(output, raised, modulus);
    }
}

/// One Miller-Rabin round.
pub fn miller_rabin_round(modulus: u64, odd: u64, shifts: u32, base: u64) -> (result: bool)
    requires
        modulus > 1,
    ensures
        result == passes(modulus as int, odd as nat, shifts as nat, base as int),
{
    if base == 0 {
        return true;
    }
    let mut value: u64 = modular_pow(base, odd, modulus);
    proof {
        lemma_doubled(base as int, odd as nat, 0);
    }
    if value == 1 || value == modulus - 1 {
        return true;
    }
    let mut i: u32 = 1;
    while i < shifts
        invariant
            modulus > 1,
            1 <= i,
            base != 0,
            i <= shifts || i == 1,
            value == power::pow(base as int, odd as nat * power2::pow2((i - 1) as nat))
                % (modulus as int),
            power::pow(base as int, odd as nat) % (modulus as int) != 1,
            forall|r: nat|
                r < i ==> !#[trigger] is_minus_one(modulus as int, odd as nat, base as int, r),
        decreases shifts - i,
    {
        let ghost before = power::pow(base as int, odd as nat * power2::pow2((i - 1) as nat));
        value = multiply(value, value, modulus);
        proof {
            lemma_doubled(base as int, odd as nat, (i - 1) as nat);
            div_mod::lemma_mul_mod_noop(before, before, modulus as int);
        }
        if value == modulus - 1 {
            assert(is_minus_one(modulus as int, odd as nat, base as int, i as nat));
            return true;
        }
        i = i + 1;
    }
    false
}

/// Trial division up to the square root.
fn has_no_divisor(value: u64) -> (result: bool)
    requires
        value >= 2,
    ensures
        result == prime(value as int),
{
    let mut divisor: u64 = 2;
    while divisor <= value / divisor
        invariant
            value >= 2,
            2 <= divisor <= u64::MAX / 2,
            forall|d: int| 1 < d < divisor ==> !#[trigger] divides(d, value as int),
        decreases u64::MAX - divisor,
    {
        if value % divisor == 0 {
            proof {
                assert(divides(divisor as int, value as int));
                assert(divisor < value) by (nonlinear_arith)
                    requires
                        2 <= divisor <= value / divisor,
                        value >= 2,
                ;
            }
            return false;
        }
        proof {
            assert(value / divisor <= u64::MAX / 2) by (nonlinear_arith)
                requires
                    value <= u64::MAX,
                    divisor >= 2,
            ;
            if divisor == u64::MAX / 2 {
                assert(value / divisor < divisor) by (nonlinear_arith)
                    requires
                        value <= u64::MAX,
                        divisor == u64::MAX / 2,
                ;
            }
        }
        divisor = divisor + 1;
    }
    proof {
        assert forall|d: int| 1 < d < value implies !#[trigger] divides(d, value as int) by {
            if divides(d, value as int) {
                lemma_cofactor(value as int, d, divisor as int);
                assert(divides(value as int / d, value as int));
            }
        }
    }
    true
}

/// Of two factors one is below what exceeds the root.
proof fn lemma_cofactor(value: int, d: int, bound: int)
    requires
        1 < d < value,
        divides(d, value),
        2 <= bound,
        bound > value / bound,
    ensures
        d < bound || (1 < value / d < bound && divides(value / d, value)),
{
    let other = value / d;
    div_mod::lemma_fundamental_div_mod(value, d);
    assert(value == d * other);
    assert(other > 1) by (nonlinear_arith)
        requires
            value == d * other,
            1 < d < value,
    ;
    assert((d * other) % other == 0) by {
        div_mod::lemma_mod_multiples_basic(d, other);
    }
    if d >= bound && other >= bound {
        assert(d * other >= bound * bound) by (nonlinear_arith)
            requires
                d >= bound,
                other >= bound,
                bound >= 2,
        ;
        assert(value / bound >= bound) by (nonlinear_arith)
            requires
                value >= bound * bound,
                bound >= 2,
        ;
    }
}

/// Whether `value` is prime. Small factors and Miller-Rabin rounds sort out the composites;
/// trial division settles what is left.
pub fn is_prime(value: u64) -> (result: bool)
    ensures
        result == prime(value as int),
{
    if value < 2 {
        return false;
    }
    let small: [u64; 12] = [2, 3, 5, 7, 11, 13, 17, 19, 23, 29, 31, 37];
    let mut i: usize = 0;
    while i < 12
        invariant
            i <= 12,
            value >= 2,
            forall|k: int| 0 <= k < 12 ==> 2 <= #[trigger] small@[k] <= 37,
            small@[0] == 2,
            i > 0 ==> value % 2 != 0,
        decreases 12 - i,
    {
        let factor: u64 = small[i];
        if value == factor {
            return has_no_divisor(value);
        }
        if value % factor == 0 {
            proof {
                assert(value >= factor) by (nonlinear_arith)
                    requires
                        value % factor == 0,
                        value > 0,
                        factor > 0,
                ;
                assert(divides(factor as int, value as int));
            }
            return false;
        }
        i = i + 1;
    }
    let mut odd: u64 = value - 1;
    let mut shifts: u32 = 0;
    proof {
        power2::lemma2_to64();
    }
    while odd % 2 == 0
        invariant
            value >= 3,
            odd > 0,
            odd * power2::pow2(shifts as nat) == value - 1,
            shifts + odd <= u64::MAX,
            shifts < 64,
        decreases odd,
    {
        proof {
            power2::lemma_pow2_unfold((shifts + 1) as nat);
            let power = power2::pow2(shifts as nat);
            assert((odd / 2) * (2 * power) == value - 1) by (nonlinear_arith)
                requires
                    odd % 2 == 0,
                    odd * power == value - 1,
            ;
            if shifts == 63 {
                power2::lemma2_to64();
                power2::lemma2_to64_rest();
                assert(false) by (nonlinear_arith)
                    requires
                        odd * power == value - 1,
                        odd >= 2,
                        power == 0x8000000000000000,
                        value <= u64::MAX,
                ;
            }
        }
        odd = odd / 2;
        shifts = shifts + 1;
    }
    let bases: [u64; 7] = [2, 325, 9_375, 28_178, 450_775, 9_780_504, 1_795_265_022];
    let mut j: usize = 0;
    while j < 7
        invariant
            j <= 7,
            value >= 3,
            odd * power2::pow2(shifts as nat) == value - 1,
        decreases 7 - j,
    {
        let base: u64 = bases[j] % value;
        if !miller_rabin_round(value, odd, shifts, base) {
            proof {
                if prime(value as int) {
                    primes_pass_every_round(
                        value as int,
                        odd as nat,
                        shifts as nat,
                        base as int,
                    );
                }
            }
            return false;
        }
        j = j + 1;
    }
    has_no_divisor(value)
}

/// A prime that is not on the list.
pub open spec fn fresh_prime(value: int, seen: Seq<u64>) -> bool {
    prime(value) && !seen.contains(value as u64)
}

/// The first prime after `current` that is not on the list, or nothing where no 64-bit number is
/// one.
pub open spec fn is_next_unseen(current: int, seen: Seq<u64>, next: Option<u64>) -> bool {
    let end = match next {
        Some(value) => value as int,
        None => u64::MAX + 1,
    };
    &&& next matches Some(value) ==> current < value && fresh_prime(value as int, seen)
    &&& forall|q: int| current < q < end ==> !#[trigger] fresh_prime(q, seen)
}

/// What `is_next_unseen` describes.
pub open spec fn next_unseen(current: int, seen: Seq<u64>) -> Option<u64> {
    choose|next: Option<u64>| is_next_unseen(current, seen, next)
}

fn contains(list: &Vec<u64>, value: u64) -> (found: bool)
    ensures
        found == list@.contains(value),
{
    let mut i: usize = 0;
    while i < list.len()
        invariant
            i <= list@.len(),
            forall|k: int| 0 <= k < i ==> list@[k] != value,
        decreases list@.len() - i,
    {
        if list[i] == value {
            return true;
        }
        i = i + 1;
    }
    false
}

pub fn next_unseen_prime(current: u64, seen: &Vec<u64>) -> (next: Option<u64>)
    ensures
        is_next_unseen(current as int, seen@, next),
        next == next_unseen(current as int, seen@),
{
    let next = search_unseen_prime(current, seen);
    proof {
        the_next_prime_is_unique(
            current as int,
            seen@,
            next,
            next_unseen(current as int, seen@),
        );
    }
    next
}

fn search_unseen_prime(current: u64, seen: &Vec<u64>) -> (next: Option<u64>)
    ensures
        is_next_unseen(current as int, seen@, next),
{
    let mut tried: u64 = current;
    while tried < u64::MAX
        invariant
            current <= tried,
            forall|q: int| current < q <= tried ==> !#[trigger] fresh_prime(q, seen@),
        decreases u64::MAX - tried,
    {
        tried = tried + 1;
        if is_prime(tried) && !contains(seen, tried) {
            return Some(tried);
        }
    }
    None
}

/// There is at most one next prime.
pub proof fn the_next_prime_is_unique(
    current: int,
    seen: Seq<u64>,
    one: Option<u64>,
    other: Option<u64>,
)
    requires
        is_next_unseen(current, seen, one),
        is_next_unseen(current, seen, other),
    ensures
        one == other,
{
    match (one, other) {
        (Some(a), Some(b)) => {
            if a < b {
                assert(fresh_prime(a as int, seen));
            }
            if b < a {
                assert(fresh_prime(b as int, seen));
            }
        },
        (Some(a), None) => {
            assert(fresh_prime(a as int, seen));
        },
        (None, Some(b)) => {
            assert(fresh_prime(b as int, seen));
        },
        (None, None) => {},
    }
}

proof fn lemma_first_fresh(current: int, seen: Seq<u64>, from: int) -> (next: Option<u64>)
    requires
        current < from,
        0 <= from <= u64::MAX + 1,
        forall|q: int| current < q < from ==> !#[trigger] fresh_prime(q, seen),
    ensures
        is_next_unseen(current, seen, next),
    decreases u64::MAX + 1 - from,
{
    if from > u64::MAX {
        None
    } else if fresh_prime(from, seen) {
        Some(from as u64)
    } else {
        lemma_first_fresh(current, seen, from + 1)
    }
}

/// There always is an answer to which prime comes next.
pub proof fn lemma_next_exists(current: int, seen: Seq<u64>)
    ensures
        is_next_unseen(current, seen, next_unseen(current, seen)),
{
    let from = if current < 0 {
        0
    } else if current > u64::MAX {
        u64::MAX + 1
    } else {
        current + 1
    };
    if current > u64::MAX {
        assert(is_next_unseen(current, seen, None));
    } else {
        let next = lemma_first_fresh(current, seen, from);
    }
}

} // verus!
