//! Modular exponentiation and the primality oracle.

use vstd::prelude::*;
use vstd::arithmetic::div_mod::{lemma_mod_bound, lemma_mul_mod_noop_general, lemma_small_mod};
use vstd::arithmetic::mul::{lemma_mul_is_associative, lemma_mul_upper_bound};
use vstd::arithmetic::power::{
    lemma_pow0, lemma_pow1, lemma_pow_adds, lemma_pow_mod_noop, lemma_pow_multiplies, pow,
};
use vstd::arithmetic::power2::{
    lemma2_to64, lemma_pow2_pos, lemma_pow2_strictly_increases, lemma_pow2_unfold, pow2,
};
use crate::host::read_clock;
use crate::number_theory::{
    divides, is_prime_number, lemma_cofactor_divides, lemma_divides_transitive,
    lemma_fermat_little, lemma_square_roots_of_one,
};

verus! {

/// Splits a power along the lowest bit of its exponent:
/// `b^e == (b*b)^(e/2)` for even `e`, and `b * (b*b)^(e/2)` for odd `e`.
proof fn lemma_pow_halves(b: int, e: nat)
    ensures
        e % 2 == 0 ==> pow(b, e) == pow(b * b, e / 2),
        e % 2 == 1 ==> pow(b, e) == b * pow(b * b, e / 2),
{
    let h: nat = e / 2;
    assert(pow(b, 2) == b * b) by {
        lemma_pow1(b);
        lemma_pow_adds(b, 1, 1);
    }
    assert(pow(b * b, h) == pow(b, 2 * h)) by {
        lemma_pow_multiplies(b, 2, h);
    }
    if e % 2 == 1 {
        assert(e == 1 + 2 * h);
        lemma_pow1(b);
        lemma_pow_adds(b, 1, 2 * h);
    } else {
        assert(e == 2 * h);
    }
}

/// One step of the square-and-multiply ladder keeps `(acc * b^e) % m`.
proof fn lemma_ladder_step(acc: int, b: int, e: nat, m: int)
    requires
        m > 0,
        e > 0,
    ensures
        e % 2 == 1 ==> (((acc * b) % m) * pow((b * b) % m, e / 2)) % m == (acc * pow(b, e)) % m,
        e % 2 == 0 ==> (acc * pow((b * b) % m, e / 2)) % m == (acc * pow(b, e)) % m,
{
    let h: nat = e / 2;
    let sq = pow(b * b, h);
    let sq_red = pow((b * b) % m, h);
    lemma_pow_halves(b, e);
    lemma_pow_mod_noop(b * b, h, m);
    assert(sq_red % m == sq % m);
    if e % 2 == 1 {
        lemma_mul_mod_noop_general(acc * b, sq_red, m);
        lemma_mul_mod_noop_general(acc * b, sq, m);
        assert((((acc * b) % m) * sq_red) % m == ((acc * b) * sq) % m);
        lemma_mul_is_associative(acc, b, sq);
    } else {
        lemma_mul_mod_noop_general(acc, sq_red, m);
        lemma_mul_mod_noop_general(acc, sq, m);
    }
}

/// The product of two residues, reduced modulo `modulus`. The product is
/// formed in 128 bits, so it is exact for every pair of 64-bit factors.
pub fn mul_mod(a: u64, b: u64, modulus: u64) -> (r: u64)
    requires
        modulus > 0,
    ensures
        r == (a * b) % (modulus as int),
        r < modulus,
{
    proof {
        lemma_mul_upper_bound(a as int, u64::MAX as int, b as int, u64::MAX as int);
    }
    let wide: u128 = (a as u128) * (b as u128);
    let r: u128 = wide % (modulus as u128);
    r as u64
}

/// Raises `base` to `exp` modulo `modulus` by square-and-multiply.
///
/// Every intermediate product is widened to 128 bits, so the result is the
/// mathematical residue over the whole 64-bit range.
pub fn mod_exp(base: u64, exp: u64, modulus: u64) -> (result: u64)
    requires
        modulus > 0,
    ensures
        result == pow(base as int, exp as nat) % (modulus as int),
        result < modulus,
{
    let mut result: u64 = 1 % modulus;
    let mut b: u64 = base % modulus;
    let mut e: u64 = exp;
    proof {
        let m = modulus as int;
        lemma_pow_mod_noop(base as int, exp as nat, m);
        lemma_mul_mod_noop_general(1, pow(b as int, e as nat), m);
        assert(1 * pow(b as int, e as nat) == pow(b as int, e as nat));
    }
    while e > 0
        invariant
            modulus > 0,
            result < modulus,
            b < modulus,
            (result * pow(b as int, e as nat)) % (modulus as int) == pow(base as int, exp as nat)
                % (modulus as int),
        decreases e,
    {
        proof {
            lemma_ladder_step(result as int, b as int, e as nat, modulus as int);
        }
        if e % 2 == 1 {
            result = mul_mod(result, b, modulus);
        }
        e = e / 2;
        b = mul_mod(b, b, modulus);
    }
    proof {
        lemma_pow0(b as int);
        assert(result * 1 == result);
        lemma_small_mod(result as nat, modulus as nat);
    }
    result
}

/// The unsigned 64-bit reading of a signed timestamp: a negative value
/// stands for its two's complement.
pub open spec fn time_as_u64(unix_time: i64) -> int {
    if unix_time >= 0 {
        unix_time as int
    } else {
        unix_time + 0x1_0000_0000_0000_0000
    }
}

/// The witness that a round draws for `n` from the wall-clock value. It lies
/// in `[2, n - 2]`.
pub open spec fn witness_of(unix_time: i64, n: u64) -> int
    recommends
        n > 3,
{
    2 + time_as_u64(unix_time) % (n - 3)
}

/// `d` doubled `s` times gives `m`.
pub open spec fn doubles_to(d: nat, s: nat, m: nat) -> bool {
    d * pow2(s) == m
}

/// The residue of `a^(d * 2^j)` modulo `n`.
pub open spec fn power_residue(a: int, d: nat, j: nat, n: int) -> int {
    pow(a, d * pow2(j)) % n
}

/// Whether one round accepts `n` for the witness `a`: either `a^d` is 1
/// modulo `n`, or one of `a^d, a^(2d), a^(4d), ...`, up to the exponent
/// `n - 1`, is `n - 1` modulo `n`.
pub open spec fn round_accepts(a: int, d: nat, n: int) -> bool {
    ||| pow(a, d) % n == 1
    ||| exists|j: nat| d * pow2(j) <= n - 1 && #[trigger] power_residue(a, d, j, n) == n - 1
}

/// What is left of `m` once every factor 2 is divided out.
pub open spec fn odd_part(m: nat) -> nat
    decreases m,
{
    if m == 0 || m % 2 == 1 {
        m
    } else {
        odd_part(m / 2)
    }
}

/// The verdict of the Miller-Rabin oracle on `n` with `k` rounds, every
/// round drawing its witness from the same wall-clock value.
pub open spec fn miller_rabin_verdict(n: u64, k: u32, unix_time: i64) -> bool {
    if n <= 1 {
        false
    } else if n <= 3 {
        true
    } else if n % 2 == 0 || n % 3 == 0 {
        false
    } else {
        k == 0 || round_accepts(witness_of(unix_time, n), odd_part((n - 1) as nat), n as int)
    }
}

/// Doubling the exponent squares the residue.
proof fn lemma_residue_squares(a: int, d: nat, j: nat, n: int)
    requires
        n > 0,
    ensures
        power_residue(a, d, j + 1, n) == (power_residue(a, d, j, n) * power_residue(a, d, j, n))
            % n,
        d * pow2(j + 1) == 2 * (d * pow2(j)),
{
    let e: nat = d * pow2(j);
    lemma_pow2_unfold(j + 1);
    assert(d * pow2(j + 1) == e + e) by (nonlinear_arith)
        requires
            pow2(j + 1) == 2 * pow2(j),
            e == d * pow2(j),
    ;
    lemma_pow_adds(a, e, e);
    lemma_mul_mod_noop_general(pow(a, e), pow(a, e), n);
}

/// Once a residue in the chain is 1, every later one is 1.
proof fn lemma_residue_stays_one(a: int, d: nat, i: nat, j: nat, n: int)
    requires
        n > 1,
        i <= j,
        power_residue(a, d, i, n) == 1,
    ensures
        power_residue(a, d, j, n) == 1,
    decreases j - i,
{
    if i < j {
        lemma_residue_stays_one(a, d, i, (j - 1) as nat, n);
        lemma_residue_squares(a, d, (j - 1) as nat, n);
        lemma_small_mod(1, n as nat);
    }
}

/// Doubling more often gives more: `d * 2^i < d * 2^j` for `i < j`, `d > 0`.
proof fn lemma_doubling_increases(d: nat, i: nat, j: nat)
    requires
        d > 0,
        i < j,
    ensures
        d * pow2(i) < d * pow2(j),
{
    lemma_pow2_strictly_increases(i, j);
    assert(d * pow2(i) < d * pow2(j)) by (nonlinear_arith)
        requires
            d > 0,
            pow2(i) < pow2(j),
    ;
}

/// Dividing out the factors 2 of `m` takes `m` back by doubling.
pub proof fn lemma_odd_part_doubles(m: nat)
    requires
        m > 0,
    ensures
        exists|s: nat| #[trigger] doubles_to(odd_part(m), s, m),
    decreases m,
{
    if m % 2 == 1 {
        assert(pow2(0) == 1) by {
            lemma2_to64();
        }
        assert(doubles_to(odd_part(m), 0, m));
    } else {
        lemma_odd_part_doubles(m / 2);
        let s = choose|s: nat| #[trigger] doubles_to(odd_part(m / 2), s, m / 2);
        lemma_pow2_unfold(s + 1);
        assert(odd_part(m) * pow2(s + 1) == m) by (nonlinear_arith)
            requires
                odd_part(m) * pow2(s) == m / 2,
                pow2(s + 1) == 2 * pow2(s),
                m % 2 == 0,
        ;
        assert(doubles_to(odd_part(m), s + 1, m));
    }
}

/// Where the `j`-th residue of the chain is 1 modulo a prime, the round
/// accepts: going down the chain, the residue before the first 1 is a square
/// root of one other than 1.
proof fn lemma_chain_reaches_minus_one(a: int, d: nat, j: nat, n: int)
    requires
        is_prime_number(n),
        d * pow2(j) <= n - 1,
        power_residue(a, d, j, n) == 1,
    ensures
        round_accepts(a, d, n),
    decreases j,
{
    if j == 0 {
        assert(pow2(0) == 1) by {
            lemma2_to64();
        }
        assert(d * pow2(0) == d);
    } else {
        let i = (j - 1) as nat;
        let x = power_residue(a, d, i, n);
        let e: nat = d * pow2(i);
        lemma_pow2_unfold(j);
        assert(d * pow2(j) == e + e) by (nonlinear_arith)
            requires
                pow2(j) == 2 * pow2(i),
                e == d * pow2(i),
        ;
        lemma_pow_adds(a, e, e);
        lemma_mul_mod_noop_general(pow(a, e), pow(a, e), n);
        lemma_mod_bound(pow(a, e), n);
        lemma_square_roots_of_one(n, x);
        if x == 1 {
            lemma_chain_reaches_minus_one(a, d, i, n);
        }
    }
}

/// A round accepts a prime `n` for every witness that `n` does not divide,
/// whatever stage `d` of the halving of `n - 1` it starts from.
pub proof fn lemma_round_accepts_prime(a: int, d: nat, n: int)
    requires
        is_prime_number(n),
        a % n != 0,
        exists|s: nat| #[trigger] doubles_to(d, s, (n - 1) as nat),
    ensures
        round_accepts(a, d, n),
{
    let s = choose|s: nat| #[trigger] doubles_to(d, s, (n - 1) as nat);
    lemma_fermat_little(n, a);
    lemma_chain_reaches_minus_one(a, d, s, n);
}

/// The oracle never rejects a prime, whatever the time and the number of
/// rounds: it errs only by taking a composite number for a prime.
pub proof fn lemma_verdict_accepts_primes(n: u64, k: u32, unix_time: i64)
    requires
        is_prime_number(n as int),
    ensures
        miller_rabin_verdict(n, k, unix_time),
{
    if n > 3 {
        assert(!divides(2, n as int));
        assert(!divides(3, n as int));
        let a = witness_of(unix_time, n);
        lemma_mod_bound(time_as_u64(unix_time), n - 3);
        lemma_small_mod(a as nat, n as nat);
        lemma_odd_part_doubles((n - 1) as nat);
        lemma_round_accepts_prime(a, odd_part((n - 1) as nat), n as int);
    }
}

/// The unsigned 64-bit reading of a signed timestamp.
fn time_to_u64(unix_time: i64) -> (t: u64)
    ensures
        t == time_as_u64(unix_time),
{
    if unix_time >= 0 {
        unix_time as u64
    } else {
        let below: u64 = (-(unix_time + 1)) as u64;
        u64::MAX - below
    }
}

/// One Miller-Rabin round on `n`, where `d` is `n - 1` with some factors 2
/// divided out. The witness is drawn from `unix_time`, so the round is a
/// function of its arguments: it is not a random test. It accepts every
/// prime, and the composite numbers for which the witness is a strong liar.
pub fn miller_rabin_test(d: u64, n: u64, unix_time: i64) -> (accepted: bool)
    requires
        n > 3,
        exists|s: nat| #[trigger] doubles_to(d as nat, s, (n - 1) as nat),
    ensures
        accepted == round_accepts(witness_of(unix_time, n), d as nat, n as int),
        2 <= witness_of(unix_time, n) <= n - 2,
        is_prime_number(n as int) ==> accepted,
{
    let a: u64 = 2 + time_to_u64(unix_time) % (n - 3);
    proof {
        if is_prime_number(n as int) {
            lemma_small_mod(a as nat, n as nat);
            lemma_round_accepts_prime(a as int, d as nat, n as int);
        }
    }
    let ghost s: nat = choose|s: nat| #[trigger] doubles_to(d as nat, s, (n - 1) as nat);
    let ghost w: int = a as int;
    let ghost dn: nat = d as nat;
    let ghost m: int = n as int;
    proof {
        assert(pow2(0) == 1) by {
            lemma2_to64();
        }
        assert(dn * pow2(0) == dn);
        assert(power_residue(w, dn, 0, m) == pow(w, dn) % m);
        lemma_pow2_pos(s);
        assert(dn > 0 && dn <= n - 1) by (nonlinear_arith)
            requires
                dn * pow2(s) == n - 1,
                n > 3,
                pow2(s) > 0,
        ;
    }
    let mut x: u64 = mod_exp(a, d, n);
    if x == 1 || x == n - 1 {
        return true;
    }
    let mut cur: u64 = d;
    let ghost mut i: nat = 0;
    while cur != n - 1
        invariant
            n > 3,
            m == n as int,
            dn == d as nat,
            w == witness_of(unix_time, n),
            is_prime_number(m) ==> round_accepts(w, dn, m),
            dn > 0,
            doubles_to(dn, s, (n - 1) as nat),
            i <= s,
            cur == dn * pow2(i),
            x == power_residue(w, dn, i, m),
            x != 1,
            pow(w, dn) % m != 1,
            forall|j: nat| j <= i ==> #[trigger] power_residue(w, dn, j, m) != n - 1,
        decreases s - i,
    {
        proof {
            if i == s {
                assert(cur == n - 1);
            }
            lemma_residue_squares(w, dn, i, m);
            if i + 1 < s {
                lemma_doubling_increases(dn, i + 1, s);
            }
            lemma_pow1(x as int);
            lemma_pow_adds(x as int, 1, 1);
        }
        x = mod_exp(x, 2, n);
        cur = cur * 2;
        proof {
            i = i + 1;
        }
        if x == 1 {
            proof {
                assert forall|j: nat| dn * pow2(j) <= m - 1 implies #[trigger] power_residue(
                    w,
                    dn,
                    j,
                    m,
                ) != m - 1 by {
                    if j >= i {
                        lemma_residue_stays_one(w, dn, i, j, m);
                    }
                }
            }
            return false;
        }
        if x == n - 1 {
            return true;
        }
    }
    proof {
        assert forall|j: nat| dn * pow2(j) <= m - 1 implies #[trigger] power_residue(w, dn, j, m)
            != m - 1 by {
            if j > i {
                lemma_doubling_increases(dn, i, j);
            }
        }
    }
    false
}

/// Divides every factor 2 out of `m`.
fn odd_part_of(m: u64) -> (d: u64)
    requires
        m > 0,
    ensures
        d == odd_part(m as nat),
        exists|s: nat| #[trigger] doubles_to(d as nat, s, m as nat),
{
    let mut d: u64 = m;
    let ghost mut s: nat = 0;
    proof {
        lemma2_to64();
        assert(d * pow2(0) == m);
    }
    while d % 2 == 0
        invariant
            d > 0,
            odd_part(d as nat) == odd_part(m as nat),
            doubles_to(d as nat, s, m as nat),
        decreases d,
    {
        proof {
            lemma_pow2_unfold(s + 1);
            assert((d / 2) * pow2(s + 1) == d * pow2(s)) by (nonlinear_arith)
                requires
                    d % 2 == 0,
                    pow2(s + 1) == 2 * pow2(s),
            ;
            s = s + 1;
        }
        d = d / 2;
    }
    d
}

/// The Miller-Rabin primality oracle with `k` rounds.
///
/// Numbers up to 3 and multiples of 2 and 3 are decided exactly. For the
/// others each round draws its witness from `unix_time`. No prime is ever
/// rejected; a composite number for which that witness is a strong liar is
/// reported as prime, so the oracle is not sound against a participant who
/// picks the time.
pub fn is_prime(n: u64, k: u32, unix_time: i64) -> (verdict: bool)
    ensures
        verdict == miller_rabin_verdict(n, k, unix_time),
        n <= 1 ==> !verdict,
        n == 2 || n == 3 ==> verdict,
        n > 3 && (n % 2 == 0 || n % 3 == 0) ==> !verdict,
        is_prime_number(n as int) ==> verdict,
{
    proof {
        if is_prime_number(n as int) {
            lemma_verdict_accepts_primes(n, k, unix_time);
        }
    }
    if n <= 1 {
        return false;
    }
    if n <= 3 {
        return true;
    }
    if n % 2 == 0 || n % 3 == 0 {
        return false;
    }
    let d: u64 = odd_part_of(n - 1);
    let mut round: u32 = 0;
    while round < k
        invariant
            n > 3,
            round <= k,
            d == odd_part((n - 1) as nat),
            exists|s: nat| #[trigger] doubles_to(d as nat, s, (n - 1) as nat),
            round > 0 ==> round_accepts(witness_of(unix_time, n), d as nat, n as int),
        decreases k - round,
    {
        if !miller_rabin_test(d, n, unix_time) {
            return false;
        }
        round = round + 1;
    }
    true
}

/// Some time makes a round on `n` from `d` accept.
pub open spec fn some_time_accepts(d: nat, n: u64) -> bool {
    exists|unix_time: i64| round_accepts(#[trigger] witness_of(unix_time, n), d, n as int)
}

/// One Miller-Rabin round on `n` with the witness drawn from the host's
/// clock at this moment, or `None` where the host offers no clock.
///
/// The time is the host's to give, so the answer is only known to be that of
/// `miller_rabin_test` at some time: it is accepted or rejected for the
/// witness of that time, and a prime is never rejected.
pub fn miller_rabin_test_now(d: u64, n: u64) -> (accepted: Option<bool>)
    requires
        n > 3,
        exists|s: nat| #[trigger] doubles_to(d as nat, s, (n - 1) as nat),
    ensures
        accepted matches Some(verdict) ==> some_time_gives(d as nat, n, verdict),
        accepted == Some(true) ==> some_time_accepts(d as nat, n),
        accepted == Some(false) ==> !is_prime_number(n as int),
{
    match read_clock() {
        Some(reading) => Some(miller_rabin_test(d, n, reading.unix_timestamp)),
        None => None,
    }
}

/// Some time makes a round on `n` from `d` end in `verdict`.
pub open spec fn some_time_gives(d: nat, n: u64, verdict: bool) -> bool {
    exists|unix_time: i64|
        round_accepts(#[trigger] witness_of(unix_time, n), d, n as int) == verdict
}

/// The Miller-Rabin oracle with `k` rounds, each with the witness that the
/// host's clock gives at that moment; `None` where a round is needed and the
/// host offers no clock.
///
/// Numbers up to 3 and multiples of 2 and 3 are decided without the clock.
/// Of the others no prime is ever rejected, and what is accepted has passed
/// a round at some time.
pub fn is_prime_now(n: u64, k: u32) -> (verdict: Option<bool>)
    ensures
        n <= 1 ==> verdict == Some(false),
        n == 2 || n == 3 ==> verdict == Some(true),
        n > 3 && (n % 2 == 0 || n % 3 == 0) ==> verdict == Some(false),
        n > 3 && n % 2 != 0 && n % 3 != 0 && k == 0 ==> verdict == Some(true),
        verdict == Some(false) ==> !is_prime_number(n as int),
        verdict == Some(true) && n > 3 && k > 0 ==> some_time_accepts(
            odd_part((n - 1) as nat),
            n,
        ),
{
    if n <= 1 {
        return Some(false);
    }
    if n <= 3 {
        return Some(true);
    }
    if n % 2 == 0 || n % 3 == 0 {
        assert(divides(2, n as int) || divides(3, n as int));
        return Some(false);
    }
    let d: u64 = odd_part_of(n - 1);
    let mut round: u32 = 0;
    while round < k
        invariant
            n > 3,
            round <= k,
            d == odd_part((n - 1) as nat),
            exists|s: nat| #[trigger] doubles_to(d as nat, s, (n - 1) as nat),
            n % 2 != 0,
            n % 3 != 0,
            round > 0 ==> some_time_accepts(d as nat, n),
        decreases k - round,
    {
        match miller_rabin_test_now(d, n) {
            Some(true) => {},
            Some(false) => {
                return Some(false);
            },
            None => {
                return None;
            },
        }
        round = round + 1;
    }
    Some(true)
}

/// Whether the square of `i` is at most `n`.
fn square_within(i: u64, n: u64) -> (within: bool)
    ensures
        within == (i * i <= n),
{
    proof {
        lemma_mul_upper_bound(i as int, u64::MAX as int, i as int, u64::MAX as int);
    }
    (i as u128) * (i as u128) <= n as u128
}

/// Decides primality exactly, by trial division: after 2 and 3 only the
/// divisors `6k - 1` and `6k + 1` up to the square root of `n` are tried.
pub fn is_prime_by_trial_division(n: u64) -> (verdict: bool)
    ensures
        verdict == is_prime_number(n as int),
{
    if n <= 1 {
        return false;
    }
    if n <= 3 {
        assert(!divides(2, 3));
        return true;
    }
    if n % 2 == 0 || n % 3 == 0 {
        assert(divides(2, n as int) || divides(3, n as int));
        return false;
    }
    let mut i: u64 = 5;
    assert(!divides(4, n as int)) by {
        if divides(4, n as int) {
            lemma_divides_transitive(2, 4, n as int);
        }
    }
    while square_within(i, n)
        invariant
            n > 3,
            n % 2 != 0,
            n % 3 != 0,
            5 <= i <= 0x1_0000_0005,
            i % 6 == 5,
            forall|d: int| 2 <= d < i ==> !#[trigger] divides(d, n as int),
        decreases 0x1_0000_0006 - i,
    {
        proof {
            assert(i < 0x1_0000_0000 && i + 2 < n) by (nonlinear_arith)
                requires
                    i * i <= n,
                    n <= 0xFFFF_FFFF_FFFF_FFFF,
                    i >= 5,
            ;
        }
        if n % i == 0 || n % (i + 2) == 0 {
            assert(divides(i as int, n as int) || divides(i + 2, n as int));
            return false;
        }
        proof {
            assert forall|d: int| i <= d < i + 6 implies !#[trigger] divides(d, n as int) by {
                if divides(d, n as int) {
                    if d == i + 4 {
                        assert(divides(3, d));
                        lemma_divides_transitive(3, d, n as int);
                    } else {
                        assert(d == i + 1 || d == i + 3 || d == i + 5);
                        assert(divides(2, d));
                        lemma_divides_transitive(2, d, n as int);
                    }
                }
            }
        }
        i = i + 6;
    }
    proof {
        assert forall|d: int| 2 <= d < n implies !#[trigger] divides(d, n as int) by {
            if divides(d, n as int) && d >= i {
                lemma_cofactor_divides(d, n as int);
                let q = n as int / d;
                assert(2 <= q < i) by (nonlinear_arith)
                    requires
                        n == d * q,
                        d >= i,
                        d < n,
                        q > 0,
                        n < i * i,
                        i >= 5,
                ;
            }
        }
    }
    true
}

} // verus!
