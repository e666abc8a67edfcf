//! Prime numbers: what they are, Euclid's lemma, Fermat's little theorem and
//! the square roots of one modulo a prime.

use vstd::prelude::*;
use vstd::arithmetic::div_mod::{
    lemma_fundamental_div_mod, lemma_mod_bound, lemma_mod_equivalence, lemma_mod_multiples_basic,
    lemma_mod_twice, lemma_mul_mod_noop_general, lemma_mul_mod_noop_left,
    lemma_mul_mod_noop_right, lemma_small_mod, lemma_sub_mod_noop,
};
use vstd::arithmetic::power::{lemma_pow0, lemma_pow1, lemma_pow_adds, pow};
use vstd::set_lib::{lemma_int_range, lemma_subset_equality, set_int_range};

verus! {

/// `d` is a positive divisor of `n`.
pub open spec fn divides(d: int, n: int) -> bool {
    d > 0 && n % d == 0
}

/// `n` is a prime number: at least 2, with no divisor strictly between 1
/// and itself.
pub open spec fn is_prime_number(n: int) -> bool {
    n >= 2 && forall|d: int| 2 <= d < n ==> !#[trigger] divides(d, n)
}

/// A divisor of a divisor is a divisor.
pub proof fn lemma_divides_transitive(p: int, d: int, n: int)
    requires
        divides(p, d),
        divides(d, n),
    ensures
        divides(p, n),
{
    lemma_fundamental_div_mod(n, d);
    lemma_fundamental_div_mod(d, p);
    let q = (d / p) * (n / d);
    assert(n == q * p) by (nonlinear_arith)
        requires
            n == d * (n / d),
            d == p * (d / p),
            q == (d / p) * (n / d),
    ;
    lemma_mod_multiples_basic(q, p);
}

/// A divisor `d` of `n` comes with the cofactor `n / d`, which divides `n`
/// too.
pub proof fn lemma_cofactor_divides(d: int, n: int)
    requires
        n > 0,
        divides(d, n),
    ensures
        n == d * (n / d),
        n / d > 0,
        divides(n / d, n),
{
    lemma_fundamental_div_mod(n, d);
    let q = n / d;
    assert(q > 0) by (nonlinear_arith)
        requires
            n == d * q,
            n > 0,
            d > 0,
    ;
    assert(n == d * q);
    assert(d * q == q * d) by (nonlinear_arith);
    lemma_mod_multiples_basic(d, q);
}

/// A multiple of a multiple of `m` is a multiple of `m`.
proof fn lemma_multiple_scales(x: int, k: int, m: int)
    requires
        m > 0,
        x % m == 0,
    ensures
        (k * x) % m == 0,
{
    lemma_mul_mod_noop_right(k, x, m);
    assert(k * 0 == 0);
    lemma_small_mod(0, m as nat);
}

/// The difference of two multiples of `m` is a multiple of `m`.
proof fn lemma_multiples_subtract(x: int, y: int, m: int)
    requires
        m > 0,
        x % m == 0,
        y % m == 0,
    ensures
        (x - y) % m == 0,
{
    lemma_sub_mod_noop(x, y, m);
    lemma_small_mod(0, m as nat);
}

/// Euclid's lemma for a factor below the prime: where a prime `p` divides
/// `a * b` and `0 < a < p`, it divides `b`.
proof fn lemma_euclid_below(p: int, a: int, b: int)
    requires
        is_prime_number(p),
        0 < a < p,
        (a * b) % p == 0,
    ensures
        b % p == 0,
    decreases a,
{
    if a == 1 {
        assert(a * b == b) by (nonlinear_arith)
            requires
                a == 1,
        ;
    } else {
        assert(!divides(a, p));
        let q = p / a;
        let r = p % a;
        lemma_fundamental_div_mod(p, a);
        lemma_mod_bound(p, a);
        assert(r * b == p * b - q * (a * b)) by (nonlinear_arith)
            requires
                p == a * q + r,
        ;
        assert((p * b) % p == 0) by {
            lemma_mod_multiples_basic(b, p);
            assert(b * p == p * b) by (nonlinear_arith);
        }
        lemma_multiple_scales(a * b, q, p);
        lemma_multiples_subtract(p * b, q * (a * b), p);
        lemma_euclid_below(p, r, b);
    }
}

/// Euclid's lemma: a prime that divides a product divides one of its
/// factors.
pub proof fn lemma_prime_divides_factor(p: int, a: int, b: int)
    requires
        is_prime_number(p),
        (a * b) % p == 0,
    ensures
        a % p == 0 || b % p == 0,
{
    let a0 = a % p;
    lemma_mod_bound(a, p);
    if a0 != 0 {
        lemma_mul_mod_noop_left(a, b, p);
        lemma_euclid_below(p, a0, b);
    }
}

/// Modulo a prime `p`, one has no square roots but 1 and `p - 1`.
pub proof fn lemma_square_roots_of_one(p: int, x: int)
    requires
        is_prime_number(p),
        0 <= x < p,
        (x * x) % p == 1,
    ensures
        x == 1 || x == p - 1,
{
    lemma_fundamental_div_mod(x * x, p);
    let k = (x * x) / p;
    assert((x - 1) * (x + 1) == k * p) by (nonlinear_arith)
        requires
            x * x == p * k + 1,
    ;
    lemma_mod_multiples_basic(k, p);
    lemma_prime_divides_factor(p, x - 1, x + 1);
    if x == 0 {
        assert(x * x == 0);
        lemma_small_mod(0, p as nat);
    } else {
        if (x - 1) % p == 0 {
            lemma_small_mod((x - 1) as nat, p as nat);
        } else {
            if x + 1 < p {
                lemma_small_mod((x + 1) as nat, p as nat);
            }
        }
    }
}

/// The product of the entries of a sequence.
spec fn product(s: Seq<int>) -> int
    decreases s.len(),
{
    if s.len() == 0 {
        1
    } else {
        product(s.drop_last()) * s.last()
    }
}

/// The numbers `1, 2, ..., n`.
spec fn firsts(n: nat) -> Seq<int> {
    Seq::new(n, |i: int| i + 1)
}

/// The residues of `a, 2a, ..., na` modulo `p`.
spec fn multiples(a: int, p: int, n: nat) -> Seq<int> {
    Seq::new(n, |i: int| (a * (i + 1)) % p)
}

/// Taking one entry out of a sequence divides its product by that entry.
proof fn lemma_product_remove(s: Seq<int>, j: int)
    requires
        0 <= j < s.len(),
    ensures
        product(s) == product(s.remove(j)) * s[j],
    decreases s.len(),
{
    if j == s.len() - 1 {
        assert(s.remove(j) == s.drop_last());
    } else {
        let front = s.drop_last();
        assert(s.remove(j).drop_last() == front.remove(j));
        assert(s.remove(j).last() == s.last());
        lemma_product_remove(front, j);
        let rest = product(front.remove(j));
        assert((rest * s[j]) * s.last() == (rest * s.last()) * s[j]) by (nonlinear_arith);
    }
}

/// The product of a sequence does not depend on the order of its entries.
proof fn lemma_product_of_permutation(s: Seq<int>, t: Seq<int>)
    requires
        s.to_multiset() == t.to_multiset(),
    ensures
        product(s) == product(t),
    decreases s.len(),
{
    s.to_multiset_ensures();
    t.to_multiset_ensures();
    if s.len() == 0 {
        assert(t.len() == 0);
    } else {
        let x = s.last();
        assert(s.contains(x));
        assert(s.to_multiset().count(x) > 0);
        assert(t.to_multiset().count(x) > 0);
        assert(t.contains(x));
        let j = choose|j: int| 0 <= j < t.len() && t[j] == x;
        let front = s.drop_last();
        assert(front == s.remove(s.len() - 1));
        vstd::seq_lib::to_multiset_remove(s, s.len() - 1);
        vstd::seq_lib::to_multiset_remove(t, j);
        lemma_product_of_permutation(front, t.remove(j));
        lemma_product_remove(t, j);
    }
}

/// The product of `a, 2a, ..., na` is `a^n * n!`, also modulo `p`.
proof fn lemma_product_of_multiples(a: int, p: int, n: nat)
    requires
        p > 0,
    ensures
        product(multiples(a, p, n)) % p == (pow(a, n) * product(firsts(n))) % p,
    decreases n,
{
    if n == 0 {
        lemma_pow0(a);
        assert(pow(a, 0) * product(firsts(0)) == 1);
    } else {
        let m = (n - 1) as nat;
        lemma_product_of_multiples(a, p, m);
        assert(multiples(a, p, n).drop_last() == multiples(a, p, m));
        assert(firsts(n).drop_last() == firsts(m));
        let x = product(multiples(a, p, m));
        let z = pow(a, m) * product(firsts(m));
        let y = a * n;
        assert(multiples(a, p, n).last() == y % p);
        assert(firsts(n).last() == n);
        lemma_mul_mod_noop_general(x, y % p, p);
        lemma_mod_twice(y, p);
        lemma_mul_mod_noop_general(x, y, p);
        lemma_mul_mod_noop_general(z, y, p);
        assert((x * (y % p)) % p == (z * y) % p);
        assert(pow(a, n) == a * pow(a, m)) by {
            lemma_pow1(a);
            lemma_pow_adds(a, 1, m);
        }
        assert(z * y == pow(a, n) * (product(firsts(m)) * n)) by (nonlinear_arith)
            requires
                z == pow(a, m) * product(firsts(m)),
                y == a * n,
                pow(a, n) == a * pow(a, m),
        ;
    }
}

/// For a prime `p` that does not divide `a`, the residues of
/// `a, 2a, ..., (p-1)a` are the numbers `1, ..., p-1` in some order.
proof fn lemma_multiples_permute(a: int, p: int)
    requires
        is_prime_number(p),
        a % p != 0,
    ensures
        multiples(a, p, (p - 1) as nat).to_multiset() == firsts((p - 1) as nat).to_multiset(),
{
    let n = (p - 1) as nat;
    let s = multiples(a, p, n);
    let t = firsts(n);
    assert forall|i: int| 0 <= i < n implies 1 <= #[trigger] s[i] < p by {
        lemma_mod_bound(a * (i + 1), p);
        if s[i] == 0 {
            lemma_prime_divides_factor(p, a, i + 1);
            lemma_small_mod((i + 1) as nat, p as nat);
        }
    }
    assert forall|i: int, j: int| 0 <= i < j < n implies s[i] != s[j] by {
        if s[i] == s[j] {
            lemma_mod_equivalence(a * (j + 1), a * (i + 1), p);
            assert(a * (j + 1) - a * (i + 1) == a * (j - i)) by (nonlinear_arith);
            lemma_prime_divides_factor(p, a, j - i);
            lemma_small_mod((j - i) as nat, p as nat);
        }
    }
    assert(s.no_duplicates());
    assert(t.no_duplicates());
    let range = set_int_range(1, p);
    lemma_int_range(1, p);
    s.unique_seq_to_set();
    assert(s.to_set().subset_of(range)) by {
        assert forall|v: int| s.to_set().contains(v) implies range.contains(v) by {
            let i = choose|i: int| 0 <= i < s.len() && s[i] == v;
            assert(1 <= s[i] < p);
        }
    }
    vstd::seq_lib::seq_to_set_is_finite(s);
    lemma_subset_equality(s.to_set(), range);
    s.lemma_multiset_has_no_duplicates();
    t.lemma_multiset_has_no_duplicates();
    s.to_multiset_ensures();
    t.to_multiset_ensures();
    assert forall|v: int| s.to_multiset().count(v) == t.to_multiset().count(v) by {
        if 1 <= v < p {
            assert(range.contains(v));
            assert(s.to_set().contains(v));
            assert(s.contains(v));
            assert(t[v - 1] == v);
            assert(t.contains(v));
        } else {
            if s.contains(v) {
                assert(s.to_set().contains(v));
                assert(range.contains(v));
            }
            if t.contains(v) {
                let i = choose|i: int| 0 <= i < t.len() && t[i] == v;
                assert(t[i] == i + 1);
            }
        }
    }
    assert(s.to_multiset() =~= t.to_multiset());
}

/// A prime `p` does not divide `n!` for `n < p`.
proof fn lemma_factorial_keeps_clear(p: int, n: nat)
    requires
        is_prime_number(p),
        n < p,
    ensures
        product(firsts(n)) % p != 0,
    decreases n,
{
    if n == 0 {
        lemma_small_mod(1, p as nat);
    } else {
        let m = (n - 1) as nat;
        lemma_factorial_keeps_clear(p, m);
        assert(firsts(n).drop_last() == firsts(m));
        assert(firsts(n).last() == n);
        if product(firsts(n)) % p == 0 {
            lemma_prime_divides_factor(p, product(firsts(m)), n as int);
            lemma_small_mod(n, p as nat);
        }
    }
}

/// Fermat's little theorem: `a^(p-1)` is 1 modulo a prime `p` that does not
/// divide `a`.
pub proof fn lemma_fermat_little(p: int, a: int)
    requires
        is_prime_number(p),
        a % p != 0,
    ensures
        pow(a, (p - 1) as nat) % p == 1,
{
    let n = (p - 1) as nat;
    let f = product(firsts(n));
    let e = pow(a, n);
    lemma_product_of_multiples(a, p, n);
    lemma_multiples_permute(a, p);
    lemma_product_of_permutation(multiples(a, p, n), firsts(n));
    assert((e * f) % p == f % p);
    lemma_mod_equivalence(e * f, f, p);
    assert(e * f - f == (e - 1) * f) by (nonlinear_arith);
    lemma_prime_divides_factor(p, e - 1, f);
    lemma_factorial_keeps_clear(p, n);
    lemma_mod_equivalence(e, 1, p);
    lemma_small_mod(1, p as nat);
}

} // verus!
