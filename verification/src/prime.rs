//! When every residue other than zero has an inverse.
//!
//! A modulus has this property if it is prime, and that is shown by an element
//! of large order: powers of it that differ leave different remainders modulo
//! each divisor, so that no divisor can be small.

use crate::modular::power;
use vstd::arithmetic::div_mod::{
    lemma_fundamental_div_mod, lemma_fundamental_div_mod_converse, lemma_mod_multiples_basic,
};
use vstd::arithmetic::power2::{lemma2_to64, lemma_pow2_unfold, pow2};
use vstd::prelude::*;
use vstd::set_lib::{lemma_int_range, lemma_len_subset, set_int_range};

verus! {

/// Whether two integers leave the same remainder.
#[verifier::opaque]
pub open spec fn same_mod(n: int, a: int, b: int) -> bool {
    (a - b) % n == 0
}

/// Whether every residue other than zero has an inverse.
#[verifier::opaque]
pub open spec fn all_invertible(n: int) -> bool {
    forall|x: int| #[trigger] (x % n) != 0 ==> exists|y: int| #[trigger] same_mod(n, x * y, 1)
}

/// How many times the modulus two integers lie apart that leave the same
/// remainder.
proof fn lemma_distance(n: int, a: int, b: int) -> (k: int)
    requires
        n > 0,
        same_mod(n, a, b),
    ensures
        a - b == n * k,
{
    reveal(same_mod);
    lemma_fundamental_div_mod(a - b, n);
    (a - b) / n
}

/// Integers that lie a multiple of the modulus apart leave the same remainder.
proof fn lemma_apart(n: int, a: int, b: int, k: int)
    requires
        n > 0,
        a - b == n * k,
    ensures
        same_mod(n, a, b),
{
    reveal(same_mod);
    lemma_mod_multiples_basic(k, n);
    assert(n * k == k * n) by (nonlinear_arith);
}

proof fn lemma_same_reflexive(n: int, a: int)
    requires
        n > 0,
    ensures
        same_mod(n, a, a),
{
    assert(n * 0 == 0);
    lemma_apart(n, a, a, 0);
}

proof fn lemma_same_symmetric(n: int, a: int, b: int)
    requires
        n > 0,
        same_mod(n, a, b),
    ensures
        same_mod(n, b, a),
{
    let k = lemma_distance(n, a, b);
    assert(n * (-k) == -(n * k)) by (nonlinear_arith);
    lemma_apart(n, b, a, -k);
}

proof fn lemma_same_transitive(n: int, a: int, b: int, c: int)
    requires
        n > 0,
        same_mod(n, a, b),
        same_mod(n, b, c),
    ensures
        same_mod(n, a, c),
{
    let k = lemma_distance(n, a, b);
    let l = lemma_distance(n, b, c);
    assert(n * (k + l) == n * k + n * l) by (nonlinear_arith);
    lemma_apart(n, a, c, k + l);
}

proof fn lemma_same_product(n: int, a: int, b: int, c: int, d: int)
    requires
        n > 0,
        same_mod(n, a, b),
        same_mod(n, c, d),
    ensures
        same_mod(n, a * c, b * d),
{
    let k = lemma_distance(n, a, b);
    let l = lemma_distance(n, c, d);
    assert(a * c - b * d == n * (a * l + d * k)) by (nonlinear_arith)
        requires
            a - b == n * k,
            c - d == n * l,
    ;
    lemma_apart(n, a * c, b * d, a * l + d * k);
}

/// What leaves the same remainder modulo a number does so modulo its divisors.
proof fn lemma_same_divisor(n: int, p: int, a: int, b: int)
    requires
        n > 0,
        p > 0,
        n % p == 0,
        same_mod(n, a, b),
    ensures
        same_mod(p, a, b),
{
    let k = lemma_distance(n, a, b);
    lemma_fundamental_div_mod(n, p);
    let m = n / p;
    assert(n * k == p * (m * k)) by (nonlinear_arith)
        requires
            n == p * m,
    ;
    lemma_apart(p, a, b, m * k);
}

proof fn lemma_power_sum(b: int, i: nat, j: nat)
    ensures
        power(b, i + j) == power(b, i) * power(b, j),
    decreases i,
{
    if i == 0 {
        assert(1 * power(b, j) == power(b, j));
    } else {
        let h = (i - 1) as nat;
        lemma_power_sum(b, h, j);
        assert((i + j - 1) as nat == h + j);
        assert(b * (power(b, h) * power(b, j)) == (b * power(b, h)) * power(b, j))
            by (nonlinear_arith);
    }
}

proof fn lemma_power_product(b: int, i: nat, j: nat)
    ensures
        power(b, i * j) == power(power(b, i), j),
    decreases j,
{
    if j == 0 {
        assert(i * 0 == 0);
    } else {
        let h = (j - 1) as nat;
        lemma_power_product(b, i, h);
        assert(i * j == i + i * h) by (nonlinear_arith)
            requires
                j == h + 1,
        ;
        lemma_power_sum(b, i, i * h);
    }
}

proof fn lemma_power_of_one(e: nat)
    ensures
        power(1, e) == 1,
    decreases e,
{
    if e > 0 {
        lemma_power_of_one((e - 1) as nat);
    }
}

proof fn lemma_same_power(n: int, a: int, b: int, e: nat)
    requires
        n > 0,
        same_mod(n, a, b),
    ensures
        same_mod(n, power(a, e), power(b, e)),
    decreases e,
{
    if e == 0 {
        lemma_same_reflexive(n, 1);
    } else {
        let h = (e - 1) as nat;
        lemma_same_power(n, a, b, h);
        lemma_same_product(n, a, b, power(a, h), power(b, h));
    }
}

/// A power that leaves the remainder one does so raised to any power.
proof fn lemma_one_stays(n: int, g: int, d: nat, k: nat)
    requires
        n > 0,
        same_mod(n, power(g, d), 1),
    ensures
        same_mod(n, power(g, d * k), 1),
{
    lemma_power_product(g, d, k);
    lemma_same_power(n, power(g, d), 1, k);
    lemma_power_of_one(k);
}

/// From the remainder of a power follows that of its square.
pub(crate) proof fn lemma_doubled(n: int, g: int, e: nat, x: int, y: int)
    requires
        n > 0,
        same_mod(n, power(g, e), x),
        (x * x - y) % n == 0,
    ensures
        same_mod(n, power(g, 2 * e), y),
{
    reveal(same_mod);
    lemma_power_sum(g, e, e);
    lemma_same_product(n, power(g, e), x, power(g, e), x);
    lemma_same_transitive(n, power(g, 2 * e), x * x, y);
}

/// From the remainder of a power follows that of the next.
pub(crate) proof fn lemma_next(n: int, g: int, e: nat, x: int, y: int)
    requires
        n > 0,
        same_mod(n, power(g, e), x),
        (g * x - y) % n == 0,
    ensures
        same_mod(n, power(g, e + 1), y),
{
    reveal(same_mod);
    assert(power(g, e + 1) == g * power(g, e));
    lemma_same_reflexive(n, g);
    lemma_same_product(n, g, g, power(g, e), x);
    lemma_same_transitive(n, power(g, e + 1), g * x, y);
}

/// Where some power below `order` is one, so is one whose exponent divides
/// `order`.
proof fn lemma_exponent_divides(p: int, g: int, order: nat, d: nat) -> (o: nat)
    requires
        p > 0,
        0 < d < order,
        same_mod(p, power(g, order), 1),
        same_mod(p, power(g, d), 1),
    ensures
        0 < o < order,
        order % o == 0,
        same_mod(p, power(g, o), 1),
    decreases d,
{
    let s = (order % d) as nat;
    let q = (order / d) as nat;
    lemma_fundamental_div_mod(order as int, d as int);
    assert(q >= 0) by (nonlinear_arith)
        requires
            order == d * (order as int / d as int) + s,
            q == order / d,
            d > 0,
    ;
    if s == 0 {
        d
    } else {
        lemma_one_stays(p, g, d, q);
        lemma_power_sum(g, d * q, s);
        lemma_same_reflexive(p, power(g, s));
        lemma_same_product(p, power(g, d * q), 1, power(g, s), power(g, s));
        lemma_same_symmetric(p, power(g, order), power(g, s));
        lemma_same_transitive(p, power(g, s), power(g, order), 1);
        lemma_exponent_divides(p, g, order, s)
    }
}

/// An element of an order leaves at least that many remainders.
proof fn lemma_order_fits(p: int, g: int, order: nat)
    requires
        p > 0,
        same_mod(p, power(g, order), 1),
        forall|d: nat| 0 < d < order ==> !#[trigger] same_mod(p, power(g, d), 1),
    ensures
        order <= p,
{
    if order > p {
        let remainders = Seq::new((p + 1) as nat, |i: int| power(g, i as nat) % p);
        assert forall|i: int, j: int| 0 <= i < j < remainders.len() implies remainders[i]
            != remainders[j] by {
            lemma_powers_differ(p, g, order, i as nat, j as nat);
        }
        remainders.unique_seq_to_set();
        lemma_int_range(0, p);
        assert forall|x: int| remainders.to_set().contains(x) implies set_int_range(
            0,
            p,
        ).contains(x) by {
            let i = choose|i: int| 0 <= i < remainders.len() && remainders[i] == x;
            assert(0 <= remainders[i] < p);
        }
        lemma_len_subset(remainders.to_set(), set_int_range(0, p));
    }
}

proof fn lemma_powers_differ(p: int, g: int, order: nat, i: nat, j: nat)
    requires
        p > 0,
        i < j < order,
        same_mod(p, power(g, order), 1),
        forall|d: nat| 0 < d < order ==> !#[trigger] same_mod(p, power(g, d), 1),
    ensures
        power(g, i) % p != power(g, j) % p,
{
    let (a, b) = (power(g, i), power(g, j));
    if a % p == b % p {
        lemma_fundamental_div_mod(a, p);
        lemma_fundamental_div_mod(b, p);
        assert(p * (b / p - a / p) == p * (b / p) - p * (a / p)) by (nonlinear_arith);
        lemma_apart(p, b, a, b / p - a / p);
        let (rest, d) = ((order - i) as nat, (j - i) as nat);
        let c = power(g, rest);
        lemma_same_reflexive(p, c);
        lemma_same_product(p, b, a, c, c);
        lemma_power_sum(g, i, rest);
        lemma_power_sum(g, j, rest);
        lemma_power_sum(g, order, d);
        assert(j + rest == order + d);
        // The power of the order and `d` is that of the order, which is one.
        lemma_same_transitive(p, power(g, order + d), power(g, order), 1);
        let e = power(g, d);
        lemma_same_reflexive(p, e);
        lemma_same_product(p, power(g, order), 1, e, e);
        lemma_same_symmetric(p, power(g, order + d), e);
        lemma_same_transitive(p, e, power(g, order + d), 1);
        assert(!same_mod(p, power(g, d), 1));
    }
}

/// A number below the modulus has an inverse, or the modulus has a divisor.
proof fn lemma_inverse_or_divisor(n: int, x: int, y: int) -> (t: int)
    requires
        n > 1,
        (x * y) % n > 0,
    ensures
        1 < t < n && n % t == 0 || exists|z: int| #[trigger] same_mod(n, x * z, 1),
    decreases (x * y) % n,
{
    let t = (x * y) % n;
    lemma_fundamental_div_mod(x * y, n);
    lemma_apart(n, x * y, t, (x * y) / n);
    if t == 1 {
        assert(same_mod(n, x * y, 1));
        t
    } else {
        let (s, q) = (n % t, n / t);
        lemma_fundamental_div_mod(n, t);
        if s == 0 {
            t
        } else {
            let z = -(y * q);
            lemma_same_reflexive(n, -q);
            lemma_same_product(n, x * y, t, -q, -q);
            assert(x * z == (x * y) * (-q)) by (nonlinear_arith)
                requires
                    z == -(y * q),
            ;
            assert(t * (-q) == s - n) by (nonlinear_arith)
                requires
                    n == t * q + s,
            ;
            assert(n * (-1) == -n);
            lemma_apart(n, s - n, s, -1);
            lemma_same_transitive(n, x * z, s - n, s);
            let k = lemma_distance(n, x * z, s);
            assert(k * n == n * k) by (nonlinear_arith);
            lemma_fundamental_div_mod_converse(x * z, n, k, s);
            lemma_inverse_or_divisor(n, x, z)
        }
    }
}

/// An element whose order exceeds the square root of the modulus, whatever
/// divisor of the modulus it is taken by, shows that all residues but zero have
/// inverses.
proof fn lemma_large_order(n: int, g: int, order: nat)
    requires
        n > 1,
        order * order > n,
        same_mod(n, power(g, order), 1),
        forall|p: int, o: nat|
            1 < p && n % p == 0 && 0 < o < order && order % o == 0 ==> !#[trigger] same_mod(
                p,
                power(g, o),
                1,
            ),
    ensures
        all_invertible(n),
{
    reveal(all_invertible);
    assert forall|x: int| #[trigger] (x % n) != 0 implies exists|y: int| #[trigger]
        same_mod(n, x * y, 1) by {
        assert(x * 1 == x);
        let t = lemma_inverse_or_divisor(n, x, 1);
        if !(exists|y: int| #[trigger] same_mod(n, x * y, 1)) {
            let p = lemma_small_divisor(n, t);
            lemma_same_divisor(n, p, power(g, order), 1);
            assert forall|d: nat| 0 < d < order implies !#[trigger] same_mod(
                p,
                power(g, d),
                1,
            ) by {
                if same_mod(p, power(g, d), 1) {
                    let o = lemma_exponent_divides(p, g, order, d);
                    assert(same_mod(p, power(g, o), 1));
                }
            }
            lemma_order_fits(p, g, order);
            assert(order * order <= p * p) by (nonlinear_arith)
                requires
                    0 <= order <= p,
            ;
        }
    }
}

/// A number with a divisor has one whose square does not exceed it.
proof fn lemma_small_divisor(n: int, t: int) -> (p: int)
    requires
        1 < t < n,
        n % t == 0,
    ensures
        1 < p,
        n % p == 0,
        p * p <= n,
{
    let q = n / t;
    lemma_fundamental_div_mod(n, t);
    if t * t <= n {
        t
    } else {
        assert(1 < q < t) by (nonlinear_arith)
            requires
                n == t * q,
                1 < t < n,
                t * t > n,
        ;
        lemma_mod_multiples_basic(t, q);
        assert(q * q <= t * q) by (nonlinear_arith)
            requires
                1 < q < t,
        ;
        q
    }
}

/// An element that leaves minus one when raised to a power of two has twice
/// that order.
proof fn lemma_two_power_order(n: int, g: int, half: nat, p: int, o: nat, e: nat)
    requires
        n > 0,
        n % 2 == 1,
        same_mod(n, power(g, half), n - 1),
        1 < p,
        n % p == 0,
        0 < o < 2 * half,
        (2 * half) % o == 0,
        half == pow2(e),
    ensures
        !same_mod(p, power(g, o), 1),
{
    if same_mod(p, power(g, o), 1) {
        let k = (2 * half / o) as nat;
        lemma_fundamental_div_mod(2 * half as int, o as int);
        assert(k > 1) by (nonlinear_arith)
            requires
                2 * half == o * k,
                0 < o < 2 * half,
        ;
        lemma_pow2_unfold(e + 1);
        if k % 2 == 1 {
            lemma_odd_divisor(o, k, e + 1);
        }
        let m = k / 2;
        assert(half == o * m) by (nonlinear_arith)
            requires
                2 * half == o * k,
                k == 2 * m,
        ;
        lemma_one_stays(p, g, o, m);
        lemma_same_divisor(n, p, power(g, half), n - 1);
        lemma_same_symmetric(p, power(g, half), 1);
        lemma_same_transitive(p, 1, power(g, half), n - 1);
        // So `p` divides both `n` and `n - 2`, and with them two.
        let a = lemma_distance(p, 1, n - 1);
        lemma_fundamental_div_mod(n, p);
        let b = n / p;
        assert(p * (a + b) == 2) by (nonlinear_arith)
            requires
                2 - n == p * a,
                n == p * b,
        ;
        assert(p == 2) by (nonlinear_arith)
            requires
                p > 1,
                p * (a + b) == 2,
        ;
    }
}

/// An odd divisor of a power of two is one.
proof fn lemma_odd_divisor(o: nat, k: nat, e: nat)
    requires
        k % 2 == 1,
        o * k == pow2(e),
    ensures
        k == 1,
    decreases e,
{
    if e == 0 {
        lemma2_to64();
        assert(k == 1) by (nonlinear_arith)
            requires
                o * k == 1,
                k >= 0,
                o >= 0,
        ;
    } else {
        lemma_pow2_unfold(e);
        let (h, j) = (o / 2, k / 2);
        let half = pow2((e - 1) as nat);
        if o % 2 == 1 {
            assert(o * k == 2 * (2 * h * j + h + j) + 1) by (nonlinear_arith)
                requires
                    o == 2 * h + 1,
                    k == 2 * j + 1,
            ;
        }
        assert(h * k == half) by (nonlinear_arith)
            requires
                o * k == 2 * half,
                o == 2 * h,
        ;
        lemma_odd_divisor(h, k, (e - 1) as nat);
    }
}

/// A proper divisor of the square of a number by which all residues but zero
/// can be divided is a divisor of that number.
proof fn lemma_divisor_of_square(u: nat, o: nat)
    requires
        u > 1,
        all_invertible(u as int),
        0 < o < u * u,
        (u * u) % o == 0,
    ensures
        u % o == 0,
{
    let n = u as int;
    let q = (u * u) / o;
    lemma_fundamental_div_mod((u * u) as int, o as int);
    assert(q > 1) by (nonlinear_arith)
        requires
            u * u == o * q,
            0 < o < u * u,
    ;
    if o % u != 0 {
        lemma_mod_multiples_basic(n, n);
        lemma_cancel(n, o as int, q as int, n * n);
        lemma_fundamental_div_mod(q as int, n);
        let c = q as int / n;
        assert(n == c * o) by (nonlinear_arith)
            requires
                n * n == o * q,
                q == n * c,
                n > 1,
        ;
        lemma_mod_multiples_basic(c, o as int);
    } else {
        lemma_fundamental_div_mod(o as int, n);
        let c = o as int / n;
        assert(n == c * q && c >= 1) by (nonlinear_arith)
            requires
                n * n == o * q,
                o == n * c,
                o > 0,
                n > 1,
        ;
        assert(q <= n) by (nonlinear_arith)
            requires
                n == c * q,
                c >= 1,
                q > 1,
        ;
        if q < n {
            lemma_fundamental_div_mod_converse(q as int, n, 0, q as int);
            assert(c * q == q * c) by (nonlinear_arith);
            lemma_cancel(n, q as int, c, n);
            lemma_fundamental_div_mod(c, n);
            let b = c / n;
            assert(false) by (nonlinear_arith)
                requires
                    n == c * q,
                    c == n * b,
                    c >= 1,
                    q > 1,
                    n > 1,
            ;
        }
        assert(c == 1) by (nonlinear_arith)
            requires
                n == c * q,
                q == n,
                n > 1,
        ;
        assert(o == u);
        lemma_mod_multiples_basic(1, n);
    }
}

/// The inverse of a residue.
pub(crate) proof fn lemma_residue_inverse(n: int, a: int) -> (y: int)
    requires
        all_invertible(n),
        a % n != 0,
    ensures
        same_mod(n, a * y, 1),
{
    reveal(all_invertible);
    choose|y: int| #[trigger] same_mod(n, a * y, 1)
}

/// What vanishes in a product with something that has an inverse vanishes.
proof fn lemma_cancel(n: int, a: int, b: int, product: int)
    requires
        n > 1,
        all_invertible(n),
        a % n != 0,
        product == a * b,
        product % n == 0,
    ensures
        b % n == 0,
{
    let y = lemma_residue_inverse(n, a);
    assert(same_mod(n, product, 0)) by {
        reveal(same_mod);
    }
    lemma_same_reflexive(n, y);
    lemma_same_reflexive(n, b);
    lemma_same_product(n, product, 0, y, y);
    lemma_same_product(n, a * y, 1, b, b);
    assert(product * y == (a * y) * b) by (nonlinear_arith)
        requires
            product == a * b,
    ;
    assert(0 * y == 0);
    assert(1 * b == b);
    lemma_same_symmetric(n, (a * y) * b, b);
    lemma_same_transitive(n, b, product * y, 0);
    reveal(same_mod);
}

/// An element of which the power `u` is `w`, and of which the power `u * u` is
/// one, has the order `u * u`, where `w` less one can be divided by.
proof fn lemma_square_order(
    n: int,
    g: int,
    u: nat,
    w: int,
    v: int,
    p: int,
    o: nat,
)
    requires
        n > 0,
        u > 1,
        all_invertible(u as int),
        same_mod(n, power(g, u), w),
        same_mod(n, (w - 1) * v, 1),
        1 < p,
        n % p == 0,
        0 < o < u * u,
        (u * u) % o == 0,
    ensures
        !same_mod(p, power(g, o), 1),
{
    if same_mod(p, power(g, o), 1) {
        lemma_divisor_of_square(u, o);
        let k = (u / o) as nat;
        lemma_fundamental_div_mod(u as int, o as int);
        assert(o * k == u);
        lemma_one_stays(p, g, o, k);
        lemma_same_divisor(n, p, power(g, u), w);
        lemma_same_divisor(n, p, (w - 1) * v, 1);
        lemma_same_symmetric(p, power(g, u), w);
        lemma_same_transitive(p, w, power(g, u), 1);
        assert(same_mod(p, w - 1, 0)) by {
            reveal(same_mod);
        }
        lemma_same_reflexive(p, v);
        lemma_same_product(p, w - 1, 0, v, v);
        assert(0 * v == 0);
        lemma_same_symmetric(p, (w - 1) * v, 0);
        lemma_same_transitive(p, 0, (w - 1) * v, 1);
        let a = lemma_distance(p, 0, 1);
        assert(false) by (nonlinear_arith)
            requires
                p > 1,
                -1 == p * a,
        ;
    }
}

/// The first power of an element is the element.
pub(crate) proof fn lemma_first_power(n: int, g: int)
    requires
        n > 0,
    ensures
        same_mod(n, power(g, 1), g),
{
    assert(power(g, 0) == 1);
    assert(power(g, 1) == g * 1);
    lemma_same_reflexive(n, g);
}

/// An element that leaves minus one when raised to a large power of two shows
/// that an odd number is prime.
pub(crate) proof fn lemma_prime_by_two_power(n: int, g: int, half: nat, e: nat)
    requires
        n > 1,
        n % 2 == 1,
        half == pow2(e),
        (2 * half) * (2 * half) > n,
        same_mod(n, power(g, half), n - 1),
    ensures
        all_invertible(n),
{
    assert((n - 1) * (n - 1) - 1 == n * (n - 2)) by (nonlinear_arith);
    lemma_apart(n, (n - 1) * (n - 1), 1, n - 2);
    reveal(same_mod);
    lemma_doubled(n, g, half, n - 1, 1);
    assert forall|p: int, o: nat|
        1 < p && n % p == 0 && 0 < o < 2 * half && (2 * half) % o == 0 implies !#[trigger] same_mod(
        p,
        power(g, o),
        1,
    ) by {
        lemma_two_power_order(n, g, half, p, o, e);
    }
    lemma_large_order(n, g, 2 * half);
}

/// An element whose order is the square of a prime shows that a number is
/// prime which that order exceeds in the square.
pub(crate) proof fn lemma_prime_by_square(n: int, g: int, u: nat, w: int, v: int)
    requires
        n > 1,
        u > 1,
        all_invertible(u as int),
        (u * u) * (u * u) > n,
        same_mod(n, power(g, u), w),
        same_mod(n, power(w, u), 1),
        ((w - 1) * v - 1) % n == 0,
    ensures
        all_invertible(n),
{
    assert(same_mod(n, (w - 1) * v, 1)) by {
        reveal(same_mod);
    }
    lemma_power_product(g, u, u);
    lemma_same_power(n, power(g, u), w, u);
    lemma_same_transitive(n, power(g, u * u), power(w, u), 1);
    assert forall|p: int, o: nat|
        1 < p && n % p == 0 && 0 < o < u * u && (u * u) % o == 0 implies !#[trigger] same_mod(
        p,
        power(g, o),
        1,
    ) by {
        lemma_square_order(n, g, u, w, v, p, o);
    }
    lemma_large_order(n, g, u * u);
}

} // verus!
