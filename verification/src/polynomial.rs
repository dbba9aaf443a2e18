//! Polynomials over the scalar field, by their coefficients.

use crate::field::{scalar_values, Scalar};
use crate::modular::{congruent, modulus};
#[allow(unused_imports)]
use crate::modular::{
    lemma_congruent_add, lemma_congruent_mul, lemma_congruent_sub, lemma_reduced, lemma_small,
};
use rand::rngs::StdRng;
use snarkvm_algorithms::fft::DensePolynomial;
use snarkvm_curves::bls12_377::Fr;
use snarkvm_fields::PrimeField;
use snarkvm_utilities::BigInteger256;
use vstd::prelude::*;

verus! {

/// The value at `x` of the polynomial with given coefficients, the constant
/// one first.
pub open spec fn eval(p: Seq<int>, x: int) -> int
    decreases p.len(),
{
    if p.len() == 0 {
        0
    } else {
        p[0] + x * eval(p.drop_first(), x)
    }
}

/// The degree of the polynomial with given coefficients of which the last is
/// not zero. The zero polynomial counts as of degree zero.
pub open spec fn degree_of(p: Seq<int>) -> nat {
    if p.len() == 0 {
        0
    } else {
        (p.len() - 1) as nat
    }
}

/// The coefficient of the power `i`, which is zero past the last one.
pub open spec fn coefficient(p: Seq<int>, i: int) -> int {
    if 0 <= i < p.len() {
        p[i]
    } else {
        0
    }
}

/// The coefficient of the power `i` in the product of two polynomials, as far
/// as the first `n` coefficients of the second contribute to it.
pub open spec fn product_coefficient(a: Seq<int>, b: Seq<int>, i: int, n: nat) -> int
    decreases n,
{
    if n == 0 {
        0
    } else {
        product_coefficient(a, b, i, (n - 1) as nat) + coefficient(a, i - (n - 1)) * coefficient(
            b,
            n - 1,
        )
    }
}

/// Whether dividing `p` by `d` leaves the quotient `q` and the remainder `r`.
pub open spec fn divides_into(p: Seq<int>, d: Seq<int>, q: Seq<int>, r: Seq<int>) -> bool {
    &&& r.len() < d.len()
    &&& q.len() == if p.len() < d.len() {
        0
    } else {
        p.len() - d.len() + 1
    }
    &&& forall|i: int|
        congruent(
            #[trigger] coefficient(p, i),
            product_coefficient(q, d, i, d.len()) + coefficient(r, i),
        )
}

/// The quotient of `p(x) - p(z)` by `x - z`: its coefficient of the power `i`
/// is the value at `z` of what follows the power `i` in `p`.
pub open spec fn witness(p: Seq<int>, z: int) -> Seq<int> {
    Seq::new(
        if p.len() == 0 {
            0
        } else {
            (p.len() - 1) as nat
        },
        |i: int| eval(p.skip(i + 1), z) % modulus(),
    )
}

/// The coefficients up to the last one that is not zero.
pub open spec fn normalized(coeffs: Seq<int>) -> Seq<int>
    decreases coeffs.len(),
{
    if coeffs.len() == 0 || coeffs.last() != 0 {
        coeffs
    } else {
        normalized(coeffs.drop_last())
    }
}

/// A polynomial over the scalar field, held as its coefficients, the constant
/// one first.
#[derive(Debug, PartialEq, Eq)]
pub struct Polynomial {
    coeffs: Vec<Scalar>,
}

impl View for Polynomial {
    type V = Seq<int>;

    closed spec fn view(&self) -> Seq<int> {
        scalar_values(self.coeffs@)
    }
}

impl Polynomial {
    /// The last coefficient is not zero.
    #[verifier::type_invariant]
    pub open spec fn is_normalized(self) -> bool {
        self@.len() > 0 ==> self@.last() != 0
    }

    /// The zero polynomial.
    pub fn zero() -> (res: Polynomial)
        ensures
            res@ == Seq::<int>::empty(),
    {
        let coeffs: Vec<Scalar> = Vec::new();
        assert(scalar_values(coeffs@) =~= Seq::<int>::empty());
        Polynomial { coeffs }
    }

    /// The polynomial with given coefficients, of which zeros at the end are
    /// dropped.
    pub fn from_coefficients_vec(coeffs: Vec<Scalar>) -> (res: Polynomial)
        ensures
            res@ == normalized(scalar_values(coeffs@)),
    {
        let mut coeffs = coeffs;
        let ghost all = scalar_values(coeffs@);
        while coeffs.len() > 0 && coeffs[coeffs.len() - 1].is_zero()
            invariant
                normalized(scalar_values(coeffs@)) == normalized(all),
            decreases coeffs@.len(),
        {
            let ghost before = coeffs@;
            coeffs.pop();
            assert(scalar_values(coeffs@) =~= scalar_values(before).drop_last());
        }
        Polynomial { coeffs }
    }

    /// The coefficients, the constant one first.
    pub fn coeffs(&self) -> (res: &Vec<Scalar>)
        ensures
            scalar_values(res@) == self@,
            res@.len() == self@.len(),
            self.is_normalized(),
    {
        proof {
            use_type_invariant(self);
        }
        &self.coeffs
    }

    /// Whether this is the zero polynomial.
    pub fn is_zero(&self) -> (res: bool)
        ensures
            res == (self@.len() == 0),
    {
        self.coeffs.len() == 0
    }

    /// The degree, which is zero for the zero polynomial too.
    pub fn degree(&self) -> (res: usize)
        ensures
            res == degree_of(self@),
            res < usize::MAX,
    {
        if self.coeffs.len() == 0 {
            0
        } else {
            self.coeffs.len() - 1
        }
    }

    /// The value at a point.
    pub fn evaluate(&self, point: Scalar) -> (res: Scalar)
        ensures
            res@ == eval(self@, point@) % modulus(),
    {
        self.value_at(point)
    }

    /// Calls `DensePolynomial::evaluate` of `snarkvm_algorithms`: the value at
    /// a point.
    #[verifier::external_body]
    fn value_at(&self, point: Scalar) -> (res: Scalar)
        ensures
            res@ == eval(self@, point@) % modulus(),
    {
        let scalar = |s: &Scalar| Fr::from_repr(BigInteger256(s.to_repr())).unwrap();
        let p = DensePolynomial { coeffs: self.coeffs.iter().map(scalar).collect() };
        Scalar::from_repr(p.evaluate(scalar(&point)).to_repr().0).unwrap()
    }

    /// Calls `Div` of `snarkvm_algorithms::fft::DensePolynomial`: the quotient
    /// of a division with remainder, each coefficient by its least non-negative
    /// representative.
    #[verifier::external_body]
    pub(crate) fn divided_by(&self, divisor: &Polynomial) -> (res: Polynomial)
        requires
            divisor@.len() > 0,
        ensures
            exists|r: Seq<int>| divides_into(self@, divisor@, res@, r),
            forall|i: int| 0 <= i < res@.len() ==> 0 <= #[trigger] res@[i] < modulus(),
    {
        let scalar = |s: &Scalar| Fr::from_repr(BigInteger256(s.to_repr())).unwrap();
        let p: DensePolynomial<Fr> = DensePolynomial { coeffs: self.coeffs.iter().map(scalar).collect() };
        let d: DensePolynomial<Fr> = DensePolynomial { coeffs: divisor.coeffs.iter().map(scalar).collect() };
        let back = |c: &Fr| Scalar::from_repr(c.to_repr().0).unwrap();
        Polynomial { coeffs: (&p / &d).coeffs.iter().map(back).collect() }
    }

    /// Calls `DensePolynomial::rand` of `snarkvm_algorithms`: some polynomial
    /// of at most the given degree. Nothing more holds of every draw.
    #[verifier::external_body]
    pub(crate) fn rand(degree: usize, rng: &mut StdRng) -> (res: Polynomial)
        requires
            degree < usize::MAX,
        ensures
            res@.len() <= degree + 1,
    {
        let p: DensePolynomial<Fr> = DensePolynomial::rand(degree, rng);
        let back = |c: &Fr| Scalar::from_repr(c.to_repr().0).unwrap();
        Polynomial { coeffs: p.coeffs.iter().map(back).collect() }
    }
}

/// Whether drawing a polynomial of a degree from a generator may give a value,
/// and leave the generator in the state that it is in when the reference ends.
pub closed spec fn polynomial_drawn(degree: usize, rng: &mut StdRng, value: Polynomial) -> bool {
    call_ensures(Polynomial::rand, (degree, rng), value)
}

/// A polynomial is drawn exactly where a call of `Polynomial::rand` gives it.
pub(crate) proof fn law_polynomials_are_drawn(
    degree: usize,
    rng: &mut StdRng,
    value: Polynomial,
)
    ensures
        polynomial_drawn(degree, rng, value) <==> call_ensures(
            Polynomial::rand,
            (degree, rng),
            value,
        ),
{
}

/// Draws a polynomial of a degree, or less where the draw has zeros at its end.
pub(crate) fn next_polynomial(degree: usize, rng: &mut StdRng) -> (res: Polynomial)
    requires
        degree < usize::MAX,
    ensures
        exists|r: &mut StdRng|
            *r == *old(rng) && *final(r) == *final(rng) && #[trigger] polynomial_drawn(
                degree,
                r,
                res,
            ),
        res@.len() <= degree + 1,
{
    let draw = Polynomial::rand;
    let res = draw(degree, rng);
    assert(forall|r: &mut StdRng| #[trigger]
        call_ensures(Polynomial::rand, (degree, r), res) ==> polynomial_drawn(degree, r, res));
    res
}

/// Coefficients that are congruent one by one give congruent values.
pub proof fn lemma_eval_congruent(p: Seq<int>, q: Seq<int>, x: int)
    requires
        p.len() == q.len(),
        forall|i: int| 0 <= i < p.len() ==> #[trigger] congruent(p[i], q[i]),
    ensures
        congruent(eval(p, x), eval(q, x)),
    decreases p.len(),
{
    if p.len() > 0 {
        let (p1, q1) = (p.drop_first(), q.drop_first());
        assert forall|i: int| 0 <= i < p1.len() implies #[trigger] congruent(p1[i], q1[i]) by {
            assert(congruent(p[i + 1], q[i + 1]));
        }
        lemma_eval_congruent(p1, q1, x);
        lemma_congruent_mul(x, x, eval(p1, x), eval(q1, x));
        assert(congruent(p[0], q[0]));
        lemma_congruent_add(p[0], q[0], x * eval(p1, x), x * eval(q1, x));
    }
}

/// A polynomial is its witness at a point, times the distance from that point,
/// plus its value there: `p(x) = w(x) * (x - z) + p(z)`.
pub proof fn lemma_witness_identity(p: Seq<int>, z: int, x: int)
    ensures
        congruent(eval(p, x), eval(witness(p, z), x) * (x - z) + eval(p, z)),
{
    let w = witness(p, z);
    let exact = Seq::new(w.len(), |i: int| eval(p.skip(i + 1), z));
    lemma_exact_witness_identity(p, z, x);
    assert forall|i: int| 0 <= i < w.len() implies #[trigger] congruent(w[i], exact[i]) by {
        lemma_reduced(exact[i]);
    }
    lemma_eval_congruent(w, exact, x);
    lemma_congruent_mul(eval(w, x), eval(exact, x), x - z, x - z);
    lemma_congruent_add(
        eval(w, x) * (x - z),
        eval(exact, x) * (x - z),
        eval(p, z),
        eval(p, z),
    );
}

/// The identity holds of integers before their remainders are taken.
proof fn lemma_exact_witness_identity(p: Seq<int>, z: int, x: int)
    ensures
        eval(p, x) == eval(
            Seq::new(witness(p, z).len(), |i: int| eval(p.skip(i + 1), z)),
            x,
        ) * (x - z) + eval(p, z),
    decreases p.len(),
{
    let w = Seq::new(witness(p, z).len(), |i: int| eval(p.skip(i + 1), z));
    if p.len() > 0 {
        let p1 = p.drop_first();
        let w1 = Seq::new(witness(p1, z).len(), |i: int| eval(p1.skip(i + 1), z));
        lemma_exact_witness_identity(p1, z, x);
        let (a, b, c) = (eval(p1, x), eval(w1, x), eval(p1, z));
        if p1.len() == 0 {
            assert(w =~= Seq::<int>::empty());
        } else {
            assert(p.skip(1) =~= p1);
            assert forall|i: int| 0 <= i < w1.len() implies w.drop_first()[i] == w1[i] by {
                assert(p.skip(i + 2) =~= p1.skip(i + 1));
            }
            assert(w.drop_first() =~= w1);
        }
        assert(eval(w, x) == c + x * b);
        assert(p[0] + x * a == (c + x * b) * (x - z) + (p[0] + z * c)) by (nonlinear_arith)
            requires
                a == b * (x - z) + c,
        ;
    }
}

/// The quotient of a division by `x - z` is the witness at `z`.
pub(crate) proof fn lemma_quotient_is_witness(
    p: Seq<int>,
    d: Seq<int>,
    q: Seq<int>,
    r: Seq<int>,
    z: int,
)
    requires
        divides_into(p, d, q, r),
        d.len() == 2,
        congruent(d[0], -z),
        d[1] == 1,
        forall|i: int| 0 <= i < q.len() ==> 0 <= #[trigger] q[i] < modulus(),
    ensures
        q == witness(p, z),
{
    assert forall|i: int| 0 <= i < q.len() implies #[trigger] q[i] == witness(p, z)[i] by {
        lemma_quotient_coefficient(p, d, q, r, z, i);
        lemma_small(q[i]);
    }
    assert(q =~= witness(p, z));
}

proof fn lemma_quotient_coefficient(
    p: Seq<int>,
    d: Seq<int>,
    q: Seq<int>,
    r: Seq<int>,
    z: int,
    i: int,
)
    requires
        divides_into(p, d, q, r),
        d.len() == 2,
        congruent(d[0], -z),
        d[1] == 1,
        p.len() > 0,
        0 <= i <= q.len(),
    ensures
        congruent(coefficient(q, i), eval(p.skip(i + 1), z)),
    decreases q.len() - i,
{
    if i < q.len() {
        lemma_quotient_coefficient(p, d, q, r, z, i + 1);
        let next = coefficient(q, i + 1);
        let rest = eval(p.skip(i + 2), z);
        let c = coefficient(p, i + 1);
        assert(c == p[i + 1]);
        assert(product_coefficient(q, d, i + 1, 2) == next * d[0] + q[i]) by {
            reveal_with_fuel(product_coefficient, 3);
        }
        assert(congruent(c, next * d[0] + q[i]));
        lemma_congruent_mul(next, rest, d[0], -z);
        lemma_congruent_sub(next * d[0] + q[i], c, next * d[0], rest * (-z));
        assert(rest * (-z) == -(z * rest)) by (nonlinear_arith);
        assert(p.skip(i + 1).drop_first() =~= p.skip(i + 2));
        assert(eval(p.skip(i + 1), z) == p[i + 1] + z * rest);
    } else {
        assert(p.skip(i + 1) =~= Seq::<int>::empty());
    }
}

} // verus!
