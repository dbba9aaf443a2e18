//! What can go wrong.

use vstd::prelude::*;

verus! {

/// Why a request was refused.
#[derive(Debug, PartialEq, Eq)]
pub enum Error {
    /// Parameters were asked for that support no polynomial of positive
    /// degree.
    DegreeIsZero,
    /// The secret point of the parameters came out as zero, which has no
    /// negative powers.
    TrapdoorIsZero,
    /// The polynomial has more coefficients than there are powers.
    TooManyCoefficients {
        /// The number of coefficients.
        num_coefficients: usize,
        /// The number of powers.
        num_powers: usize,
    },
    /// A blinding polynomial of degree zero hides nothing.
    HidingBoundIsZero,
    /// The blinding polynomial has more coefficients than there are powers.
    HidingBoundToolarge {
        /// The degree of the blinding polynomial.
        hiding_poly_degree: usize,
        /// The number of powers.
        num_powers: usize,
    },
    /// The degree bound is not among those that the parameters support.
    UnsupportedDegreeBound(usize),
    /// The degree bound lies below the degree of the polynomial, or above that
    /// of the parameters.
    IncorrectDegreeBound {
        /// The degree of the polynomial.
        poly_degree: usize,
        /// The degree bound.
        degree_bound: usize,
        /// The degree that the committer's key supports.
        supported_degree: usize,
        /// The label of the polynomial.
        label: String,
    },
    /// A hiding commitment was asked for without a source of randomness.
    MissingRng,
    /// The work was called off.
    Terminated,
}

} // verus!
