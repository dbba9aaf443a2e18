//! Enforcing degree bounds.

use crate::data_structures::LabeledPolynomial;
use crate::error::Error;
use crate::kzg10::KZG10;
use crate::polynomial::degree_of;
use vstd::prelude::*;

verus! {

/// Whether a list is in ascending order.
pub open spec fn ascending(list: Seq<usize>) -> bool {
    forall|i: int, j: int| 0 <= i <= j < list.len() ==> list[i] <= list[j]
}

/// Whether the result of a search in an ascending list is a position of the
/// value or, where the list does not hold it, the position where it belongs.
pub open spec fn finds(list: Seq<usize>, value: usize, res: Result<usize, usize>) -> bool {
    match res {
        Ok(i) => i < list.len() && list[i as int] == value,
        Err(i) => {
            &&& i <= list.len()
            &&& forall|j: int| 0 <= j < i ==> #[trigger] list[j] < value
            &&& forall|j: int| i <= j < list.len() ==> #[trigger] list[j] > value
        },
    }
}

/// Whether an answer is the right one for a labeled polynomial, given whether
/// its degree bound is among those that are enforced.
pub open spec fn decides_bound(
    res: Result<(), Error>,
    supported_degree: usize,
    max_degree: usize,
    enforced: bool,
    p: LabeledPolynomial,
) -> bool {
    let degree = degree_of(p.spec_polynomial()@);
    match p.spec_degree_bound() {
        None => res is Ok,
        Some(bound) => if !enforced {
            res == Err::<(), Error>(Error::UnsupportedDegreeBound(bound))
        } else if bound < degree || bound > max_degree {
            res matches Err(
                Error::IncorrectDegreeBound {
                    poly_degree,
                    degree_bound,
                    supported_degree: supported,
                    label,
                },
            ) && poly_degree == degree && degree_bound == bound && supported == supported_degree
                && label@ == p.spec_label()
        } else {
            res is Ok
        },
    }
}

impl KZG10 {
    /// Checks that the degree bound of a polynomial, where it has one, is among
    /// the enforced ones and lies between its degree and the maximum degree.
    /// The enforced bounds are searched as an ascending list; in any other
    /// list, a bound may be missed or found.
    pub fn check_degrees_and_bounds(
        supported_degree: usize,
        max_degree: usize,
        enforced_degree_bounds: Option<&[usize]>,
        p: &LabeledPolynomial,
    ) -> (res: Result<(), Error>)
        ensures
            enforced_degree_bounds is None ==> decides_bound(
                res,
                supported_degree,
                max_degree,
                false,
                *p,
            ),
            enforced_degree_bounds matches Some(list) ==> exists|enforced: bool|
                {
                    &&& ascending(list@) && p.spec_degree_bound() is Some ==> enforced
                        == list@.contains(p.spec_degree_bound()->0)
                    &&& #[trigger] decides_bound(res, supported_degree, max_degree, enforced, *p)
                },
    {
        let enforced = match (p.degree_bound(), enforced_degree_bounds) {
            (Some(bound), Some(list)) => {
                let found = binary_search(list, bound);
                match found {
                    Ok(_) => true,
                    Err(_) => false,
                }
            },
            _ => false,
        };
        Self::check_degree_bound(supported_degree, max_degree, enforced, p)
    }

    /// Checks the degree bound of a polynomial, given whether it is among the
    /// enforced ones.
    pub fn check_degree_bound(
        supported_degree: usize,
        max_degree: usize,
        enforced: bool,
        p: &LabeledPolynomial,
    ) -> (res: Result<(), Error>)
        ensures
            decides_bound(res, supported_degree, max_degree, enforced, *p),
    {
        match p.degree_bound() {
            None => Ok(()),
            Some(bound) => if !enforced {
                Err(Error::UnsupportedDegreeBound(bound))
            } else if bound < p.degree() || bound > max_degree {
                Err(
                    Error::IncorrectDegreeBound {
                        poly_degree: p.degree(),
                        degree_bound: bound,
                        supported_degree,
                        label: p.label().clone(),
                    },
                )
            } else {
                Ok(())
            },
        }
    }
}

/// Calls `slice::binary_search` of the standard library. Its result is
/// specified for lists in ascending order only.
#[verifier::external_body]
fn binary_search(list: &[usize], value: usize) -> (res: Result<usize, usize>)
    ensures
        ascending(list@) ==> finds(list@, value, res),
{
    list.binary_search(&value)
}

} // verus!
