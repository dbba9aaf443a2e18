//! The scheme, and which degree bounds its parameters support.

use vstd::arithmetic::power2::pow2;
#[allow(unused_imports)]
use vstd::arithmetic::power2::{lemma2_to64, lemma_pow2_unfold};
use vstd::prelude::*;

verus! {

/// Which bounds on the degree of a polynomial the parameters support.
#[derive(Debug, PartialEq, Eq)]
pub enum KZG10DegreeBoundsConfig {
    /// Every degree below the maximum.
    ALL,
    /// The sizes of the radix-2 evaluation domains, less two.
    MARLIN,
    /// The given bounds.
    LIST(Vec<usize>),
    /// None.
    NONE,
}

impl KZG10DegreeBoundsConfig {
    /// Whether a list holds the supported bounds for a maximum degree.
    pub open spec fn lists(self, max_degree: nat, list: Seq<usize>) -> bool {
        match self {
            KZG10DegreeBoundsConfig::ALL => {
                &&& list.len() == max_degree
                &&& forall|i: int| 0 <= i < list.len() ==> #[trigger] list[i] == i
            },
            KZG10DegreeBoundsConfig::MARLIN => {
                &&& forall|i: int|
                    0 <= i < list.len() ==> #[trigger] list[i] == pow2((i + 1) as nat) - 2
                        <= max_degree
                &&& pow2(list.len() + 1) - 2 > max_degree
            },
            KZG10DegreeBoundsConfig::LIST(v) => list == v@,
            KZG10DegreeBoundsConfig::NONE => list.len() == 0,
        }
    }

    /// Whether some supported bound lies below the maximum degree, so that a
    /// negative power of the secret point belongs to it.
    pub open spec fn has_shift(self, max_degree: nat) -> bool {
        match self {
            KZG10DegreeBoundsConfig::ALL => max_degree > 0,
            KZG10DegreeBoundsConfig::MARLIN => max_degree > 0,
            KZG10DegreeBoundsConfig::LIST(v) => exists|i: int|
                0 <= i < v@.len() && #[trigger] v@[i] != max_degree,
            KZG10DegreeBoundsConfig::NONE => false,
        }
    }

    /// The supported bounds for a maximum degree.
    pub fn get_list(&self, max_degree: usize) -> (list: Vec<usize>)
        requires
            self is MARLIN ==> max_degree + 2 <= usize::MAX / 2,
        ensures
            self.lists(max_degree as nat, list@),
    {
        match self {
            KZG10DegreeBoundsConfig::ALL => {
                let mut list: Vec<usize> = Vec::new();
                let mut i: usize = 0;
                while i < max_degree
                    invariant
                        i <= max_degree,
                        list@.len() == i,
                        forall|j: int| 0 <= j < list@.len() ==> #[trigger] list@[j] == j,
                    decreases max_degree - i,
                {
                    list.push(i);
                    i = i + 1;
                }
                list
            },
            KZG10DegreeBoundsConfig::MARLIN => {
                // The degree bounds are all of the form `domain_size - 2`, and
                // the domain sizes are powers of two.
                let mut radix_2_possible_domain_sizes: Vec<usize> = Vec::new();
                let mut cur: usize = 2;
                proof {
                    lemma2_to64();
                }
                while cur - 2 <= max_degree
                    invariant
                        max_degree + 2 <= usize::MAX / 2,
                        2 <= cur,
                        cur == pow2(radix_2_possible_domain_sizes@.len() + 1),
                        forall|i: int|
                            0 <= i < radix_2_possible_domain_sizes@.len()
                                ==> #[trigger] radix_2_possible_domain_sizes@[i] == pow2(
                                (i + 1) as nat,
                            ) - 2 <= max_degree,
                    decreases usize::MAX - cur,
                {
                    proof {
                        lemma_pow2_unfold(radix_2_possible_domain_sizes@.len() + 2);
                    }
                    radix_2_possible_domain_sizes.push(cur - 2);
                    cur = cur * 2;
                }
                radix_2_possible_domain_sizes
            },
            KZG10DegreeBoundsConfig::LIST(v) => {
                let list = v.clone();
                assert(list@ =~= v@);
                list
            },
            KZG10DegreeBoundsConfig::NONE => Vec::new(),
        }
    }
}

/// The commitment scheme.
#[derive(Clone, Copy, Debug)]
pub struct KZG10;

} // verus!
