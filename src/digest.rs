//! The hash output: five field elements.
use crate::b_field_element::BFieldElement;
use vstd::prelude::*;

verus! {

/// The result of hashing a sequence of elements with [`Tip5`](crate::Tip5).
#[derive(Clone, Copy, Debug, PartialEq, Eq, Hash)]
pub struct Digest(pub [BFieldElement; 5]);

impl Digest {
    /// The number of elements in a digest.
    pub const LEN: usize = 5;

    /// A digest of these elements.
    pub fn new(elements: [BFieldElement; 5]) -> (r: Self)
        ensures
            r.0 == elements,
    {
        Digest(elements)
    }

    /// The elements of the digest, as a sequence.
    pub open spec fn values_spec(self) -> Seq<BFieldElement> {
        self.0@
    }

    /// The elements of the digest.
    pub fn values(self) -> (r: [BFieldElement; 5])
        ensures
            r == self.0,
            r@ == self.values_spec(),
    {
        self.0
    }
}

} // verus!
