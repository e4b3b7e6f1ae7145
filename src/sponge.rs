//! The sponge construction: absorbing blocks into a permutation state, squeezing them out.
use crate::b_field_element::{BFieldElement, EPSILON};
use vstd::prelude::*;

verus! {

/// Number of elements absorbed or squeezed at a time.
pub const RATE: usize = 10;

/// The hashing mode, which fixes how the capacity part of a fresh state is set.
#[derive(Debug, PartialEq, Eq, Structural)]
pub enum Domain {
    /// For inputs of any length, padded to whole blocks.
    VariableLength,
    /// For inputs that always fill exactly one block, such as a pair of digests.
    FixedLength,
}

/// The Montgomery words of a sequence of elements.
pub open spec fn words_of(s: Seq<BFieldElement>) -> Seq<u64> {
    s.map_values(|e: BFieldElement| e.raw())
}

/// The length of the padded form of `n` elements: the next multiple of `RATE` above `n`.
pub open spec fn padded_len(n: nat) -> nat {
    ((n + 1 + RATE - 1) / (RATE as int) * RATE) as nat
}

/// The words of `input` followed by the element `1` (whose word is `EPSILON`) and then zeros up
/// to `padded_len`.
pub open spec fn pad(input: Seq<u64>) -> Seq<u64> {
    input.push(EPSILON) + Seq::new((padded_len(input.len()) - input.len() - 1) as nat, |i: int| 0u64)
}

/// A cryptographic sponge over a permutation whose state the `words` model gives. An instance
/// may be moved between threads; each instance is used by one thread at a time.
pub trait Sponge: Sized + Send + Sync {
    /// Number of elements absorbed or squeezed at a time.
    const RATE: usize;

    /// The Montgomery words of the whole state.
    spec fn words(&self) -> Seq<u64>;

    /// The state after absorbing a block of `RATE` words into the state `w`.
    spec fn absorb_spec(w: Seq<u64>, block: Seq<u64>) -> Seq<u64>;

    /// The state after applying the permutation to the state `w`.
    spec fn permute_spec(w: Seq<u64>) -> Seq<u64>;

    /// The words of a fresh state.
    spec fn init_words() -> Seq<u64>;

    /// A fresh state for the variable-length domain.
    fn init() -> (r: Self)
        ensures
            r.words() == Self::init_words(),
    ;

    /// Overwrites the rate part with `input`, then applies the permutation.
    fn absorb(&mut self, input: [BFieldElement; RATE])
        ensures
            final(self).words() == Self::absorb_spec(old(self).words(), words_of(input@)),
    ;

    /// Returns the rate part, then applies the permutation.
    fn squeeze(&mut self) -> (r: [BFieldElement; RATE])
        ensures
            words_of(r@) == old(self).words().take(RATE as int),
            final(self).words() == Self::permute_spec(old(self).words()),
    ;

    /// The state after absorbing the words `padded`, `RATE` at a time, into the state `w`.
    spec fn absorb_padded(w: Seq<u64>, padded: Seq<u64>) -> Seq<u64>;

    /// Pads `input` with a `1` and as many `0`s as make whole blocks, and absorbs the blocks in
    /// order.
    fn pad_and_absorb_all(&mut self, input: &[BFieldElement])
        ensures
            final(self).words() == Self::absorb_padded(old(self).words(), pad(words_of(input@))),
    ;
}

/// Padding: the padded input is `input`, then one `1`, then zeros; its length is the least
/// multiple of `RATE` above the input's length, so it fills `ceil((n + 1) / RATE)` blocks and
/// adds at least one element.
pub proof fn lemma_padding(input: Seq<u64>)
    ensures
        pad(input).len() == padded_len(input.len()),
        pad(input).len() as int % (RATE as int) == 0,
        pad(input).len() as int / (RATE as int) == (input.len() + RATE) as int / (RATE as int),
        input.len() < pad(input).len() <= input.len() + RATE,
        pad(input).take(input.len() as int) == input,
        pad(input)[input.len() as int] == EPSILON,
        forall|i: int| input.len() < i < pad(input).len() ==> pad(input)[i] == 0,
{
    let n = input.len();
    assert(pad(input).take(n as int) =~= input);
}

} // verus!
