use vstd::prelude::*;

use rand::seq::SliceRandom;
use rand::Rng;

use crate::cards::Card;

verus! {

/// Calls `rand::seq::SliceRandom::shuffle` with the thread-local generator.
/// The rand source permutes the slice by swaps (Fisher-Yates), so the cards
/// and their number stay the same; which order comes out is left open.
#[verifier::external_body]
pub(crate) fn shuffle_cards(cards: &mut Vec<Card>)
    ensures
        final(cards)@.len() == old(cards)@.len(),
        final(cards)@.to_multiset() == old(cards)@.to_multiset(),
{
    cards.as_mut_slice().shuffle(&mut rand::rng());
}

/// An ASCII letter or digit, as a byte.
pub open spec fn is_alphanumeric_byte(b: u8) -> bool {
    (65 <= b <= 90) || (97 <= b <= 122) || (48 <= b <= 57)
}

/// Calls `rand::Rng::sample` with `rand_distr::Alphanumeric` (rand's
/// `distr::Alphanumeric`) on the thread-local generator. The rand source
/// returns a byte of the table `A-Z a-z 0-9`; which one is left open.
#[verifier::external_body]
pub(crate) fn random_alphanumeric() -> (b: u8)
    ensures
        is_alphanumeric_byte(b),
{
    rand::rng().sample(rand_distr::Alphanumeric)
}

/// Calls `rand::Rng::random_range(0..bound)` on the thread-local generator.
/// rand documents the result to lie in the range and panics on an empty
/// range, which `bound > 0` excludes; which value comes is left open.
#[verifier::external_body]
pub(crate) fn random_below(bound: usize) -> (r: usize)
    requires
        bound > 0,
    ensures
        r < bound,
{
    rand::rng().random_range(0..bound)
}

/// Calls `String::push`, which std documents to append the character.
#[verifier::external_body]
pub(crate) fn push_char(s: &mut String, c: char)
    ensures
        final(s)@ == old(s)@.push(c),
{
    s.push(c);
}

} // verus!
