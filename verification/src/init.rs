//! Random starting values for the weights of a neuron.
use vstd::prelude::*;
use crate::scalar::{one, Scalar};

verus! {

/// Draws a 64-bit word from the thread-local generator of the `rand`
/// crate, by `rand::random`. Nothing is known of the word beforehand, and
/// two draws need not agree: the contract promises nothing.
#[verifier::external_body]
fn random_word() -> u64 {
    rand::random::<u64>()
}

/// The number in the unit interval that a random word stands for: its
/// upper 53 bits, read as a whole number, times two to the power -53.
/// This is how `rand` turns a 64-bit word into a uniform floating-point
/// number of double precision.
pub open spec fn unit_of<S: Scalar>(word: u64) -> S {
    one::<S>().spec_over(S::spec_from_int(0x20_0000_0000_0000i64)).spec_times(
        S::spec_from_int((word >> 11) as i64),
    )
}

/// The weight that a random word stands for: twice its number in the unit
/// interval, minus one.
pub open spec fn weight_of<S: Scalar>(word: u64) -> S {
    unit_of::<S>(word).spec_times(S::spec_from_int(2)).spec_minus(one())
}

/// The scale for the weights of a neuron with `nin` inputs: the square
/// root of two over `nin`.
pub open spec fn scale_of<S: Scalar>(nin: i16) -> S {
    S::spec_from_int(2).spec_over(S::spec_from_int(nin as i64)).spec_sqrt()
}

/// Computes the weight that a random word stands for.
pub fn weight_from_word<S: Scalar>(word: u64) -> (r: S)
    ensures
        r == weight_of::<S>(word),
{
    let fraction: u64 = word >> 11;
    let unit = S::from_int(1).over(S::from_int(0x20_0000_0000_0000i64)).times(
        S::from_int(fraction as i64),
    );
    unit.times(S::from_int(2)).minus(S::from_int(1))
}

/// Computes the scale for the weights of a neuron with `nin` inputs.
pub fn scale_for<S: Scalar>(nin: i16) -> (r: S)
    ensures
        r == scale_of::<S>(nin),
{
    S::from_int(2).over(S::from_int(nin as i64)).sqrt()
}

/// Draws `n` random words.
pub fn random_words(n: usize) -> (r: Vec<u64>)
    ensures
        r@.len() == n,
{
    let mut words: Vec<u64> = Vec::new();
    let mut i: usize = 0;
    while i < n
        invariant
            i <= n,
            words@.len() == i,
        decreases n - i,
    {
        words.push(random_word());
        i += 1;
    }
    words
}

} // verus!
