//! The source of randomness for node injection.
//!
//! The generator is handed in by the caller, so that a run can be repeated
//! from a seed. The engine draws from it twice for an injection: a ticket,
//! which the caller's lottery accepts or rejects, and the index of an inner
//! node.

use vstd::prelude::*;
use rand::Rng;
use rand::RngCore;
use rand::rngs::StdRng;

verus! {

/// The standard seedable generator of `rand`, carried as an opaque value.
#[verifier::external_type_specification]
#[verifier::external_body]
pub struct ExStdRng(rand::rngs::StdRng);

/// `rand::RngCore::next_u64` of `StdRng`: the next 64 random bits. Nothing is
/// claimed of them: any `u64` may come.
#[verifier::external_body]
fn next_u64(rng: &mut StdRng) -> (bits: u64) {
    rng.next_u64()
}

/// `rand::Rng::gen_range` of `StdRng` on the half-open range `low..high` of
/// `usize`.
///
/// Claimed of it: the value drawn is at least `low` and less than `high`.
/// Which value is drawn is left open, so two draws from one range may
/// differ. The call panics on an empty range, which the precondition rules
/// out.
#[verifier::external_body]
fn gen_range(rng: &mut StdRng, low: usize, high: usize) -> (drawn: usize)
    requires
        low < high,
    ensures
        low <= drawn < high,
{
    rng.gen_range(low..high)
}

/// Draws a ticket for the injection lottery: the next 64 bits of `rng`.
///
/// Which bits come is up to the generator, so nothing is promised of them: a
/// lottery has to take every ticket.
pub fn random_ticket(rng: &mut StdRng) -> (ticket: u64) {
    next_u64(rng)
}

/// Draws the index of an inner node of a path of `len` nodes from `rng`: any
/// index but the first and the last.
///
/// Which inner index comes is up to the generator; what is promised is that
/// it is an inner one.
pub fn random_inner_index(rng: &mut StdRng, len: usize) -> (index: usize)
    requires
        len >= 3,
    ensures
        1 <= index <= len - 2,
{
    gen_range(rng, 1, len - 1)
}

} // verus!
