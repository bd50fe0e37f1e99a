use vstd::prelude::*;

use rand::rngs::StdRng;
use rand::Rng;
use rand::SeedableRng;

verus! {

/// The 32-byte generator seed derived from the host's entropy: the entropy's
/// first bytes, zero-padded when fewer than 32 are supplied.
pub open spec fn seed_spec(entropy: Seq<u8>) -> Seq<u8> {
    Seq::new(
        32,
        |i: int|
            if i < entropy.len() {
                entropy[i]
            } else {
                0u8
            },
    )
}

/// The index the seeded generator draws below a bound: a pure function of
/// the 32 seed bytes and the bound.
pub uninterp spec fn rng_draw(seed: Seq<u8>, n: int) -> int;

/// The index the draw selects among `n` players for the given entropy.
pub open spec fn winner_index(entropy: Seq<u8>, n: int) -> int {
    rng_draw(seed_spec(entropy), n)
}

/// Builds the fixed-width generator seed from the host's entropy bytes.
pub fn build_seed(entropy: &Vec<u8>) -> (r: Vec<u8>)
    ensures
        r@ == seed_spec(entropy@),
{
    let mut r: Vec<u8> = Vec::new();
    let mut i: usize = 0;
    while i < 32
        invariant
            0 <= i <= 32,
            r@.len() == i,
            forall|j: int| 0 <= j < i ==> r@[j] == seed_spec(entropy@)[j],
        decreases 32 - i,
    {
        if i < entropy.len() {
            r.push(entropy[i]);
        } else {
            r.push(0);
        }
        i = i + 1;
    }
    proof {
        assert(r@ =~= seed_spec(entropy@));
    }
    r
}

/// Relies on rand's `StdRng::from_seed` and `Rng::gen_range`: seeded from
/// the given 32 bytes, the generator is deterministic, so the one draw in
/// `0..n` is a function of the seed bytes and the bound alone, and it lies
/// below the bound.
#[verifier::external_body]
pub(crate) fn draw_index(seed: &Vec<u8>, n: usize) -> (r: usize)
    requires
        seed@.len() == 32,
        n > 0,
    ensures
        r < n,
        r as int == rng_draw(seed@, n as int),
{
    let mut arr = [0u8; 32];
    arr.copy_from_slice(seed.as_slice());
    let mut rng = StdRng::from_seed(arr);
    rng.gen_range(0..(n as u64)) as usize
}

} // verus!
