use vstd::prelude::*;

verus! {

/// The seeds of the three noise fields of a world seeded with `seed`: height, moisture and
/// detail, from `seed`, `seed + 1` and `seed + 2`, each cut to its low 32 bits.
pub fn noise_seeds(seed: u64) -> (s: (u32, u32, u32))
    requires
        seed <= u64::MAX - 2,
    ensures
        s.0 == seed as u32,
        s.1 == (seed + 1) as u32,
        s.2 == (seed + 2) as u32,
{
    (seed as u32, (seed + 1) as u32, (seed + 2) as u32)
}

} // verus!
