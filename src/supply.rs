//! The fixed supply of the distributed token.
use vstd::prelude::*;

verus! {

/// Whole tokens minted when the token is created.
pub const WHOLE_TOKENS: u64 = 1_000_000_000;

/// Decimal places of the token.
pub const DECIMALS: u8 = 9;

/// `10` to the power `n`.
pub open spec fn pow10(n: nat) -> nat
    decreases n,
{
    if n == 0 {
        1
    } else {
        10 * pow10((n - 1) as nat)
    }
}

/// The amount minted when the token is created, in base units: the whole
/// tokens scaled by ten to the power of the decimal places.
pub fn initial_supply() -> (r: u64)
    ensures
        r == WHOLE_TOKENS * pow10(DECIMALS as nat),
        r == 1_000_000_000_000_000_000,
{
    let mut scale: u64 = 1;
    let mut k: u8 = 0;
    reveal_with_fuel(pow10, 10);
    while k < DECIMALS
        invariant
            k <= DECIMALS,
            scale == pow10(k as nat),
            pow10(DECIMALS as nat) == 1_000_000_000,
        decreases DECIMALS - k,
    {
        assert(pow10(k as nat) <= 100_000_000) by {
            reveal_with_fuel(pow10, 10);
        }
        scale = scale * 10;
        k += 1;
    }
    WHOLE_TOKENS * scale
}

} // verus!
