use vstd::prelude::*;

verus! {

/// Declared geometry values are fixed-point numbers with this many steps per unit
/// (`150` stands for `1.5`).
pub const STEPS: u32 = 100;

/// How declared geometry values turn into pixels; fixed for a whole render call.
#[derive(Clone, Copy, Debug, PartialEq, Eq, Structural)]
pub enum UnitPolicy {
    /// A value is a percentage of the parent's extent.
    Percent,
    /// A value is a length in units of `scale` pixels.
    Literal { scale: u32 },
}

/// A declared value resolved against `extent`, in hundredths of a pixel.
pub open spec fn fine_spec(value: nat, extent: nat, policy: UnitPolicy) -> nat {
    match policy {
        UnitPolicy::Percent => extent * value / 100,
        UnitPolicy::Literal { scale } => value * (scale as nat),
    }
}

/// A declared value resolved against `extent`, in whole pixels (rounded down).
pub open spec fn resolve_spec(value: nat, extent: nat, policy: UnitPolicy) -> nat {
    fine_spec(value, extent, policy) / 100
}

/// The largest pixel coordinate or extent; larger results are clamped to it.
pub open spec fn clamp_coord(v: int) -> nat {
    if v < 0 {
        0
    } else if v > u32::MAX {
        u32::MAX as nat
    } else {
        v as nat
    }
}

proof fn lemma_product_fits(a: u32, b: u32)
    ensures
        a as nat * b as nat <= u64::MAX,
{
    assert(a as nat * b as nat <= u32::MAX as nat * u32::MAX as nat) by (nonlinear_arith);
}

/// Resolves `value` against `extent` in hundredths of a pixel.
pub fn resolve_fine(value: u32, extent: u32, policy: UnitPolicy) -> (r: u64)
    ensures
        r == fine_spec(value as nat, extent as nat, policy),
{
    match policy {
        UnitPolicy::Percent => {
            proof {
                lemma_product_fits(extent, value);
            }
            (extent as u64) * (value as u64) / 100
        },
        UnitPolicy::Literal { scale } => {
            proof {
                lemma_product_fits(value, scale);
            }
            (value as u64) * (scale as u64)
        },
    }
}

/// Resolves `value` against `extent` in whole pixels.
pub fn resolve(value: u32, extent: u32, policy: UnitPolicy) -> (r: u64)
    ensures
        r == resolve_spec(value as nat, extent as nat, policy),
        r <= u64::MAX / 100,
{
    let f = resolve_fine(value, extent, policy);
    f / 100
}

/// Clamps a signed pixel quantity into the coordinate range.
pub fn clamp_to_coord(v: i128) -> (r: u32)
    ensures
        r == clamp_coord(v as int),
{
    if v < 0 {
        0
    } else if v > u32::MAX as i128 {
        u32::MAX
    } else {
        v as u32
    }
}

} // verus!
