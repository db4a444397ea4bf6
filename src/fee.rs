//! Fee-priority bridge: named urgency tiers to target block counts, and a
//! backend fee estimate per virtual byte to a fee per thousand weight units.
use vstd::prelude::*;

verus! {

/// How soon a transaction should confirm.
#[derive(PartialEq, Eq, Structural, Clone, Copy, Debug)]
pub enum ConfirmationPriority {
    Background,
    Normal,
    HighPriority,
}

pub open spec fn target_blocks_of(p: ConfirmationPriority) -> usize {
    match p {
        ConfirmationPriority::Background => 6,
        ConfirmationPriority::Normal => 3,
        ConfirmationPriority::HighPriority => 1,
    }
}

/// Number of blocks within which a transaction of this tier should confirm.
pub fn target_blocks(p: ConfirmationPriority) -> (r: usize)
    ensures
        r == target_blocks_of(p),
{
    match p {
        ConfirmationPriority::Background => 6,
        ConfirmationPriority::Normal => 3,
        ConfirmationPriority::HighPriority => 1,
    }
}

/// A thousand weight units make 250 virtual bytes.
pub const WEIGHT_FACTOR: u32 = 250;

/// The minimum relay rate, in whole units per virtual byte, used when no
/// estimate can be had.
pub const MIN_RELAY_SAT_PER_VBYTE: u32 = 1;

/// Fee per thousand weight units for an estimate in whole units per virtual
/// byte. A failed estimate falls back to the minimum relay rate of one unit
/// per virtual byte, which gives 250; a rate too large for `u32` stops at
/// `u32::MAX`.
pub fn fee_per_kw(sat_per_vbyte: Option<u32>) -> (r: u32)
    ensures
        r == match sat_per_vbyte {
            Some(s) => if s * 250 <= u32::MAX {
                (s * 250) as u32
            } else {
                u32::MAX
            },
            None => 250u32,
        },
{
    match sat_per_vbyte {
        Some(s) => {
            if s <= u32::MAX / WEIGHT_FACTOR {
                s * WEIGHT_FACTOR
            } else {
                u32::MAX
            }
        },
        None => MIN_RELAY_SAT_PER_VBYTE * WEIGHT_FACTOR,
    }
}

} // verus!
