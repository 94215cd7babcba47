//! Fixed timing tables of the three supported protocols.
//!
//! Each protocol is described by three typical pulses derived from one base
//! unit time: the leader pulse that opens every frame, and the pulses that
//! stand for a zero bit and a one bit.

use vstd::prelude::*;

use crate::units::MarkAndSpace;
use crate::units::MarkAndSpaceMicros;
use crate::units::Microseconds;

verus! {

/// Allowed deviation, in microseconds, of a measured leader pulse from the
/// table value on each component.
pub const TOLERANCE_US: u32 = 300;

/// A pulse whose space lasts at least this many microseconds (8 ms) is the
/// last pulse of its frame.
pub const THRESHOLD_FRAME_GAP_US: u32 = 8000;

/// AEHA base unit time: 440 us (measured typical value).
pub const AEHA_TIME_BASE_US: u32 = 440;

/// AEHA leader: mark 8 T, space 4 T.
pub const AEHA_LEADER_MARK_US: u32 = 8 * AEHA_TIME_BASE_US;

pub const AEHA_LEADER_SPACE_US: u32 = 4 * AEHA_TIME_BASE_US;

/// NEC base unit time: 562 us.
pub const NEC_TIME_BASE_US: u32 = 562;

/// NEC leader: mark 16 T, space 8 T.
pub const NEC_LEADER_MARK_US: u32 = 16 * NEC_TIME_BASE_US;

pub const NEC_LEADER_SPACE_US: u32 = 8 * NEC_TIME_BASE_US;

/// SIRC base unit time: 600 us.
pub const SIRC_TIME_BASE_US: u32 = 600;

/// SIRC leader: mark 4 T, space 1 T.
pub const SIRC_LEADER_MARK_US: u32 = 4 * SIRC_TIME_BASE_US;

pub const SIRC_LEADER_SPACE_US: u32 = SIRC_TIME_BASE_US;

/// The AEHA leader pulse.
pub open spec fn spec_aeha_leader() -> MarkAndSpaceMicros {
    MarkAndSpace {
        mark: Microseconds(AEHA_LEADER_MARK_US),
        space: Microseconds(AEHA_LEADER_SPACE_US),
    }
}

#[verifier::when_used_as_spec(spec_aeha_leader)]
pub fn aeha_leader() -> (r: MarkAndSpaceMicros)
    ensures
        r == spec_aeha_leader(),
{
    MarkAndSpace {
        mark: Microseconds(AEHA_LEADER_MARK_US),
        space: Microseconds(AEHA_LEADER_SPACE_US),
    }
}

/// The AEHA pulse standing for a zero bit: mark 1 T, space 1 T.
pub open spec fn spec_aeha_bit_zero() -> MarkAndSpaceMicros {
    MarkAndSpace { mark: Microseconds(AEHA_TIME_BASE_US), space: Microseconds(AEHA_TIME_BASE_US) }
}

#[verifier::when_used_as_spec(spec_aeha_bit_zero)]
pub fn aeha_bit_zero() -> (r: MarkAndSpaceMicros)
    ensures
        r == spec_aeha_bit_zero(),
{
    MarkAndSpace { mark: Microseconds(AEHA_TIME_BASE_US), space: Microseconds(AEHA_TIME_BASE_US) }
}

/// The AEHA pulse standing for a one bit: mark 1 T, space 3 T.
pub open spec fn spec_aeha_bit_one() -> MarkAndSpaceMicros {
    MarkAndSpace {
        mark: Microseconds(AEHA_TIME_BASE_US),
        space: Microseconds((3 * AEHA_TIME_BASE_US) as u32),
    }
}

#[verifier::when_used_as_spec(spec_aeha_bit_one)]
pub fn aeha_bit_one() -> (r: MarkAndSpaceMicros)
    ensures
        r == spec_aeha_bit_one(),
{
    MarkAndSpace { mark: Microseconds(AEHA_TIME_BASE_US), space: Microseconds(3 * AEHA_TIME_BASE_US) }
}

/// The NEC leader pulse.
pub open spec fn spec_nec_leader() -> MarkAndSpaceMicros {
    MarkAndSpace {
        mark: Microseconds(NEC_LEADER_MARK_US),
        space: Microseconds(NEC_LEADER_SPACE_US),
    }
}

#[verifier::when_used_as_spec(spec_nec_leader)]
pub fn nec_leader() -> (r: MarkAndSpaceMicros)
    ensures
        r == spec_nec_leader(),
{
    MarkAndSpace {
        mark: Microseconds(NEC_LEADER_MARK_US),
        space: Microseconds(NEC_LEADER_SPACE_US),
    }
}

/// The NEC pulse standing for a zero bit: mark 1 T, space 1 T.
pub open spec fn spec_nec_bit_zero() -> MarkAndSpaceMicros {
    MarkAndSpace { mark: Microseconds(NEC_TIME_BASE_US), space: Microseconds(NEC_TIME_BASE_US) }
}

#[verifier::when_used_as_spec(spec_nec_bit_zero)]
pub fn nec_bit_zero() -> (r: MarkAndSpaceMicros)
    ensures
        r == spec_nec_bit_zero(),
{
    MarkAndSpace { mark: Microseconds(NEC_TIME_BASE_US), space: Microseconds(NEC_TIME_BASE_US) }
}

/// The NEC pulse standing for a one bit: mark 1 T, space 3 T.
pub open spec fn spec_nec_bit_one() -> MarkAndSpaceMicros {
    MarkAndSpace {
        mark: Microseconds(NEC_TIME_BASE_US),
        space: Microseconds((3 * NEC_TIME_BASE_US) as u32),
    }
}

#[verifier::when_used_as_spec(spec_nec_bit_one)]
pub fn nec_bit_one() -> (r: MarkAndSpaceMicros)
    ensures
        r == spec_nec_bit_one(),
{
    MarkAndSpace { mark: Microseconds(NEC_TIME_BASE_US), space: Microseconds(3 * NEC_TIME_BASE_US) }
}

/// The SIRC leader pulse.
pub open spec fn spec_sirc_leader() -> MarkAndSpaceMicros {
    MarkAndSpace {
        mark: Microseconds(SIRC_LEADER_MARK_US),
        space: Microseconds(SIRC_LEADER_SPACE_US),
    }
}

#[verifier::when_used_as_spec(spec_sirc_leader)]
pub fn sirc_leader() -> (r: MarkAndSpaceMicros)
    ensures
        r == spec_sirc_leader(),
{
    MarkAndSpace {
        mark: Microseconds(SIRC_LEADER_MARK_US),
        space: Microseconds(SIRC_LEADER_SPACE_US),
    }
}

/// The SIRC pulse standing for a zero bit: mark 1 T, space 1 T.
pub open spec fn spec_sirc_bit_zero() -> MarkAndSpaceMicros {
    MarkAndSpace { mark: Microseconds(SIRC_TIME_BASE_US), space: Microseconds(SIRC_TIME_BASE_US) }
}

#[verifier::when_used_as_spec(spec_sirc_bit_zero)]
pub fn sirc_bit_zero() -> (r: MarkAndSpaceMicros)
    ensures
        r == spec_sirc_bit_zero(),
{
    MarkAndSpace { mark: Microseconds(SIRC_TIME_BASE_US), space: Microseconds(SIRC_TIME_BASE_US) }
}

/// The SIRC pulse standing for a one bit: mark 2 T, space 1 T.
pub open spec fn spec_sirc_bit_one() -> MarkAndSpaceMicros {
    MarkAndSpace {
        mark: Microseconds((2 * SIRC_TIME_BASE_US) as u32),
        space: Microseconds(SIRC_TIME_BASE_US),
    }
}

#[verifier::when_used_as_spec(spec_sirc_bit_one)]
pub fn sirc_bit_one() -> (r: MarkAndSpaceMicros)
    ensures
        r == spec_sirc_bit_one(),
{
    MarkAndSpace { mark: Microseconds(2 * SIRC_TIME_BASE_US), space: Microseconds(SIRC_TIME_BASE_US) }
}

/// Whether a measured leader pulse falls, on both components, inside the
/// half-open tolerance window around a table's leader pulse:
/// `[table - TOLERANCE_US, table + TOLERANCE_US)`.
pub open spec fn spec_leader_in_window(leader: MarkAndSpaceMicros, table: MarkAndSpaceMicros) -> bool {
    &&& table.mark.0 - TOLERANCE_US <= leader.mark.0 < table.mark.0 + TOLERANCE_US
    &&& table.space.0 - TOLERANCE_US <= leader.space.0 < table.space.0 + TOLERANCE_US
}

} // verus!
