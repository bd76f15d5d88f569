//! The privileged configuration-update path. Authorization is enforced by
//! the caller before this is reached; the update itself is a pure state
//! transition.

use vstd::prelude::*;

use crate::types::Config;

verus! {

/// The disclosure produced by a fee-rate update: the new rate when one was
/// supplied, nothing otherwise.
#[derive(Clone, Copy, Debug, PartialEq, Eq)]
pub struct UpdateEvent {
    pub fee_rate_bps: Option<u64>,
}

/// Replaces the stored fee rate when a new one is supplied and discloses
/// it; leaves the configuration untouched when none is, still producing an
/// (empty) disclosure. No bounds are enforced here: that belongs to the
/// layer that authorizes the call.
pub fn update_fee_rate(config: &mut Config, fee_rate_bps: Option<u64>) -> (e: UpdateEvent)
    ensures
        match fee_rate_bps {
            Some(bps) => final(config).fee_rate_bps == bps,
            None => *final(config) == *old(config),
        },
        e.fee_rate_bps == fee_rate_bps,
{
    match fee_rate_bps {
        Some(bps) => {
            config.fee_rate_bps = bps;
            UpdateEvent { fee_rate_bps: Some(bps) }
        },
        None => UpdateEvent { fee_rate_bps: None },
    }
}

} // verus!
