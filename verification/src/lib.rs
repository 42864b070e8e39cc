//! Replay-protected verification of signed, time-bounded credentials.
//!
//! Two credential formats coexist: a structured, versioned token carrying
//! explicit scopes and a timestamp ([`token::AuthToken`]), and a compact
//! 96-byte raw-signature format whose freshness is implicit in a
//! time-bucketed pre-image ([`compact::AuthnSignature`]). Each verifier owns
//! a replay cache of 40-byte time-prefixed keys ([`replay::ReplayCache`])
//! that is garbage-collected by evicting every entry whose leading time word
//! has fallen more than two intervals behind the present.

pub mod client;
pub mod compact;
pub mod crypto;
pub mod replay;
pub mod timestamp;
pub mod token;
pub mod wire;

use vstd::prelude::*;

verus! {

} // verus!
