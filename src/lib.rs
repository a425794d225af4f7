//! Session core of a BitTorrent client: piece availability bitfields, the
//! peer wire codec, the global dual token-bucket throttler, the sequential
//! piece picker, the per-peer protocol state machine, unchoke slot
//! selection and the reactor's peer/torrent bookkeeping.
use vstd::prelude::*;

pub mod bitfield;
pub mod control;
pub mod message;
pub mod peer;
pub mod picker;
pub mod throttle;
pub mod unchoke;

verus! {

} // verus!
