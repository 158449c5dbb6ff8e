//! Timeline reconstruction and actuator assignment for a bank of strikers.
//!
//! A recorded performance arrives as tracks of tick-delta events. The library
//! rebuilds absolute time per track, extracts track metadata, filters repeated
//! onsets, matches onsets against the machines authorized to play them, and
//! multiplexes each machine's onset stream across its actuator pool with
//! round-robin load balancing, re-deriving each actuator's own inter-onset
//! delay.
//!
//! Time is kept exact: every timestamp is an integer numerator over one
//! document-wide denominator (see [`timeline::time_denominator`]), so callers
//! can convert to seconds without the library ever rounding.

pub mod assign;
pub mod director_data;
pub mod events;
pub mod laws;
pub mod process;
pub mod scene;
pub mod text;
pub mod timeline;

use vstd::prelude::*;

verus! {

} // verus!
