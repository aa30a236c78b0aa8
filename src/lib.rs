//! Request-processing core of a federated gateway: message envelopes and hooks,
//! the callback adapter that turns sparse hooks into a plugin, the onion
//! composition of plugins around the pipeline stages, and the fan-out of a plan
//! over named backends.
use vstd::prelude::*;

pub mod messages;
pub mod callback_plugin;
pub mod fanout;
pub mod pipeline;
pub mod queue;

verus! {

} // verus!
