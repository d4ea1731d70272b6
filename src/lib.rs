//! Integrity shell around a local script runner: the wire framing used to hand
//! a script to the co-located listener, the integrity monitor's decisions, and
//! the source-literal obfuscation transform.

pub mod framing;
pub mod monitor;
pub mod obfuscate;
