//! Authentication mechanisms.
pub mod scram;
