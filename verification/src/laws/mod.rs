//! What holds of the library as a whole.

pub mod backend;
pub mod decoding;
pub mod driver;
pub mod format;
pub mod framing;
pub mod login;
pub mod machine;
pub mod pgoutput;
pub mod scram;
pub mod sending;
pub mod server;
