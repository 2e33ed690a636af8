//! Local data-protection library: password hashing with per-call random
//! salts, and authenticated encryption of text under a passphrase-derived
//! key, together with the pure parts of the surrounding application's
//! logging (log-line formatting and log file naming).

pub mod date;
pub mod encryption;
pub mod files;
pub mod logger;
pub mod primitives;
