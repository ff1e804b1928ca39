use vstd::prelude::*;

pub mod frame;
pub mod connection;
pub mod replication;
pub mod db;
pub mod commands;

verus! {

/// The time now, in milliseconds since the Unix epoch.
///
/// Relies on `SystemTime::now` and `SystemTime::duration_since`; nothing is
/// promised of the reading. A clock set before the epoch reads as 0.
#[verifier::external_body]
pub fn get_unix_ts_millis() -> u128 {
    match std::time::SystemTime::now().duration_since(std::time::UNIX_EPOCH) {
        Ok(d) => d.as_millis(),
        Err(_) => 0,
    }
}

} // verus!
