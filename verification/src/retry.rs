//! Decisions of the programs around the engine: whether to try again after
//! a failed connection attempt, and which port to try after one in use.

use vstd::prelude::*;

verus! {

/// After `failed` attempts of at most `limit`: the number of failed attempts
/// to go on with, or `None` when the last one allowed has failed.
pub fn next_attempt(failed: u32, limit: u32) -> (r: Option<u32>)
    ensures
        r == if failed + 1 < limit {
            Some((failed + 1) as u32)
        } else {
            None::<u32>
        },
{
    if failed < limit && failed + 1 < limit {
        Some(failed + 1)
    } else {
        None
    }
}

/// The port to try after `port` was found in use: the next one, if there is
/// one.
pub fn next_port(port: u16) -> (r: Option<u16>)
    ensures
        r == if port < u16::MAX {
            Some((port + 1) as u16)
        } else {
            None::<u16>
        },
{
    if port < u16::MAX {
        Some(port + 1)
    } else {
        None
    }
}

} // verus!
