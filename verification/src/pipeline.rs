//! Settings of the render pipeline that drives the external encoder and
//! decoder.

use vstd::prelude::*;

use crate::text::{parse_u64, parse_u64_chars, str_chars};

verus! {

/// The wall-clock cap, in seconds, on one run of an external tool when
/// `RENDER_TIMEOUT_SECS` does not say otherwise.
pub const DEFAULT_TIMEOUT_SECS: u64 = 30;

/// The cap on one tool run, in seconds, given the value of
/// `RENDER_TIMEOUT_SECS` (`None` when unset): the value read as a `u64`,
/// or `DEFAULT_TIMEOUT_SECS` when it is unset or no such number.
pub fn timeout_secs(setting: Option<&str>) -> (r: u64)
    ensures
        r == match setting {
            Some(s) => match parse_u64(s@) {
                Some(v) => v,
                None => DEFAULT_TIMEOUT_SECS,
            },
            None => DEFAULT_TIMEOUT_SECS,
        },
{
    match setting {
        Some(s) => match parse_u64_chars(&str_chars(s)) {
            Some(v) => v,
            None => DEFAULT_TIMEOUT_SECS,
        },
        None => DEFAULT_TIMEOUT_SECS,
    }
}

} // verus!
