use vstd::prelude::*;

use crate::json::{json_of_bytes, parse_bytes};
use crate::value::{wf, JsonValue};
use crate::ConfigError;

verus! {

/// Parses `contents`, the bytes read from the file at `path`, as a JSON
/// document; bytes that are no JSON text give `InvalidJson` naming `path`.
pub fn load(path: String, contents: &[u8]) -> (r: Result<JsonValue, ConfigError>)
    ensures
        match json_of_bytes(contents@) {
            Some(v) => r matches Ok(d) && d == v && wf(d),
            None => r matches Err(ConfigError::InvalidJson { path: p, .. }) && p == path,
        },
{
    match parse_bytes(contents) {
        Ok(v) => Ok(v),
        Err(reason) => Err(ConfigError::InvalidJson { path, reason }),
    }
}

} // verus!
