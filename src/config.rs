//! The canonical ceremony configuration.

use vstd::prelude::*;

verus! {

broadcast use vstd::string::to_string_from_display_ensures_for_str;

/// Number of circuits in the canonical configuration.
pub const CIRCUIT_COUNT: usize = 3;

/// Number of queue levels in the canonical configuration.
pub const LEVEL_COUNT: usize = 2;

/// The canonical configuration: the circuits `to_private`,
/// `private_transfer` and `to_public`, and two queue levels.
pub struct Config;

impl Config {
    /// The circuit names, in the order in which the coordinator holds the circuits.
    pub fn circuit_names() -> (r: Vec<String>)
        ensures
            r@.len() == CIRCUIT_COUNT,
            r@[0]@ == "to_private"@,
            r@[1]@ == "private_transfer"@,
            r@[2]@ == "to_public"@,
    {
        let mut names: Vec<String> = Vec::new();
        names.push("to_private".to_string());
        names.push("private_transfer".to_string());
        names.push("to_public".to_string());
        names
    }

    /// Number of queue levels.
    pub fn level_count() -> (r: usize)
        ensures
            r == LEVEL_COUNT,
    {
        LEVEL_COUNT
    }
}

} // verus!
