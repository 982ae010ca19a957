//! Engine configuration.
use vstd::prelude::*;
use crate::text::string_of;

verus! {

/// Where the engine keeps its databases.
#[derive(Debug, PartialEq, Clone)]
pub struct Config {
    pub data_dir: String,
}

impl Config {
    /// The default configuration: data under `/var/soupdb`. The directory
    /// itself is made by the program that runs the engine.
    pub fn new() -> (r: Config)
        ensures
            r.data_dir@ == "/var/soupdb"@,
    {
        Config { data_dir: string_of("/var/soupdb") }
    }
}

} // verus!
