//! A window-switching matcher: free-text input ranks the currently open
//! windows by fuzzy textual relevance, and a later selection re-identifies
//! the chosen window by a stable numeric identifier and plans a focus
//! command for it. The ranking, the identifier codec and the selection
//! decisions are verified; fetching windows and dispatching commands are the
//! host's side of the boundary.

use vstd::prelude::*;

pub mod codec;
pub mod matcher;
pub mod model;
pub mod rank;
pub mod select;

verus! {

/// The one tunable of the library: how many ranked results a query may return.
pub struct Config {
    pub max_entries: usize,
}

pub const DEFAULT_MAX_ENTRIES: usize = 3;

impl Default for Config {
    /// When no configuration is present, at most three results are returned.
    fn default() -> (c: Config)
        ensures
            c.max_entries == DEFAULT_MAX_ENTRIES,
    {
        Config { max_entries: DEFAULT_MAX_ENTRIES }
    }
}

impl Config {
    /// A configuration source that is absent or failed to parse falls back
    /// to the default; a parsed one is taken as it is.
    pub fn from_parse(parsed: Option<Config>) -> (c: Config)
        ensures
            match parsed {
                Some(p) => c == p,
                None => c.max_entries == DEFAULT_MAX_ENTRIES,
            },
    {
        match parsed {
            Some(p) => p,
            None => Config::default(),
        }
    }
}

} // verus!
