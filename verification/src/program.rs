//! The pipeline as a capability set: retrieving state, building the site,
//! and writing it out. The surrounding application implements it with its
//! HTTP client and template engine; the library supplies the verified
//! stages they are built from.

use vstd::prelude::*;
use crate::config::Config;
use crate::site::Site;
use crate::state::State;

verus! {

/// One full run of the aggregator, stage by stage.
pub trait Program {
    /// Loads, filters and assembles the configured sources.
    fn get_state(&self, config: Config) -> Result<State, String>;

    /// Renders the site models of a state.
    fn make_site(&self, state: State) -> Result<Site, String>;

    /// Writes the rendered site to the output directory.
    fn write_site(&self, site: Site) -> Result<(), String>;
}

} // verus!
