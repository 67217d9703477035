//! Preset option sets.
use vstd::prelude::*;

use crate::config::ConfigBuilder;

verus! {

pub enum Options {
    Hello,
    Survey,
    Ping,
}

impl Options {
    /// A configuration builder for this option set; every preset starts from an empty one.
    pub fn to_config(&self) -> (r: ConfigBuilder)
        ensures
            r.action is None && r.data_dir is None && r.file is None && r.out is None,
    {
        ConfigBuilder::new()
    }
}

} // verus!
