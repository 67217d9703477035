//! The values read from the command line, handed to the configuration builder.
use vstd::prelude::*;

use crate::config::Action;

verus! {

/// The optional settings given on the command line.
pub struct Args {
    pub data_dir: Option<String>,
    pub uri: Option<String>,
    pub user: Option<String>,
    pub password: Option<String>,
    pub file: Option<String>,
    pub out: Option<String>,
}

/// The action named on the command line, if any, and the settings given with it.
pub struct CliOptions {
    pub action: Option<Action>,
    pub args: Args,
}

} // verus!
