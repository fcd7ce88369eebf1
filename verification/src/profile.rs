//! Named profiles: for each port the words handed to the display tool as
//! they are, and the live states that select a profile by themselves.

use crate::outputs::ConnectedOutputs;
use std::collections::HashMap;
use vstd::prelude::*;

verus! {

/// The words for each port by its label, and the words for every port
/// that is not among them.
#[derive(Clone, Debug)]
pub struct Profile {
    pub outputs: HashMap<String, String>,
    pub other_outputs: String,
}

/// The stored profiles, and the live states under which one is applied
/// without being asked for.
#[derive(Clone, Debug, Default)]
pub struct ConfigFile {
    pub autoprofiles: Vec<ConnectedOutputs>,
    pub profiles: HashMap<String, Profile>,
}

} // verus!
