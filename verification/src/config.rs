//! Profiles that configure a participant.
use vstd::prelude::*;

use crate::accounts::Role;

verus! {

/// Settings of one participant.
#[derive(Clone, Debug)]
pub struct Profile {
    /// Number of events that a miner puts in a block.
    pub block_size: Option<usize>,
    /// Address of the lookup service.
    pub lookup_address: Option<String>,
    /// Role of the nodes to ask the lookup service for.
    pub lookup_filter: Option<Role>,
    /// File that holds the participant's keys and identifier.
    pub user_location: Option<String>,
    /// File that holds the local copy of the chain.
    pub bc_location: Option<String>,
}

impl Profile {
    /// A profile with the given settings.
    pub fn new(
        block_size: Option<usize>,
        lookup_address: Option<String>,
        lookup_filter: Option<Role>,
        user_location: Option<String>,
        bc_location: Option<String>,
    ) -> (r: Profile)
        ensures
            r.block_size == block_size,
            r.lookup_address == lookup_address,
            r.lookup_filter == lookup_filter,
            r.user_location == user_location,
            r.bc_location == bc_location,
    {
        Profile { block_size, lookup_address, lookup_filter, user_location, bc_location }
    }
}

/// Every profile of a configuration file.
#[derive(Clone, Debug)]
pub struct Config {
    /// The profiles, chosen by position.
    pub profiles: Vec<Profile>,
}

} // verus!
