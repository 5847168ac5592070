//! What the container daemon reports: containers in a list, a container looked at by
//! itself, and its network.

use vstd::prelude::*;

verus! {

/// One container of the daemon's list.
#[derive(Clone, Debug, Default)]
pub struct ContainerSummary {
    pub id: Option<String>,
    /// The names, each with a slash before it.
    pub names: Option<Vec<String>>,
    pub labels: Option<Vec<(String, String)>>,
    /// The network that it was created with.
    pub network_mode: Option<String>,
    /// `running`, `created`, `exited`, `dead` and the like.
    pub state: Option<String>,
    /// When it was created, in seconds since 1970-01-01.
    pub created: Option<i64>,
}

/// A container's addresses.
#[derive(Clone, Debug, Default)]
pub struct NetworkSettings {
    /// The address in each network, where it has one there, by the network's name.
    pub networks: Option<Vec<(String, Option<String>)>>,
    pub ip_address: Option<String>,
}

} // verus!
