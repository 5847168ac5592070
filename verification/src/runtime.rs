//! The container runtime's own state, and the settings that all of its decisions read.

use crate::probe::ProbeState;
use crate::text;
use vstd::prelude::*;
use vstd::string::*;

verus! {

/// The label that carries the identity of the cluster a container belongs to.
pub const CLUSTER_LABEL: &'static str = "rusternetes.io/cluster";

/// The label that carries the name of the pod a container belongs to.
pub const POD_LABEL: &'static str = "rusternetes.io/pod";

/// Manages a node's containers on a Docker-compatible daemon.
pub struct ContainerRuntime {
    /// The directory below which all pods keep their files.
    pub volumes_base_path: String,
    pub cluster_dns: String,
    pub cluster_domain: String,
    /// The daemon's network, which also stands for the cluster's identity.
    pub network: String,
    /// Pods get their network from CNI plugins rather than from the daemon.
    pub use_cni: bool,
    /// The daemon accepts `container:<id>` as a UTS mode.
    pub supports_uts_container_mode: bool,
    pub kubernetes_service_host: String,
    /// The counters of each probe, by `pod/container/probe`.
    pub probe_states: Vec<(String, ProbeState)>,
    /// The images that are known to be on the node.
    pub image_cache: Vec<String>,
}

impl ContainerRuntime {
    /// A runtime that has probed nothing and knows of no image.
    pub fn new(
        volumes_base_path: String,
        cluster_dns: String,
        cluster_domain: String,
        network: String,
        kubernetes_service_host: String,
        use_cni: bool,
        supports_uts_container_mode: bool,
    ) -> (r: ContainerRuntime)
        ensures
            r.volumes_base_path == volumes_base_path,
            r.cluster_dns == cluster_dns,
            r.cluster_domain == cluster_domain,
            r.network == network,
            r.kubernetes_service_host == kubernetes_service_host,
            r.use_cni == use_cni,
            r.supports_uts_container_mode == supports_uts_container_mode,
            r.probe_states@.len() == 0,
            r.image_cache@.len() == 0,
    {
        ContainerRuntime {
            volumes_base_path,
            cluster_dns,
            cluster_domain,
            network,
            use_cni,
            supports_uts_container_mode,
            kubernetes_service_host,
            probe_states: Vec::new(),
            image_cache: Vec::new(),
        }
    }

    /// The directory below which all pods keep their files.
    pub fn volumes_base_path(&self) -> (r: &str)
        ensures
            r@ == self.volumes_base_path@,
    {
        self.volumes_base_path.as_str()
    }

    /// The labels of every container that this runtime creates for a pod.
    pub fn ownership_labels(&self, pod_name: &str) -> (r: Vec<(String, String)>)
        ensures
            r@.len() == 2,
            r@[0].0@ == CLUSTER_LABEL@,
            r@[0].1@ == self.network@,
            r@[1].0@ == POD_LABEL@,
            r@[1].1@ == pod_name@,
    {
        let mut r: Vec<(String, String)> = Vec::new();
        r.push((String::from_str(CLUSTER_LABEL), self.network.clone()));
        r.push((String::from_str(POD_LABEL), String::from_str(pod_name)));
        r
    }

    /// Whether a container's labels mark it as one of this runtime's cluster.
    pub fn is_owned_by_this_cluster(&self, labels: &Option<Vec<(String, String)>>) -> (r: bool)
        ensures
            r == (crate::api::opt_lookup(*labels, CLUSTER_LABEL@) == Some(self.network@)),
    {
        match crate::api::opt_get(labels, CLUSTER_LABEL) {
            Some(v) => text::same(v, self.network.as_str()),
            None => false,
        }
    }
}

/// Containers carry labels by which the cluster that created them, and no other,
/// recognises them.
pub proof fn law_own_labels_are_recognised(
    labels: Seq<(String, String)>,
    network: Seq<char>,
    other: Seq<char>,
)
    requires
        labels.len() == 2,
        labels[0].0@ == CLUSTER_LABEL@,
        labels[0].1@ == network,
    ensures
        crate::api::lookup(labels, CLUSTER_LABEL@) == Some(network),
        (crate::api::lookup(labels, CLUSTER_LABEL@) == Some(other)) == (other == network),
{
}

} // verus!
