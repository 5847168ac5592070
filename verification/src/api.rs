//! The objects that the node agent reads and writes: pods with their containers,
//! volumes, probes and statuses, reduced to what its decisions depend on.
//!
//! Where the cluster API has a map, a list of pairs stands here, in an order that
//! the caller chooses.

use crate::text;
use vstd::prelude::*;
use vstd::string::*;

verus! {

/// A point in time: seconds since 1970-01-01T00:00:00Z and nanoseconds within the second.
#[derive(Clone, Copy, Debug, PartialEq, Eq, Structural)]
pub struct Timestamp {
    pub secs: i64,
    pub nanos: u32,
}

#[derive(Clone, Debug, Default)]
pub struct ObjectMeta {
    pub name: String,
    pub namespace: Option<String>,
    pub uid: String,
    pub labels: Option<Vec<(String, String)>>,
    pub annotations: Option<Vec<(String, String)>>,
}

impl ObjectMeta {
    /// Metadata that holds a name and nothing else.
    pub fn new(name: &str) -> (r: ObjectMeta)
        ensures
            r.name@ == name@,
            r.namespace is None,
            r.uid@ == Seq::<char>::empty(),
            r.labels is None,
            r.annotations is None,
    {
        ObjectMeta {
            name: String::from_str(name),
            namespace: None,
            uid: String::new(),
            labels: None,
            annotations: None,
        }
    }

    /// The same metadata in the given namespace.
    pub fn with_namespace(self, namespace: &str) -> (r: ObjectMeta)
        ensures
            r.namespace is Some,
            r.namespace->0@ == namespace@,
            r == (ObjectMeta { namespace: r.namespace, ..self }),
    {
        let mut r = self;
        r.namespace = Some(String::from_str(namespace));
        r
    }
}

#[derive(Clone, Debug, Default)]
pub struct Pod {
    pub metadata: ObjectMeta,
    pub spec: Option<PodSpec>,
    pub status: Option<PodStatus>,
}

#[derive(Clone, Debug, Default)]
pub struct PodSpec {
    pub containers: Vec<Container>,
    pub init_containers: Option<Vec<Container>>,
    pub ephemeral_containers: Option<Vec<EphemeralContainer>>,
    pub restart_policy: Option<String>,
    pub node_name: Option<String>,
    pub service_account_name: Option<String>,
    pub hostname: Option<String>,
    pub subdomain: Option<String>,
    pub host_network: Option<bool>,
    pub volumes: Option<Vec<Volume>>,
    pub dns_policy: Option<String>,
    pub dns_config: Option<PodDNSConfig>,
    pub security_context: Option<PodSecurityContext>,
    pub share_process_namespace: Option<bool>,
    pub enable_service_links: Option<bool>,
    pub termination_grace_period_seconds: Option<i64>,
    pub host_aliases: Option<Vec<HostAlias>>,
}

#[derive(Clone, Debug, Default)]
pub struct Container {
    pub name: String,
    pub image: String,
    pub image_pull_policy: Option<String>,
    pub command: Option<Vec<String>>,
    pub args: Option<Vec<String>>,
    pub ports: Option<Vec<ContainerPort>>,
    pub env: Option<Vec<EnvVar>>,
    pub env_from: Option<Vec<EnvFromSource>>,
    pub volume_mounts: Option<Vec<VolumeMount>>,
    pub liveness_probe: Option<Probe>,
    pub readiness_probe: Option<Probe>,
    pub startup_probe: Option<Probe>,
    pub resources: Option<ResourceRequirements>,
    pub working_dir: Option<String>,
    pub security_context: Option<SecurityContext>,
    pub restart_policy: Option<String>,
    pub lifecycle: Option<Lifecycle>,
    pub termination_message_path: Option<String>,
    pub termination_message_policy: Option<String>,
    pub stdin: Option<bool>,
    pub stdin_once: Option<bool>,
    pub tty: Option<bool>,
}

#[derive(Clone, Debug, Default)]
pub struct EphemeralContainer {
    pub name: String,
    pub image: String,
    pub image_pull_policy: Option<String>,
    pub command: Option<Vec<String>>,
    pub args: Option<Vec<String>>,
    pub env: Option<Vec<EnvVar>>,
    pub volume_mounts: Option<Vec<VolumeMount>>,
    pub resources: Option<ResourceRequirements>,
    pub working_dir: Option<String>,
    pub security_context: Option<SecurityContext>,
    pub target_container_name: Option<String>,
    pub termination_message_path: Option<String>,
    pub termination_message_policy: Option<String>,
    pub stdin: Option<bool>,
    pub stdin_once: Option<bool>,
    pub tty: Option<bool>,
}

#[derive(Clone, Debug, Default)]
pub struct ContainerPort {
    pub name: Option<String>,
    pub container_port: u16,
    pub host_port: Option<u16>,
    pub host_ip: Option<String>,
    pub protocol: Option<String>,
}

#[derive(Clone, Debug, Default)]
pub struct EnvVar {
    pub name: String,
    pub value: Option<String>,
    pub value_from: Option<EnvVarSource>,
}

#[derive(Clone, Debug, Default)]
pub struct EnvVarSource {
    pub config_map_key_ref: Option<KeySelector>,
    pub secret_key_ref: Option<KeySelector>,
    pub field_ref: Option<ObjectFieldSelector>,
    pub resource_field_ref: Option<ResourceFieldSelector>,
}

/// One key of a config map or a secret.
#[derive(Clone, Debug, Default)]
pub struct KeySelector {
    pub name: String,
    pub key: String,
}

#[derive(Clone, Debug, Default)]
pub struct ObjectFieldSelector {
    pub field_path: String,
}

#[derive(Clone, Debug, Default)]
pub struct ResourceFieldSelector {
    pub container_name: Option<String>,
    pub resource: String,
    pub divisor: Option<String>,
}

#[derive(Clone, Debug, Default)]
pub struct EnvFromSource {
    pub prefix: Option<String>,
    pub config_map_ref: Option<EnvSourceRef>,
    pub secret_ref: Option<EnvSourceRef>,
}

/// The config map or secret that an environment takes all keys from.
#[derive(Clone, Debug, Default)]
pub struct EnvSourceRef {
    pub name: String,
    pub optional: Option<bool>,
}

#[derive(Clone, Debug, Default)]
pub struct VolumeMount {
    pub name: String,
    pub mount_path: String,
    pub read_only: Option<bool>,
    pub sub_path: Option<String>,
    pub sub_path_expr: Option<String>,
}

#[derive(Clone, Debug, Default)]
pub struct Probe {
    pub http_get: Option<HTTPGetAction>,
    pub tcp_socket: Option<TCPSocketAction>,
    pub exec_action: Option<ExecAction>,
    pub grpc: Option<GRPCAction>,
    pub initial_delay_seconds: Option<i32>,
    pub period_seconds: Option<i32>,
    pub timeout_seconds: Option<i32>,
    pub success_threshold: Option<i32>,
    pub failure_threshold: Option<i32>,
}

/// A port by number or by name.
#[derive(Clone, Debug, PartialEq, Eq)]
pub enum IntOrString {
    Int(i32),
    Str(String),
}

#[derive(Clone, Debug)]
pub struct HTTPGetAction {
    pub path: Option<String>,
    pub port: IntOrString,
    pub host: Option<String>,
    pub scheme: Option<String>,
    pub http_headers: Option<Vec<HTTPHeader>>,
}

#[derive(Clone, Debug, Default)]
pub struct HTTPHeader {
    pub name: String,
    pub value: String,
}

#[derive(Clone, Debug)]
pub struct TCPSocketAction {
    pub port: IntOrString,
    pub host: Option<String>,
}

#[derive(Clone, Debug, Default)]
pub struct ExecAction {
    pub command: Vec<String>,
}

#[derive(Clone, Debug)]
pub struct GRPCAction {
    pub port: IntOrString,
    pub service: Option<String>,
}

#[derive(Clone, Debug, Default)]
pub struct SleepAction {
    pub seconds: i64,
}

#[derive(Clone, Debug, Default)]
pub struct LifecycleHandler {
    pub exec_action: Option<ExecAction>,
    pub http_get: Option<HTTPGetAction>,
    pub tcp_socket: Option<TCPSocketAction>,
    pub sleep: Option<SleepAction>,
}

#[derive(Clone, Debug, Default)]
pub struct Lifecycle {
    pub post_start: Option<LifecycleHandler>,
    pub pre_stop: Option<LifecycleHandler>,
}

#[derive(Clone, Debug, Default)]
pub struct ResourceRequirements {
    pub limits: Option<Vec<(String, String)>>,
    pub requests: Option<Vec<(String, String)>>,
}

#[derive(Clone, Debug, Default)]
pub struct SeccompProfile {
    pub type_: String,
    pub localhost_profile: Option<String>,
}

#[derive(Clone, Debug, Default)]
pub struct Capabilities {
    pub add: Option<Vec<String>>,
    pub drop: Option<Vec<String>>,
}

#[derive(Clone, Debug, Default)]
pub struct SecurityContext {
    pub run_as_user: Option<i64>,
    pub run_as_group: Option<i64>,
    pub allow_privilege_escalation: Option<bool>,
    pub read_only_root_filesystem: Option<bool>,
    pub privileged: Option<bool>,
    pub capabilities: Option<Capabilities>,
    pub seccomp_profile: Option<SeccompProfile>,
}

#[derive(Clone, Debug, Default)]
pub struct Sysctl {
    pub name: String,
    pub value: String,
}

#[derive(Clone, Debug, Default)]
pub struct PodSecurityContext {
    pub run_as_user: Option<i64>,
    pub run_as_group: Option<i64>,
    pub run_as_non_root: Option<bool>,
    pub fs_group: Option<i64>,
    pub sysctls: Option<Vec<Sysctl>>,
    pub seccomp_profile: Option<SeccompProfile>,
}

#[derive(Clone, Debug, Default)]
pub struct PodDNSConfigOption {
    pub name: String,
    pub value: Option<String>,
}

#[derive(Clone, Debug, Default)]
pub struct PodDNSConfig {
    pub nameservers: Option<Vec<String>>,
    pub searches: Option<Vec<String>>,
    pub options: Option<Vec<PodDNSConfigOption>>,
}

#[derive(Clone, Debug, Default)]
pub struct HostAlias {
    pub ip: String,
    pub hostnames: Option<Vec<String>>,
}

#[derive(Clone, Debug, Default)]
pub struct Volume {
    pub name: String,
    pub empty_dir: Option<EmptyDirVolumeSource>,
    pub host_path: Option<HostPathVolumeSource>,
    pub config_map: Option<ConfigMapVolumeSource>,
    pub secret: Option<SecretVolumeSource>,
    pub persistent_volume_claim: Option<PersistentVolumeClaimVolumeSource>,
    pub downward_api: Option<DownwardAPIVolumeSource>,
    pub csi: Option<CSIVolumeSource>,
    pub ephemeral: Option<EphemeralVolumeSource>,
    pub projected: Option<ProjectedVolumeSource>,
}

#[derive(Clone, Debug, Default)]
pub struct EmptyDirVolumeSource {
    pub medium: Option<String>,
}

#[derive(Clone, Debug, Default)]
pub struct HostPathVolumeSource {
    pub path: String,
    pub type_: Option<String>,
}

#[derive(Clone, Debug, Default)]
pub struct KeyToPath {
    pub key: String,
    pub path: String,
    pub mode: Option<i32>,
}

#[derive(Clone, Debug, Default)]
pub struct ConfigMapVolumeSource {
    pub name: Option<String>,
    pub items: Option<Vec<KeyToPath>>,
    pub default_mode: Option<i32>,
    pub optional: Option<bool>,
}

#[derive(Clone, Debug, Default)]
pub struct SecretVolumeSource {
    pub secret_name: Option<String>,
    pub items: Option<Vec<KeyToPath>>,
    pub default_mode: Option<i32>,
    pub optional: Option<bool>,
}

#[derive(Clone, Debug, Default)]
pub struct PersistentVolumeClaimVolumeSource {
    pub claim_name: String,
    pub read_only: Option<bool>,
}

#[derive(Clone, Debug, Default)]
pub struct DownwardAPIVolumeFile {
    pub path: String,
    pub field_ref: Option<ObjectFieldSelector>,
    pub resource_field_ref: Option<ResourceFieldSelector>,
    pub mode: Option<i32>,
}

#[derive(Clone, Debug, Default)]
pub struct DownwardAPIVolumeSource {
    pub items: Option<Vec<DownwardAPIVolumeFile>>,
    pub default_mode: Option<i32>,
}

#[derive(Clone, Debug, Default)]
pub struct CSIVolumeSource {
    pub driver: String,
}

/// What the claim of an ephemeral volume is made from.
#[derive(Clone, Debug, Default)]
pub struct PersistentVolumeClaimTemplate {
    pub metadata: Option<ObjectMeta>,
    /// What is claimed, as the API writes it.
    pub spec: String,
}

#[derive(Clone, Debug, Default)]
pub struct PersistentVolumeClaim {
    pub kind: String,
    pub api_version: String,
    pub metadata: ObjectMeta,
    /// What is claimed, as the API writes it.
    pub spec: String,
}

#[derive(Clone, Debug, Default)]
pub struct EphemeralVolumeSource {
    pub volume_claim_template: Option<PersistentVolumeClaimTemplate>,
}

#[derive(Clone, Debug, Default)]
pub struct ServiceAccountTokenProjection {
    pub audience: Option<String>,
    pub expiration_seconds: Option<i64>,
    pub path: String,
}

#[derive(Clone, Debug, Default)]
pub struct ConfigMapProjection {
    pub name: Option<String>,
    pub items: Option<Vec<KeyToPath>>,
    pub optional: Option<bool>,
}

#[derive(Clone, Debug, Default)]
pub struct SecretProjection {
    pub name: Option<String>,
    pub items: Option<Vec<KeyToPath>>,
    pub optional: Option<bool>,
}

#[derive(Clone, Debug, Default)]
pub struct DownwardAPIProjection {
    pub items: Option<Vec<DownwardAPIVolumeFile>>,
}

#[derive(Clone, Debug, Default)]
pub struct VolumeProjection {
    pub secret: Option<SecretProjection>,
    pub config_map: Option<ConfigMapProjection>,
    pub downward_api: Option<DownwardAPIProjection>,
    pub service_account_token: Option<ServiceAccountTokenProjection>,
}

#[derive(Clone, Debug, Default)]
pub struct ProjectedVolumeSource {
    pub sources: Option<Vec<VolumeProjection>>,
    pub default_mode: Option<i32>,
}

/// Where a pod stands in its life.
#[derive(Clone, Copy, Debug, PartialEq, Eq, Structural)]
pub enum Phase {
    Pending,
    Running,
    Succeeded,
    Failed,
    Unknown,
}

#[derive(Clone, Debug)]
pub enum ContainerState {
    Waiting { reason: Option<String>, message: Option<String> },
    Running { started_at: Option<Timestamp> },
    Terminated {
        exit_code: i32,
        signal: Option<i32>,
        reason: Option<String>,
        message: Option<String>,
        started_at: Option<Timestamp>,
        finished_at: Option<Timestamp>,
        container_id: Option<String>,
    },
}

#[derive(Clone, Debug, Default)]
pub struct ContainerStatus {
    pub name: String,
    pub ready: bool,
    pub restart_count: u32,
    pub state: Option<ContainerState>,
    pub last_state: Option<ContainerState>,
    pub image: Option<String>,
    pub image_id: Option<String>,
    pub container_id: Option<String>,
    pub started: Option<bool>,
    pub allocated_resources: Option<Vec<(String, String)>>,
    pub resources: Option<ResourceRequirements>,
    /// The health of the allocated resources, as the API writes it.
    pub allocated_resources_status: Option<String>,
    /// The user that the container runs as, as the API writes it.
    pub user: Option<String>,
    /// How the container's volumes are mounted, as the API writes it.
    pub volume_mounts: Option<String>,
    pub stop_signal: Option<String>,
}

#[derive(Clone, Debug, Default)]
pub struct PodCondition {
    pub condition_type: String,
    pub status: String,
    pub reason: Option<String>,
    pub message: Option<String>,
    pub last_transition_time: Option<Timestamp>,
}

#[derive(Clone, Debug, Default)]
pub struct PodStatus {
    pub phase: Option<Phase>,
    pub message: Option<String>,
    pub reason: Option<String>,
    pub host_ip: Option<String>,
    pub pod_ip: Option<String>,
    pub conditions: Option<Vec<PodCondition>>,
    pub container_statuses: Option<Vec<ContainerStatus>>,
    pub init_container_statuses: Option<Vec<ContainerStatus>>,
}

#[derive(Clone, Debug, Default)]
pub struct ServicePort {
    pub name: Option<String>,
    pub protocol: Option<String>,
    pub port: u16,
}

/// A service, as far as its environment variables depend on it.
#[derive(Clone, Debug, Default)]
pub struct Service {
    pub name: String,
    pub cluster_ip: Option<String>,
    pub ports: Vec<ServicePort>,
}

/// A config map: text and bytes by key.
#[derive(Clone, Debug, Default)]
pub struct ConfigMap {
    pub data: Option<Vec<(String, String)>>,
    pub binary_data: Option<Vec<(String, Vec<u8>)>>,
}

/// A secret: bytes by key.
#[derive(Clone, Debug, Default)]
pub struct Secret {
    pub data: Option<Vec<(String, Vec<u8>)>>,
}

/// The pod's namespace, `default` where it names none.
pub open spec fn namespace_of(pod: Pod) -> Seq<char> {
    match pod.metadata.namespace {
        Some(n) => n@,
        None => "default"@,
    }
}

/// The value of the first pair of `p` whose key is `key`.
pub open spec fn lookup(p: Seq<(String, String)>, key: Seq<char>) -> Option<Seq<char>>
    decreases p.len(),
{
    if p.len() == 0 {
        None
    } else if p[0].0@ == key {
        Some(p[0].1@)
    } else {
        lookup(p.drop_first(), key)
    }
}

/// The characters of each pair of a list.
pub open spec fn pair_texts(v: Seq<(String, String)>) -> Seq<(Seq<char>, Seq<char>)> {
    v.map_values(|p: (String, String)| (p.0@, p.1@))
}

/// The value of the first pair of `p` whose key is `key`.
pub open spec fn find(p: Seq<(Seq<char>, Seq<char>)>, key: Seq<char>) -> Option<Seq<char>>
    decreases p.len(),
{
    if p.len() == 0 {
        None
    } else if p[0].0 == key {
        Some(p[0].1)
    } else {
        find(p.drop_first(), key)
    }
}

proof fn lemma_find_is_lookup(p: Seq<(String, String)>, key: Seq<char>)
    ensures
        find(pair_texts(p), key) == lookup(p, key),
    decreases p.len(),
{
    if p.len() > 0 {
        lemma_find_is_lookup(p.drop_first(), key);
        assert(pair_texts(p).drop_first() =~= pair_texts(p.drop_first()));
    }
}

/// The value of the first pair with the key, where there is a list at all.
pub open spec fn opt_lookup(p: Option<Vec<(String, String)>>, key: Seq<char>) -> Option<Seq<char>> {
    match p {
        Some(v) => lookup(v@, key),
        None => None,
    }
}

/// The bytes of the first pair of `p` whose key is `key`.
pub open spec fn lookup_bytes(p: Seq<(String, Vec<u8>)>, key: Seq<char>) -> Option<Seq<u8>>
    decreases p.len(),
{
    if p.len() == 0 {
        None
    } else if p[0].0@ == key {
        Some(p[0].1@)
    } else {
        lookup_bytes(p.drop_first(), key)
    }
}

/// The bytes of the first pair with the key, where there is a list at all.
pub open spec fn opt_lookup_bytes(p: Option<Vec<(String, Vec<u8>)>>, key: Seq<char>) -> Option<
    Seq<u8>,
> {
    match p {
        Some(v) => lookup_bytes(v@, key),
        None => None,
    }
}

impl Pod {
    /// The pod's namespace, `default` where it names none.
    pub fn namespace(&self) -> (r: &str)
        ensures
            r@ == namespace_of(*self),
    {
        match &self.metadata.namespace {
            Some(n) => n.as_str(),
            None => "default",
        }
    }
}

/// The value of the first pair whose key is `key`.
pub fn get<'a>(p: &'a [(String, String)], key: &str) -> (r: Option<&'a str>)
    ensures
        (match r {
            Some(v) => Some(v@),
            None => None::<Seq<char>>,
        }) == lookup(p@, key@),
        lookup(p@, key@) == find(pair_texts(p@), key@),
{
    proof {
        lemma_find_is_lookup(p@, key@);
    }
    let mut i: usize = 0;
    assert(p@.skip(0) == p@);
    while i < p.len()
        invariant
            i <= p@.len(),
            lookup(p@, key@) == find(pair_texts(p@), key@),
            lookup(p@, key@) == lookup(p@.skip(i as int), key@),
        decreases p@.len() - i,
    {
        assert(p@.skip(i as int)[0] == p@[i as int]);
        assert(p@.skip(i as int).drop_first() == p@.skip(i + 1));
        if text::same(p[i].0.as_str(), key) {
            return Some(p[i].1.as_str());
        }
        i += 1;
    }
    None
}

/// The value of the first pair whose key is `key`, where there is a list at all.
pub fn opt_get<'a>(p: &'a Option<Vec<(String, String)>>, key: &str) -> (r: Option<&'a str>)
    ensures
        (match r {
            Some(v) => Some(v@),
            None => None::<Seq<char>>,
        }) == opt_lookup(*p, key@),
{
    match p {
        Some(v) => get(v, key),
        None => None,
    }
}

/// The bytes of the first pair whose key is `key`.
pub fn get_bytes<'a>(p: &'a [(String, Vec<u8>)], key: &str) -> (r: Option<&'a Vec<u8>>)
    ensures
        (match r {
            Some(v) => Some(v@),
            None => None::<Seq<u8>>,
        }) == lookup_bytes(p@, key@),
{
    let mut i: usize = 0;
    assert(p@.skip(0) == p@);
    while i < p.len()
        invariant
            i <= p@.len(),
            lookup_bytes(p@, key@) == lookup_bytes(p@.skip(i as int), key@),
        decreases p@.len() - i,
    {
        assert(p@.skip(i as int)[0] == p@[i as int]);
        assert(p@.skip(i as int).drop_first() == p@.skip(i + 1));
        if text::same(p[i].0.as_str(), key) {
            return Some(&p[i].1);
        }
        i += 1;
    }
    None
}

/// The bytes of the first pair whose key is `key`, where there is a list at all.
pub fn opt_get_bytes<'a>(p: &'a Option<Vec<(String, Vec<u8>)>>, key: &str) -> (r: Option<
    &'a Vec<u8>,
>)
    ensures
        (match r {
            Some(v) => Some(v@),
            None => None::<Seq<u8>>,
        }) == opt_lookup_bytes(*p, key@),
{
    match p {
        Some(v) => get_bytes(v, key),
        None => None,
    }
}

/// The pair at `i` is the first that has the key.
pub open spec fn first_with(p: Seq<(String, String)>, key: Seq<char>, i: int) -> bool {
    &&& 0 <= i < p.len()
    &&& p[i].0@ == key
    &&& forall|j: int| 0 <= j < i ==> (#[trigger] p[j]).0@ != key
}

/// The pair at `i` is the first that has the key.
pub open spec fn first_bytes_with(p: Seq<(String, Vec<u8>)>, key: Seq<char>, i: int) -> bool {
    &&& 0 <= i < p.len()
    &&& p[i].0@ == key
    &&& forall|j: int| 0 <= j < i ==> (#[trigger] p[j]).0@ != key
}

/// What a key stands for is what the first pair with it holds; nothing, and only then, where
/// no pair has it.
pub proof fn law_lookups_find_the_first(p: Seq<(String, String)>, key: Seq<char>)
    ensures
        forall|i: int| first_with(p, key, i) ==> lookup(p, key) == Some((#[trigger] p[i]).1@),
        lookup(p, key) is None <==> forall|i: int| 0 <= i < p.len() ==> (#[trigger] p[i]).0@ != key,
        find(pair_texts(p), key) == lookup(p, key),
    decreases p.len(),
{
    lemma_find_is_lookup(p, key);
    if p.len() > 0 {
        let rest = p.drop_first();
        law_lookups_find_the_first(rest, key);
        assert(forall|i: int| 0 <= i < rest.len() ==> (#[trigger] rest[i]) == p[i + 1]);
        assert forall|i: int| first_with(p, key, i) implies lookup(p, key) == Some(
            (#[trigger] p[i]).1@,
        ) by {
            if i > 0 {
                assert(p[0].0@ != key);
                assert(first_with(rest, key, i - 1));
                assert(rest[i - 1] == p[i]);
            }
        }
        if p[0].0@ != key {
            if forall|i: int| 0 <= i < rest.len() ==> (#[trigger] rest[i]).0@ != key {
                assert forall|i: int| 0 <= i < p.len() implies (#[trigger] p[i]).0@ != key by {
                    if i > 0 {
                        assert(rest[i - 1].0@ != key);
                    }
                }
            } else {
                let i = choose|i: int| 0 <= i < rest.len() && (#[trigger] rest[i]).0@ == key;
                assert(p[i + 1].0@ == key);
            }
        }
    }
}

/// What a key stands for is what the first pair with it holds; nothing, and only then, where
/// no pair has it.
pub proof fn law_byte_lookups_find_the_first(p: Seq<(String, Vec<u8>)>, key: Seq<char>)
    ensures
        forall|i: int|
            first_bytes_with(p, key, i) ==> lookup_bytes(p, key) == Some((#[trigger] p[i]).1@),
        lookup_bytes(p, key) is None <==> forall|i: int|
            0 <= i < p.len() ==> (#[trigger] p[i]).0@ != key,
    decreases p.len(),
{
    if p.len() > 0 {
        let rest = p.drop_first();
        law_byte_lookups_find_the_first(rest, key);
        assert(forall|i: int| 0 <= i < rest.len() ==> (#[trigger] rest[i]) == p[i + 1]);
        assert forall|i: int| first_bytes_with(p, key, i) implies lookup_bytes(p, key) == Some(
            (#[trigger] p[i]).1@,
        ) by {
            if i > 0 {
                assert(p[0].0@ != key);
                assert(first_bytes_with(rest, key, i - 1));
                assert(rest[i - 1] == p[i]);
            }
        }
        if p[0].0@ != key {
            if forall|i: int| 0 <= i < rest.len() ==> (#[trigger] rest[i]).0@ != key {
                assert forall|i: int| 0 <= i < p.len() implies (#[trigger] p[i]).0@ != key by {
                    if i > 0 {
                        assert(rest[i - 1].0@ != key);
                    }
                }
            } else {
                let i = choose|i: int| 0 <= i < rest.len() && (#[trigger] rest[i]).0@ == key;
                assert(p[i + 1].0@ == key);
            }
        }
    }
}

/// A pod without a namespace is in `default`, any other in its own.
pub proof fn law_pods_have_a_namespace(pod: Pod)
    ensures
        pod.metadata.namespace is None ==> namespace_of(pod) == "default"@,
        pod.metadata.namespace matches Some(n) ==> namespace_of(pod) == n@,
{
}

/// What is looked up in a map that there is not is not found, and in one that there is it is
/// found as the map has it.
pub proof fn law_missing_maps_hold_nothing(
    p: Option<Vec<(String, String)>>,
    b: Option<Vec<(String, Vec<u8>)>>,
    key: Seq<char>,
)
    ensures
        p is None ==> opt_lookup(p, key) is None,
        p matches Some(v) ==> opt_lookup(p, key) == lookup(v@, key),
        b is None ==> opt_lookup_bytes(b, key) is None,
        b matches Some(v) ==> opt_lookup_bytes(b, key) == lookup_bytes(v@, key),
{
}

} // verus!
