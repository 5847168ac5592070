//! Starting pods: the order of the steps, the token volume that every pod gets, and what
//! is reported on the way.

use crate::api;
use crate::api::{
    ConfigMapProjection, Container, ContainerState, ContainerStatus, DownwardAPIProjection,
    DownwardAPIVolumeFile, KeyToPath, ObjectFieldSelector, Phase, Pod, PodCondition, PodStatus,
    ProjectedVolumeSource, ServiceAccountTokenProjection, Timestamp, Volume, VolumeMount,
    VolumeProjection,
};
use crate::container::copy_text;
use crate::number;
use crate::runtime::ContainerRuntime;
use crate::status;
use crate::text;
use crate::token;
use vstd::prelude::*;
use vstd::string::*;

verus! {

/// What is done next while a pod is started.
#[derive(Clone, Copy, Debug, PartialEq, Eq, Structural)]
pub enum StartAsk {
    /// Find out whether the pod runs already.
    Running,
    /// Remove what is left of containers that ended.
    RemoveOld,
    /// Let plugins set up the network.
    Network,
    /// Put the token volume into the pod as it is stored.
    StoreTokenVolume,
    /// Make the volumes.
    Volumes,
    /// Find out the pod's address: from the plugins, or by starting the container that
    /// holds its network.
    Address,
    /// Write the hosts file.
    HostsFile,
    /// Have all images on the node.
    Images,
    /// Report that the pod is being initialised.
    ReportInit(usize),
    /// Start the init container at the position, for the given time over.
    StartInit(usize, u32),
    /// Find out the pod's address, and write it to the hosts file.
    AddressAfterInit(usize, u32),
    /// Report that the init container runs.
    ReportRunning(usize, u32),
    /// Wait until the init container has ended.
    WaitForInit(usize, u32),
    /// Report that the init container has succeeded.
    ReportDone(usize),
    /// Report that the init container has failed.
    ReportFailed(usize, u32),
    /// Remove the init container, to start it over.
    RemoveInit(usize, u32),
    /// Report that the init container will be started over.
    ReportRetry(usize, u32),
    /// Wait until it is time to start the init container over.
    Sleep(usize, u32),
    /// Start the sidecar at the position of the init containers.
    StartSidecar(usize),
    /// Find out the pod's address, and write it to the hosts file.
    AddressAfterSidecar(usize),
    /// Start the application container at the position.
    StartMain(usize),
    /// Find out the pod's address, and write it to the hosts file.
    AddressAfterMain(usize),
    /// See whether all containers have ended already, and report that.
    Settle,
    /// Nothing any more: the pod has been started, or was running.
    Done,
    /// Nothing any more: the pod could not be started.
    Failed,
}

/// How it went.
#[derive(Clone, Copy, Debug, PartialEq, Eq, Structural)]
pub enum StartAnswer {
    /// It is so, or was done.
    Yes,
    /// It is not so.
    No,
    /// It could not be done.
    Error,
}

/// How far the start of a pod has come.
#[derive(Clone, Copy, Debug, PartialEq, Eq, Structural)]
pub struct StartState {
    pub ask: StartAsk,
    /// The pod's address is known.
    pub has_ip: bool,
}

/// How often a pod's failed init container is started over.
pub open spec fn retries(pod: Pod) -> u32 {
    if status::restart_policy_of(pod) == "Always"@ {
        3
    } else {
        0
    }
}

/// How many seconds pass before an init container is started over for the given time:
/// twice as many each time, up to thirty.
pub open spec fn backoff_of(attempt: u32) -> u64 {
    if attempt == 0 {
        1
    } else if attempt == 1 {
        2
    } else if attempt == 2 {
        4
    } else if attempt == 3 {
        8
    } else if attempt == 4 {
        16
    } else {
        30
    }
}

/// What is done after the init containers before position `i`.
pub open spec fn from_init(pod: Pod, i: nat) -> StartAsk
    decreases status::inits_of(pod).len() - i,
{
    let cs = status::inits_of(pod);
    if i >= cs.len() {
        from_sidecar(pod, 0)
    } else if status::is_sidecar(cs[i as int]) {
        from_init(pod, i + 1)
    } else {
        StartAsk::ReportInit(i as usize)
    }
}

/// What is done after the sidecars before position `i`.
pub open spec fn from_sidecar(pod: Pod, i: nat) -> StartAsk
    decreases status::inits_of(pod).len() - i,
{
    let cs = status::inits_of(pod);
    if i >= cs.len() {
        from_main(pod, 0)
    } else if status::is_sidecar(cs[i as int]) {
        StartAsk::StartSidecar(i as usize)
    } else {
        from_sidecar(pod, i + 1)
    }
}

/// What is done after the application containers before position `i`.
pub open spec fn from_main(pod: Pod, i: nat) -> StartAsk {
    if i < pod.spec->0.containers@.len() {
        StartAsk::StartMain(i as usize)
    } else if status::restart_policy_of(pod) == "Never"@ {
        StartAsk::Settle
    } else {
        StartAsk::Done
    }
}

/// What is done once the network is set up.
pub open spec fn from_network(pod: Pod) -> StartAsk {
    if has_token_volume(pod) {
        StartAsk::Volumes
    } else {
        StartAsk::StoreTokenVolume
    }
}

/// What is done after a container was started, for which `resolve` finds out the address.
pub open spec fn after_start(
    has_ip: bool,
    answer: StartAnswer,
    resolve: StartAsk,
    next: StartAsk,
) -> StartAsk {
    if answer == StartAnswer::Error {
        StartAsk::Failed
    } else if has_ip {
        next
    } else {
        resolve
    }
}

/// What is done next, given how what was done went.
pub open spec fn start_next(pod: Pod, use_cni: bool, s: StartState, answer: StartAnswer) -> StartState {
    let error = answer == StartAnswer::Error;
    let found = s.has_ip || answer == StartAnswer::Yes;
    match s.ask {
        StartAsk::Running => StartState {
            ask: if answer == StartAnswer::Yes {
                StartAsk::Done
            } else {
                StartAsk::RemoveOld
            },
            has_ip: s.has_ip,
        },
        StartAsk::RemoveOld => StartState {
            ask: if use_cni {
                StartAsk::Network
            } else {
                from_network(pod)
            },
            has_ip: s.has_ip,
        },
        StartAsk::Network => StartState { ask: from_network(pod), has_ip: s.has_ip },
        StartAsk::StoreTokenVolume => StartState { ask: StartAsk::Volumes, has_ip: s.has_ip },
        StartAsk::Volumes => StartState {
            ask: if error {
                StartAsk::Failed
            } else {
                StartAsk::Address
            },
            has_ip: s.has_ip,
        },
        StartAsk::Address => StartState { ask: StartAsk::HostsFile, has_ip: found },
        StartAsk::HostsFile => StartState {
            ask: if error {
                StartAsk::Failed
            } else {
                StartAsk::Images
            },
            has_ip: s.has_ip,
        },
        StartAsk::Images => StartState {
            ask: if error {
                StartAsk::Failed
            } else {
                from_init(pod, 0)
            },
            has_ip: s.has_ip,
        },
        StartAsk::ReportInit(i) => StartState { ask: StartAsk::StartInit(i, 0), has_ip: s.has_ip },
        StartAsk::StartInit(i, a) => StartState {
            ask: after_start(
                s.has_ip,
                answer,
                StartAsk::AddressAfterInit(i, a),
                StartAsk::ReportRunning(i, a),
            ),
            has_ip: s.has_ip,
        },
        StartAsk::AddressAfterInit(i, a) => StartState {
            ask: if error {
                StartAsk::Failed
            } else {
                StartAsk::ReportRunning(i, a)
            },
            has_ip: found,
        },
        StartAsk::ReportRunning(i, a) => StartState {
            ask: StartAsk::WaitForInit(i, a),
            has_ip: s.has_ip,
        },
        StartAsk::WaitForInit(i, a) => StartState {
            ask: if answer == StartAnswer::Yes {
                StartAsk::ReportDone(i)
            } else {
                StartAsk::ReportFailed(i, a)
            },
            has_ip: s.has_ip,
        },
        StartAsk::ReportDone(i) => StartState {
            ask: from_init(pod, (i + 1) as nat),
            has_ip: s.has_ip,
        },
        StartAsk::ReportFailed(i, a) => StartState {
            ask: if a < retries(pod) {
                StartAsk::RemoveInit(i, (a + 1) as u32)
            } else {
                StartAsk::Failed
            },
            has_ip: s.has_ip,
        },
        StartAsk::RemoveInit(i, a) => StartState {
            ask: StartAsk::ReportRetry(i, a),
            has_ip: s.has_ip,
        },
        StartAsk::ReportRetry(i, a) => StartState { ask: StartAsk::Sleep(i, a), has_ip: s.has_ip },
        StartAsk::Sleep(i, a) => StartState { ask: StartAsk::StartInit(i, a), has_ip: s.has_ip },
        StartAsk::StartSidecar(i) => StartState {
            ask: after_start(
                s.has_ip,
                answer,
                StartAsk::AddressAfterSidecar(i),
                from_sidecar(pod, (i + 1) as nat),
            ),
            has_ip: s.has_ip,
        },
        StartAsk::AddressAfterSidecar(i) => StartState {
            ask: if error {
                StartAsk::Failed
            } else {
                from_sidecar(pod, (i + 1) as nat)
            },
            has_ip: found,
        },
        StartAsk::StartMain(i) => StartState {
            ask: after_start(
                s.has_ip,
                answer,
                StartAsk::AddressAfterMain(i),
                from_main(pod, (i + 1) as nat),
            ),
            has_ip: s.has_ip,
        },
        StartAsk::AddressAfterMain(i) => StartState {
            ask: if error {
                StartAsk::Failed
            } else {
                from_main(pod, (i + 1) as nat)
            },
            has_ip: found,
        },
        StartAsk::Settle => StartState { ask: StartAsk::Done, has_ip: s.has_ip },
        StartAsk::Done => s,
        StartAsk::Failed => s,
    }
}

/// The position is one of the pod's containers.
pub open spec fn ask_fits(pod: Pod, ask: StartAsk) -> bool {
    match ask {
        StartAsk::ReportInit(i)
        | StartAsk::StartInit(i, _)
        | StartAsk::AddressAfterInit(i, _)
        | StartAsk::ReportRunning(i, _)
        | StartAsk::WaitForInit(i, _)
        | StartAsk::ReportDone(i)
        | StartAsk::ReportFailed(i, _)
        | StartAsk::RemoveInit(i, _)
        | StartAsk::ReportRetry(i, _)
        | StartAsk::Sleep(i, _)
        | StartAsk::StartSidecar(i)
        | StartAsk::AddressAfterSidecar(i) => i < status::inits_of(pod).len(),
        StartAsk::StartMain(i) | StartAsk::AddressAfterMain(i) => i
            < pod.spec->0.containers@.len(),
        _ => true,
    }
}

proof fn lemma_from_sidecar_fits(pod: Pod, i: nat)
    requires
        pod.spec is Some,
        status::inits_of(pod).len() <= usize::MAX,
        pod.spec->0.containers@.len() <= usize::MAX,
    ensures
        ask_fits(pod, from_sidecar(pod, i)),
        from_sidecar(pod, i) !is ReportInit,
    decreases status::inits_of(pod).len() - i,
{
    if i < status::inits_of(pod).len() && !status::is_sidecar(status::inits_of(pod)[i as int]) {
        lemma_from_sidecar_fits(pod, i + 1);
    }
}

proof fn lemma_from_init_fits(pod: Pod, i: nat)
    requires
        pod.spec is Some,
        status::inits_of(pod).len() <= usize::MAX,
        pod.spec->0.containers@.len() <= usize::MAX,
    ensures
        ask_fits(pod, from_init(pod, i)),
        from_init(pod, i) matches StartAsk::ReportInit(k) ==> k >= i && !status::is_sidecar(
            status::inits_of(pod)[k as int],
        ) && forall|j: int|
            i <= j < k ==> status::is_sidecar(#[trigger] status::inits_of(pod)[j]),
        from_init(pod, i) !is ReportInit ==> forall|j: int|
            i <= j < status::inits_of(pod).len() ==> status::is_sidecar(
                #[trigger] status::inits_of(pod)[j],
            ),
    decreases status::inits_of(pod).len() - i,
{
    if i >= status::inits_of(pod).len() {
        lemma_from_sidecar_fits(pod, 0);
    } else if status::is_sidecar(status::inits_of(pod)[i as int]) {
        lemma_from_init_fits(pod, i + 1);
    }
}

/// How many application containers may still be started, with what follows each.
pub open spec fn mains_left(pod: Pod, i: int) -> int {
    2 * (pod.spec->0.containers@.len() - i)
}

/// More than all that is done about the application containers of a pod.
pub open spec fn mains_bound(pod: Pod) -> int {
    mains_left(pod, 0) + 3
}

/// More than all that is done about the sidecars of a pod and what follows them.
pub open spec fn sidecars_bound(pod: Pod) -> int {
    mains_bound(pod) + 2 * status::inits_of(pod).len() + 3
}

/// More than all that is done about the init containers of a pod and what follows them.
pub open spec fn inits_bound(pod: Pod) -> int {
    sidecars_bound(pod) + 34 * status::inits_of(pod).len() + 34
}

/// How much is left to be done after `done` of what belongs to the init container at `i`,
/// which is started over for the `a`-th time.
pub open spec fn init_left(pod: Pod, i: int, a: u32, done: int) -> int {
    let over: int = if a <= 3 {
        3 - a
    } else {
        0
    };
    sidecars_bound(pod) + 34 * (status::inits_of(pod).len() - i) + 8 * over + done
}

/// How much is left to be done to start a pod.
pub open spec fn steps_left(pod: Pod, ask: StartAsk) -> int {
    let m = status::inits_of(pod).len();
    match ask {
        StartAsk::Running => inits_bound(pod) + 7,
        StartAsk::RemoveOld => inits_bound(pod) + 6,
        StartAsk::Network => inits_bound(pod) + 5,
        StartAsk::StoreTokenVolume => inits_bound(pod) + 4,
        StartAsk::Volumes => inits_bound(pod) + 3,
        StartAsk::Address => inits_bound(pod) + 2,
        StartAsk::HostsFile => inits_bound(pod) + 1,
        StartAsk::Images => inits_bound(pod),
        StartAsk::ReportInit(i) => init_left(pod, i as int, 0, 9),
        StartAsk::RemoveInit(i, a) => init_left(pod, i as int, a, 8),
        StartAsk::ReportRetry(i, a) => init_left(pod, i as int, a, 7),
        StartAsk::Sleep(i, a) => init_left(pod, i as int, a, 6),
        StartAsk::StartInit(i, a) => init_left(pod, i as int, a, 5),
        StartAsk::AddressAfterInit(i, a) => init_left(pod, i as int, a, 4),
        StartAsk::ReportRunning(i, a) => init_left(pod, i as int, a, 3),
        StartAsk::WaitForInit(i, a) => init_left(pod, i as int, a, 2),
        StartAsk::ReportFailed(i, a) => init_left(pod, i as int, a, 1),
        StartAsk::ReportDone(i) => init_left(pod, i as int, 3, 1),
        StartAsk::StartSidecar(i) => mains_bound(pod) + 2 * (m - i) + 2,
        StartAsk::AddressAfterSidecar(i) => mains_bound(pod) + 2 * (m - i) + 1,
        StartAsk::StartMain(i) => mains_left(pod, i as int) + 2,
        StartAsk::AddressAfterMain(i) => mains_left(pod, i as int) + 1,
        StartAsk::Settle => 1,
        StartAsk::Done | StartAsk::Failed => 0,
    }
}

proof fn lemma_sidecars_left(pod: Pod, i: nat)
    requires
        i <= status::inits_of(pod).len() <= usize::MAX,
    ensures
        0 <= steps_left(pod, from_sidecar(pod, i)) <= mains_bound(pod) + 2 * (status::inits_of(
            pod,
        ).len() - i) + 2,
    decreases status::inits_of(pod).len() - i,
{
    if i < status::inits_of(pod).len() {
        lemma_sidecars_left(pod, i + 1);
    }
}

proof fn lemma_inits_left(pod: Pod, i: nat)
    requires
        i <= status::inits_of(pod).len() <= usize::MAX,
    ensures
        0 <= steps_left(pod, from_init(pod, i)) <= sidecars_bound(pod) + 34 * (status::inits_of(
            pod,
        ).len() - i) + 33,
    decreases status::inits_of(pod).len() - i,
{
    if i < status::inits_of(pod).len() {
        lemma_inits_left(pod, i + 1);
    } else {
        lemma_sidecars_left(pod, 0);
    }
}

/// Starting a pod comes to an end, however its steps go.
pub proof fn law_starting_a_pod_ends(pod: Pod, use_cni: bool, s: StartState, answer: StartAnswer)
    requires
        pod.spec is Some,
        status::inits_of(pod).len() <= usize::MAX,
        pod.spec->0.containers@.len() <= usize::MAX,
        ask_fits(pod, s.ask),
    ensures
        s.ask == StartAsk::Done || s.ask == StartAsk::Failed ==> start_next(
            pod,
            use_cni,
            s,
            answer,
        ) == s,
        s.ask != StartAsk::Done && s.ask != StartAsk::Failed ==> 0 <= steps_left(
            pod,
            start_next(pod, use_cni, s, answer).ask,
        ) < steps_left(pod, s.ask),
{
    match s.ask {
        StartAsk::Images => lemma_inits_left(pod, 0),
        StartAsk::ReportDone(i) => lemma_inits_left(pod, (i + 1) as nat),
        StartAsk::StartSidecar(i) => lemma_sidecars_left(pod, (i + 1) as nat),
        StartAsk::AddressAfterSidecar(i) => lemma_sidecars_left(pod, (i + 1) as nat),
        _ => {},
    }
}

/// An init container that does not succeed is never passed over: after it fails it is
/// started over, or the pod is not started at all. One that succeeds is followed by the
/// next that is no sidecar; and nothing else is started while one is left.
pub proof fn law_init_containers_come_first(
    pod: Pod,
    use_cni: bool,
    has_ip: bool,
    i: usize,
    a: u32,
    answer: StartAnswer,
)
    requires
        pod.spec is Some,
        status::inits_of(pod).len() <= usize::MAX,
        pod.spec->0.containers@.len() <= usize::MAX,
        i < status::inits_of(pod).len(),
    ensures
        answer != StartAnswer::Yes ==> start_next(
            pod,
            use_cni,
            StartState { ask: StartAsk::WaitForInit(i, a), has_ip },
            answer,
        ).ask == StartAsk::ReportFailed(i, a),
        start_next(
            pod,
            use_cni,
            StartState { ask: StartAsk::ReportFailed(i, a), has_ip },
            answer,
        ).ask == (if a < retries(pod) {
            StartAsk::RemoveInit(i, (a + 1) as u32)
        } else {
            StartAsk::Failed
        }),
        ({
            let next = start_next(
                pod,
                use_cni,
                StartState { ask: StartAsk::ReportDone(i), has_ip },
                answer,
            ).ask;
            &&& next matches StartAsk::ReportInit(k) ==> k > i && forall|j: int|
                i < j < k ==> status::is_sidecar(#[trigger] status::inits_of(pod)[j])
            &&& next !is ReportInit ==> forall|j: int|
                i < j < status::inits_of(pod).len() ==> status::is_sidecar(
                    #[trigger] status::inits_of(pod)[j],
                )
        }),
{
    lemma_from_init_fits(pod, (i + 1) as nat);
}

/// The name is that of a token volume.
pub open spec fn is_token_name(name: Seq<char>) -> bool {
    text::has(name, "kube-api-access"@)
}

/// One of the volumes is a token volume.
pub open spec fn token_volume_in(vs: Option<Vec<Volume>>) -> bool {
    vs matches Some(v) && exists|i: int|
        0 <= i < v@.len() && is_token_name((#[trigger] v@[i]).name@)
}

/// The pod has a token volume, or no specification.
pub open spec fn has_token_volume(pod: Pod) -> bool {
    pod.spec matches Some(s) ==> token_volume_in(s.volumes)
}

/// One of the mounts is that of a token volume.
pub open spec fn token_mount_in(ms: Seq<VolumeMount>) -> bool {
    exists|i: int| 0 <= i < ms.len() && is_token_name((#[trigger] ms[i]).name@)
}

/// The source projects the token, for an hour.
pub open spec fn projects_token(p: VolumeProjection) -> bool {
    &&& p.service_account_token matches Some(t)
    &&& t.path@ == "token"@
    &&& t.expiration_seconds == Some(3600i64)
    &&& t.audience is None
    &&& p.config_map is None
    &&& p.secret is None
    &&& p.downward_api is None
}

/// The source projects the pod's namespace.
pub open spec fn projects_namespace(p: VolumeProjection) -> bool {
    &&& p.service_account_token is None
    &&& p.config_map is None
    &&& p.secret is None
    &&& p.downward_api matches Some(d)
    &&& d.items matches Some(it)
    &&& it@.len() == 1
    &&& it@[0].path@ == "namespace"@
    &&& it@[0].field_ref matches Some(f)
    &&& f.field_path@ == "metadata.namespace"@
    &&& it@[0].resource_field_ref is None
    &&& it@[0].mode is None
}

/// The source projects the cluster's CA certificate, where the namespace has it.
pub open spec fn projects_ca(p: VolumeProjection) -> bool {
    &&& p.service_account_token is None
    &&& p.secret is None
    &&& p.downward_api is None
    &&& p.config_map matches Some(c)
    &&& text::opt_text(c.name) == Some("kube-root-ca.crt"@)
    &&& c.optional == Some(true)
    &&& c.items matches Some(it)
    &&& it@.len() == 1
    &&& it@[0].key@ == "ca.crt"@
    &&& it@[0].path@ == "ca.crt"@
    &&& it@[0].mode is None
}

/// The volume is the one that a pod gets: it projects a token, the namespace and the CA
/// certificate, and is nothing else.
pub open spec fn is_token_volume(v: Volume) -> bool {
    &&& v.name@ == "kube-api-access"@
    &&& v.empty_dir is None
    &&& v.host_path is None
    &&& v.config_map is None
    &&& v.secret is None
    &&& v.persistent_volume_claim is None
    &&& v.downward_api is None
    &&& v.csi is None
    &&& v.ephemeral is None
    &&& v.projected matches Some(p)
    &&& p.default_mode == Some(0o644i32)
    &&& p.sources matches Some(s)
    &&& s@.len() == 3
    &&& projects_token(s@[0])
    &&& projects_namespace(s@[1])
    &&& projects_ca(s@[2])
}

/// The mount puts the token volume where containers look for it.
pub open spec fn is_token_mount(m: VolumeMount) -> bool {
    &&& m.name@ == "kube-api-access"@
    &&& m.mount_path@ == token::SA_TOKEN_MOUNT_DESTINATION@
    &&& m.read_only == Some(true)
    &&& m.sub_path is None
    &&& m.sub_path_expr is None
}

/// The mounts of a container.
pub open spec fn mounts_of(c: Container) -> Seq<VolumeMount> {
    match c.volume_mounts {
        Some(v) => v@,
        None => Seq::empty(),
    }
}

/// The container is the same but for its mounts, to which one of the token volume has
/// been added unless it had one.
pub open spec fn gained_mount(a: Container, b: Container) -> bool {
    &&& b.volume_mounts is Some
    &&& b == (Container { volume_mounts: b.volume_mounts, ..a })
    &&& if token_mount_in(mounts_of(a)) {
        mounts_of(b) == mounts_of(a)
    } else {
        &&& mounts_of(b).len() == mounts_of(a).len() + 1
        &&& mounts_of(b).drop_last() == mounts_of(a)
        &&& is_token_mount(mounts_of(b).last())
    }
}

/// The pod has gained a token volume, and each of its application containers a mount of
/// it; all else is the same.
pub open spec fn gained_token_volume(a: Pod, b: Pod) -> bool {
    &&& b == (Pod { spec: b.spec, ..a })
    &&& a.spec is Some && b.spec is Some
    &&& b.spec->0 == (api::PodSpec {
        volumes: b.spec->0.volumes,
        containers: b.spec->0.containers,
        ..a.spec->0
    })
    &&& b.spec->0.volumes is Some
    &&& ({
        let before = match a.spec->0.volumes {
            Some(v) => v@,
            None => Seq::empty(),
        };
        let after = b.spec->0.volumes->0@;
        &&& after.len() == before.len() + 1
        &&& after.drop_last() == before
        &&& is_token_volume(after.last())
    })
    &&& b.spec->0.containers@.len() == a.spec->0.containers@.len()
    &&& forall|i: int|
        0 <= i < b.spec->0.containers@.len() ==> gained_mount(
            a.spec->0.containers@[i],
            #[trigger] b.spec->0.containers@[i],
        )
}

/// A pod that has gained a token volume gains no second one.
pub proof fn law_a_token_volume_is_given_once(a: Pod, b: Pod)
    requires
        gained_token_volume(a, b),
    ensures
        has_token_volume(b),
{
    let vs = b.spec->0.volumes->0@;
    let name = vs.last().name@;
    assert(vs[vs.len() - 1] == vs.last());
    assert(is_token_name(name)) by {
        assert(name == "kube-api-access"@);
        assert(name.subrange(0, name.len() as int) == name);
        assert(text::occurs_at(name, "kube-api-access"@, 0));
    }
}

/// Whether one of the volumes is a token volume.
fn has_token(vs: &Option<Vec<Volume>>) -> (r: bool)
    ensures
        r == token_volume_in(*vs),
{
    if let Some(v) = vs {
        let mut i: usize = 0;
        while i < v.len()
            invariant
                i <= v@.len(),
                *vs == Some(*v),
                forall|j: int| 0 <= j < i ==> !is_token_name((#[trigger] v@[j]).name@),
            decreases v@.len() - i,
        {
            if text::contains(v[i].name.as_str(), "kube-api-access") {
                let ghost all = vs->0@;
                assert(is_token_name(all[i as int].name@));
                return true;
            }
            i += 1;
        }
    }
    false
}

/// The volume that a pod gets.
pub fn token_volume() -> (r: Volume)
    ensures
        is_token_volume(r),
{
    let mut items: Vec<DownwardAPIVolumeFile> = Vec::new();
    items.push(
        DownwardAPIVolumeFile {
            path: "namespace".to_string(),
            field_ref: Some(
                ObjectFieldSelector { field_path: "metadata.namespace".to_string() },
            ),
            resource_field_ref: None,
            mode: None,
        },
    );
    let mut keys: Vec<KeyToPath> = Vec::new();
    keys.push(
        KeyToPath { key: "ca.crt".to_string(), path: "ca.crt".to_string(), mode: None },
    );
    let mut sources: Vec<VolumeProjection> = Vec::new();
    sources.push(
        VolumeProjection {
            secret: None,
            config_map: None,
            downward_api: None,
            service_account_token: Some(
                ServiceAccountTokenProjection {
                    audience: None,
                    expiration_seconds: Some(3600),
                    path: "token".to_string(),
                },
            ),
        },
    );
    sources.push(
        VolumeProjection {
            secret: None,
            config_map: None,
            downward_api: Some(DownwardAPIProjection { items: Some(items) }),
            service_account_token: None,
        },
    );
    sources.push(
        VolumeProjection {
            secret: None,
            config_map: Some(
                ConfigMapProjection {
                    name: Some("kube-root-ca.crt".to_string()),
                    items: Some(keys),
                    optional: Some(true),
                },
            ),
            downward_api: None,
            service_account_token: None,
        },
    );
    Volume {
        name: "kube-api-access".to_string(),
        empty_dir: None,
        host_path: None,
        config_map: None,
        secret: None,
        persistent_volume_claim: None,
        downward_api: None,
        csi: None,
        ephemeral: None,
        projected: Some(ProjectedVolumeSource { sources: Some(sources), default_mode: Some(0o644) }),
    }
}

/// The mount of the token volume.
fn token_mount() -> (r: VolumeMount)
    ensures
        is_token_mount(r),
{
    VolumeMount {
        name: "kube-api-access".to_string(),
        mount_path: token::SA_TOKEN_MOUNT_DESTINATION.to_string(),
        read_only: Some(true),
        sub_path: None,
        sub_path_expr: None,
    }
}

/// Adds a mount of the token volume to a container, unless it has one.
fn add_token_mount(c: &mut Container)
    ensures
        gained_mount(*old(c), *final(c)),
{
    let mut ms: Vec<VolumeMount> = match c.volume_mounts.take() {
        Some(v) => v,
        None => Vec::new(),
    };
    let ghost before = ms@;
    assert(before =~= mounts_of(*old(c)));
    let mut found: bool = false;
    let mut i: usize = 0;
    while i < ms.len()
        invariant
            i <= ms@.len(),
            ms@ == before,
            found == exists|j: int| 0 <= j < i && is_token_name((#[trigger] before[j]).name@),
        decreases ms@.len() - i,
    {
        if text::contains(ms[i].name.as_str(), "kube-api-access") {
            assert(is_token_name(before[i as int].name@));
            found = true;
        }
        i += 1;
    }
    if !found {
        ms.push(token_mount());
        assert(ms@.drop_last() =~= before);
    }
    c.volume_mounts = Some(ms);
}

/// Gives a pod a token volume, and its application containers mounts of it, unless it has
/// one. Says whether it did.
pub fn inject_token_volume(pod: &mut Pod) -> (r: bool)
    ensures
        r == !has_token_volume(*old(pod)),
        r ==> gained_token_volume(*old(pod), *final(pod)),
        !r ==> *final(pod) == *old(pod),
{
    let present = match &pod.spec {
        Some(s) => has_token(&s.volumes),
        None => true,
    };
    if present {
        return false;
    }
    match pod.spec.take() {
        None => {},
        Some(mut s) => {
            let ghost was = s;
            let mut vs: Vec<Volume> = match s.volumes.take() {
                Some(v) => v,
                None => Vec::new(),
            };
            let ghost before = vs@;
            vs.push(token_volume());
            assert(vs@.drop_last() =~= before);
            s.volumes = Some(vs);
            let ghost mid = s;
            let ghost apps = was.containers@;
            assert(s.containers == was.containers);
            let n: usize = s.containers.len();
            let mut i: usize = 0;
            while i < n
                invariant
                    i <= n,
                    n == s.containers@.len(),
                    n == apps.len(),
                    s == (api::PodSpec { containers: s.containers, ..mid }),
                    forall|j: int|
                        0 <= j < i ==> gained_mount(apps[j], #[trigger] s.containers@[j]),
                    forall|j: int| i <= j < n ==> #[trigger] s.containers@[j] == apps[j],
                decreases n - i,
            {
                add_token_mount(&mut s.containers[i]);
                i += 1;
            }
            pod.spec = Some(s);
        },
    }
    true
}

/// Puts a token volume, and the containers that mount it, into a pod as it is stored,
/// unless it has one. Says whether it did.
pub fn store_token_volume(
    stored: &mut Pod,
    volumes: Option<Vec<Volume>>,
    containers: Vec<Container>,
) -> (r: bool)
    ensures
        r == !has_token_volume(*old(stored)),
        !r ==> *final(stored) == *old(stored),
        r ==> old(stored).spec is Some && *final(stored) == (Pod {
            spec: Some(api::PodSpec { volumes, containers, ..old(stored).spec->0 }),
            ..*old(stored)
        }),
{
    let present = match &stored.spec {
        Some(s) => has_token(&s.volumes),
        None => true,
    };
    if present {
        return false;
    }
    match stored.spec.take() {
        None => {},
        Some(mut s) => {
            s.volumes = volumes;
            s.containers = containers;
            stored.spec = Some(s);
        },
    }
    true
}

/// The images that a list of containers needs, each with the policy by which the first
/// container that needs it has it pulled, added to those that are known.
pub open spec fn images_with(
    known: Seq<(Seq<char>, Option<Seq<char>>)>,
    cs: Seq<Container>,
) -> Seq<(Seq<char>, Option<Seq<char>>)>
    decreases cs.len(),
{
    if cs.len() == 0 {
        known
    } else {
        let rest = images_with(known, cs.drop_last());
        let c = cs.last();
        if lists_image(rest, c.image@) {
            rest
        } else {
            rest.push((c.image@, text::opt_text(c.image_pull_policy)))
        }
    }
}

/// The image is in the list.
pub open spec fn lists_image(s: Seq<(Seq<char>, Option<Seq<char>>)>, image: Seq<char>) -> bool {
    exists|i: int| 0 <= i < s.len() && (#[trigger] s[i]).0 == image
}

/// The images of a list with their texts as characters.
pub open spec fn images_view(v: Seq<(String, Option<String>)>) -> Seq<
    (Seq<char>, Option<Seq<char>>),
> {
    v.map_values(|p: (String, Option<String>)| (p.0@, text::opt_text(p.1)))
}

/// Adds the images that a list of containers needs.
fn add_images(out: &mut Vec<(String, Option<String>)>, cs: &Vec<Container>)
    ensures
        images_view(final(out)@) == images_with(images_view(old(out)@), cs@),
{
    let ghost known = images_view(out@);
    let mut i: usize = 0;
    assert(cs@.take(0) == Seq::<Container>::empty());
    while i < cs.len()
        invariant
            i <= cs@.len(),
            images_view(out@) == images_with(known, cs@.take(i as int)),
        decreases cs@.len() - i,
    {
        assert(cs@.take(i as int + 1).drop_last() == cs@.take(i as int));
        assert(cs@.take(i as int + 1).last() == cs@[i as int]);
        let ghost here = images_view(out@);
        let mut found: bool = false;
        let mut j: usize = 0;
        while j < out.len()
            invariant
                j <= out@.len(),
                i < cs@.len(),
                here == images_view(out@),
                found == exists|k: int| 0 <= k < j && (#[trigger] here[k]).0 == cs@[i as int].image@,
            decreases out@.len() - j,
        {
            assert(here[j as int].0 == out@[j as int].0@);
            if text::same(out[j].0.as_str(), cs[i].image.as_str()) {
                found = true;
            }
            j += 1;
        }
        if !found {
            out.push((cs[i].image.clone(), copy_text(&cs[i].image_pull_policy)));
            assert(images_view(out@) =~= here.push(
                (cs@[i as int].image@, text::opt_text(cs@[i as int].image_pull_policy)),
            ));
        }
        i += 1;
    }
    assert(cs@.take(cs@.len() as int) == cs@);
}

/// The status of a container of a pod that is being initialised.
pub open spec fn initializing(c: Container) -> status::StatusView {
    status::StatusView {
        name: c.name@,
        ready: false,
        restart_count: 0,
        state: Some(status::waiting_for("PodInitializing"@)),
        last_state: None,
        image: Some(c.image@),
        image_id: None,
        container_id: None,
        started: Some(false),
        allocated_resources: None,
        resources: None,
        allocated_resources_status: None,
        user: None,
        volume_mounts: None,
        stop_signal: None,
    }
}

/// The statuses of the application containers of a pod that is being initialised.
pub fn initializing_statuses(pod: &Pod) -> (r: Vec<ContainerStatus>)
    ensures
        r@.len() == crate::stop::apps_of(*pod).len(),
        forall|i: int|
            0 <= i < r@.len() ==> status::status_view(#[trigger] r@[i]) == initializing(
                crate::stop::apps_of(*pod)[i],
            ),
{
    let mut out: Vec<ContainerStatus> = Vec::new();
    if let Some(s) = &pod.spec {
        let cs = &s.containers;
        let mut i: usize = 0;
        while i < cs.len()
            invariant
                i <= cs@.len(),
                out@.len() == i,
                forall|j: int|
                    0 <= j < i ==> status::status_view(#[trigger] out@[j]) == initializing(cs@[j]),
            decreases cs@.len() - i,
        {
            out.push(
                ContainerStatus {
                    name: cs[i].name.clone(),
                    ready: false,
                    restart_count: 0,
                    state: Some(status::waiting("PodInitializing")),
                    last_state: None,
                    image: Some(cs[i].image.clone()),
                    image_id: None,
                    container_id: None,
                    started: Some(false),
                    allocated_resources: None,
                    resources: None,
                    allocated_resources_status: None,
                    user: None,
                    volume_mounts: None,
                    stop_signal: None,
                },
            );
            i += 1;
        }
    }
    out
}

/// What is said of an init container that is started over.
pub open spec fn retry_text(name: Seq<char>, seconds: u64) -> Seq<char> {
    "Init container "@ + name + " failed, retrying in "@ + number::decimal(seconds as int) + "s"@
}

/// What is said of an init container that is started over.
pub fn retry_message(name: &str, seconds: u64) -> (r: String)
    ensures
        r@ == retry_text(name@, seconds),
{
    let n = number::show_u64(seconds);
    text::cat5("Init container ", name, " failed, retrying in ", n.as_str(), "s")
}

/// What an init container is waited for came to.
#[derive(Clone, Debug)]
pub enum WaitOutcome {
    /// It has not ended.
    Again,
    /// It has succeeded.
    Completed,
    /// It has not, for the reason given.
    Failed(String),
}

/// What the daemon says of an init container that is waited for.
#[derive(Clone, Debug, Default)]
pub struct WaitState {
    pub running: Option<bool>,
    pub exit_code: Option<i64>,
    pub error: Option<String>,
}

/// The code that the container ended with, 1 where none is given.
pub open spec fn wait_code(s: WaitState) -> i64 {
    match s.exit_code {
        Some(c) => c,
        None => 1,
    }
}

/// Why an init container has not succeeded.
pub open spec fn failure_text(name: Seq<char>, s: WaitState) -> Seq<char> {
    let code = number::decimal(wait_code(s) as int);
    "Init container "@ + name + " failed with exit code "@ + code + ": "@ + (match s.error {
        Some(e) => e@,
        None => "Exit code: "@ + code,
    })
}

/// All statuses are those of containers that have ended, and there are some.
pub open spec fn all_terminated(v: Seq<ContainerStatus>) -> bool {
    v.len() > 0 && forall|i: int|
        0 <= i < v.len() ==> (#[trigger] v[i]).state matches Some(ContainerState::Terminated { .. })
}

/// One of the statuses is that of a container that failed.
pub open spec fn any_failed(v: Seq<ContainerStatus>) -> bool {
    exists|i: int| 0 <= i < v.len() && status::failed((#[trigger] v[i]).state)
}

/// How a pod ended whose containers have all ended: it failed if one of them did.
pub fn terminal_phase(v: &Vec<ContainerStatus>) -> (r: Option<Phase>)
    ensures
        r == (if !all_terminated(v@) {
            None
        } else if any_failed(v@) {
            Some(Phase::Failed)
        } else {
            Some(Phase::Succeeded)
        }),
{
    if v.len() == 0 {
        return None;
    }
    let mut failed: bool = false;
    let mut i: usize = 0;
    while i < v.len()
        invariant
            i <= v@.len(),
            forall|j: int|
                0 <= j < i ==> (#[trigger] v@[j]).state matches Some(
                    ContainerState::Terminated { .. },
                ),
            failed == exists|j: int| 0 <= j < i && status::failed((#[trigger] v@[j]).state),
        decreases v@.len() - i,
    {
        let ended = match &v[i].state {
            Some(st) => match st {
                ContainerState::Terminated { .. } => true,
                _ => false,
            },
            None => false,
        };
        if !ended {
            assert(!(v@[i as int].state matches Some(ContainerState::Terminated { .. })));
            return None;
        }
        if status::has_failed(&v[i].state) {
            assert(status::failed(v@[i as int].state));
            failed = true;
        }
        i += 1;
    }
    if failed {
        Some(Phase::Failed)
    } else {
        Some(Phase::Succeeded)
    }
}

/// The condition says so.
pub open spec fn condition_is(
    c: PodCondition,
    kind: Seq<char>,
    holds: bool,
    reason: Option<Seq<char>>,
    now: Timestamp,
) -> bool {
    &&& c.condition_type@ == kind
    &&& c.status@ == (if holds {
        "True"@
    } else {
        "False"@
    })
    &&& text::opt_text(c.reason) == reason
    &&& c.message is None
    &&& c.last_transition_time == Some(now)
}

/// The conditions of a pod that has succeeded: it was initialised and scheduled, and its
/// containers are no longer ready.
pub open spec fn completed_conditions(v: Seq<PodCondition>, now: Timestamp) -> bool {
    &&& v.len() == 4
    &&& condition_is(v[0], "Initialized"@, true, Some("PodCompleted"@), now)
    &&& condition_is(v[1], "PodScheduled"@, true, None, now)
    &&& condition_is(v[2], "ContainersReady"@, false, Some("PodCompleted"@), now)
    &&& condition_is(v[3], "Ready"@, false, Some("PodCompleted"@), now)
}

fn condition(kind: &str, holds: bool, completed: bool, now: Timestamp) -> (r: PodCondition)
    ensures
        condition_is(
            r,
            kind@,
            holds,
            if completed {
                Some("PodCompleted"@)
            } else {
                None
            },
            now,
        ),
{
    PodCondition {
        condition_type: String::from_str(kind),
        status: if holds {
            "True".to_string()
        } else {
            "False".to_string()
        },
        reason: if completed {
            Some("PodCompleted".to_string())
        } else {
            None
        },
        message: None,
        last_transition_time: Some(now),
    }
}

/// Reports that a pod has ended, and how its containers did. One that succeeded gets the
/// conditions of such a pod.
pub fn report_end(
    s: &mut PodStatus,
    phase: Phase,
    statuses: Vec<ContainerStatus>,
    now: Timestamp,
)
    ensures
        *final(s) == (PodStatus {
            phase: Some(phase),
            container_statuses: Some(statuses),
            conditions: final(s).conditions,
            ..*old(s)
        }),
        phase == Phase::Succeeded ==> final(s).conditions is Some && completed_conditions(
            final(s).conditions->0@,
            now,
        ),
        phase != Phase::Succeeded ==> final(s).conditions == old(s).conditions,
{
    s.phase = Some(phase);
    s.container_statuses = Some(statuses);
    if phase == Phase::Succeeded {
        let mut v: Vec<PodCondition> = Vec::new();
        v.push(condition("Initialized", true, true, now));
        v.push(condition("PodScheduled", true, false, now));
        v.push(condition("ContainersReady", false, true, now));
        v.push(condition("Ready", false, true, now));
        s.conditions = Some(v);
    }
}

/// Reports how a pod's init containers do, with a reason and a message where there are
/// any.
pub fn refresh_init_container_statuses(
    s: &mut PodStatus,
    statuses: Option<Vec<ContainerStatus>>,
    reason: Option<&str>,
    message: Option<String>,
)
    ensures
        *final(s) == (PodStatus {
            init_container_statuses: statuses,
            reason: final(s).reason,
            message: if message is Some {
                message
            } else {
                old(s).message
            },
            ..*old(s)
        }),
        match reason {
            Some(r) => text::opt_text(final(s).reason) == Some(r@),
            None => final(s).reason == old(s).reason,
        },
{
    s.init_container_statuses = statuses;
    if let Some(r) = reason {
        s.reason = Some(String::from_str(r));
    }
    if message.is_some() {
        s.message = message;
    }
}

/// Reports that a pod is being initialised: how its init containers do, and that its
/// application containers wait.
pub fn report_initializing(
    s: &mut PodStatus,
    init_statuses: Option<Vec<ContainerStatus>>,
    statuses: Vec<ContainerStatus>,
)
    ensures
        *final(s) == (PodStatus {
            init_container_statuses: init_statuses,
            container_statuses: Some(statuses),
            ..*old(s)
        }),
{
    s.init_container_statuses = init_statuses;
    s.container_statuses = Some(statuses);
}

/// How many seconds pass before an init container is started over for the given time.
pub fn retry_backoff(attempt: u32) -> (r: u64)
    ensures
        r == backoff_of(attempt),
{
    if attempt == 0 {
        1
    } else if attempt == 1 {
        2
    } else if attempt == 2 {
        4
    } else if attempt == 3 {
        8
    } else if attempt == 4 {
        16
    } else {
        30
    }
}

/// What is done after the application containers before position `i`.
fn main_from(pod: &Pod, i: usize) -> (r: StartAsk)
    requires
        pod.spec is Some,
    ensures
        r == from_main(*pod, i as nat),
{
    let n: usize = match &pod.spec {
        Some(s) => s.containers.len(),
        None => 0,
    };
    if i < n {
        StartAsk::StartMain(i)
    } else if text::same(status::effective_restart_policy(pod), "Never") {
        StartAsk::Settle
    } else {
        StartAsk::Done
    }
}

/// What is done after the sidecars before position `i`.
fn sidecar_from(pod: &Pod, i: usize) -> (r: StartAsk)
    requires
        pod.spec is Some,
    ensures
        r == from_sidecar(*pod, i as nat),
{
    if let Some(s) = &pod.spec {
        if let Some(cs) = &s.init_containers {
            let mut k: usize = i;
            while k < cs.len()
                invariant
                    i <= k,
                    cs@ == status::inits_of(*pod),
                    from_sidecar(*pod, i as nat) == from_sidecar(*pod, k as nat),
                decreases cs@.len() - k,
            {
                if status::sidecar(&cs[k]) {
                    return StartAsk::StartSidecar(k);
                }
                k += 1;
            }
        }
    }
    main_from(pod, 0)
}

/// What is done after the init containers before position `i`.
fn init_from(pod: &Pod, i: usize) -> (r: StartAsk)
    requires
        pod.spec is Some,
    ensures
        r == from_init(*pod, i as nat),
{
    if let Some(s) = &pod.spec {
        if let Some(cs) = &s.init_containers {
            let mut k: usize = i;
            while k < cs.len()
                invariant
                    i <= k,
                    cs@ == status::inits_of(*pod),
                    from_init(*pod, i as nat) == from_init(*pod, k as nat),
                decreases cs@.len() - k,
            {
                if !status::sidecar(&cs[k]) {
                    return StartAsk::ReportInit(k);
                }
                k += 1;
            }
        }
    }
    sidecar_from(pod, 0)
}

/// What is done once the network is set up.
fn network_from(pod: &Pod) -> (r: StartAsk)
    ensures
        r == from_network(*pod),
{
    let present = match &pod.spec {
        Some(s) => has_token(&s.volumes),
        None => true,
    };
    if present {
        StartAsk::Volumes
    } else {
        StartAsk::StoreTokenVolume
    }
}

/// How often a pod's failed init container is started over.
fn retry_limit(pod: &Pod) -> (r: u32)
    ensures
        r == retries(*pod),
{
    if text::same(status::effective_restart_policy(pod), "Always") {
        3
    } else {
        0
    }
}

impl ContainerRuntime {
    /// Where the start of a pod begins.
    pub fn first_start_step(&self) -> (r: StartState)
        ensures
            r == (StartState { ask: StartAsk::Running, has_ip: false }),
    {
        StartState { ask: StartAsk::Running, has_ip: false }
    }

    /// Takes in how the last step of starting a pod went, and says what is done next: the
    /// network, the volumes and the images come first; then the init containers, one
    /// after another until each has succeeded; then the sidecars; then the application
    /// containers.
    pub fn start_pod(&self, pod: &Pod, s: StartState, answer: StartAnswer) -> (r: StartState)
        requires
            pod.spec is Some,
            ask_fits(*pod, s.ask),
        ensures
            r == start_next(*pod, self.use_cni, s, answer),
            ask_fits(*pod, r.ask),
    {
        let ghost inits = status::inits_of(*pod);
        let n: usize = match &pod.spec {
            Some(spec) => match &spec.init_containers {
                Some(v) => v.len(),
                None => 0,
            },
            None => 0,
        };
        let m: usize = match &pod.spec {
            Some(spec) => spec.containers.len(),
            None => 0,
        };
        assert(n == inits.len());
        assert(m == pod.spec->0.containers@.len());
        let error = answer == StartAnswer::Error;
        let found = s.has_ip || answer == StartAnswer::Yes;
        let mut has_ip: bool = s.has_ip;
        let ask = match s.ask {
            StartAsk::Running => {
                if answer == StartAnswer::Yes {
                    StartAsk::Done
                } else {
                    StartAsk::RemoveOld
                }
            },
            StartAsk::RemoveOld => {
                if self.use_cni {
                    StartAsk::Network
                } else {
                    network_from(pod)
                }
            },
            StartAsk::Network => network_from(pod),
            StartAsk::StoreTokenVolume => StartAsk::Volumes,
            StartAsk::Volumes => {
                if error {
                    StartAsk::Failed
                } else {
                    StartAsk::Address
                }
            },
            StartAsk::Address => {
                has_ip = found;
                StartAsk::HostsFile
            },
            StartAsk::HostsFile => {
                if error {
                    StartAsk::Failed
                } else {
                    StartAsk::Images
                }
            },
            StartAsk::Images => {
                proof {
                    lemma_from_init_fits(*pod, 0);
                }
                if error {
                    StartAsk::Failed
                } else {
                    init_from(pod, 0)
                }
            },
            StartAsk::ReportInit(i) => StartAsk::StartInit(i, 0),
            StartAsk::StartInit(i, a) => {
                if error {
                    StartAsk::Failed
                } else if has_ip {
                    StartAsk::ReportRunning(i, a)
                } else {
                    StartAsk::AddressAfterInit(i, a)
                }
            },
            StartAsk::AddressAfterInit(i, a) => {
                has_ip = found;
                if error {
                    StartAsk::Failed
                } else {
                    StartAsk::ReportRunning(i, a)
                }
            },
            StartAsk::ReportRunning(i, a) => StartAsk::WaitForInit(i, a),
            StartAsk::WaitForInit(i, a) => {
                if answer == StartAnswer::Yes {
                    StartAsk::ReportDone(i)
                } else {
                    StartAsk::ReportFailed(i, a)
                }
            },
            StartAsk::ReportDone(i) => {
                proof {
                    lemma_from_init_fits(*pod, (i + 1) as nat);
                }
                init_from(pod, i + 1)
            },
            StartAsk::ReportFailed(i, a) => {
                if a < retry_limit(pod) {
                    StartAsk::RemoveInit(i, a + 1)
                } else {
                    StartAsk::Failed
                }
            },
            StartAsk::RemoveInit(i, a) => StartAsk::ReportRetry(i, a),
            StartAsk::ReportRetry(i, a) => StartAsk::Sleep(i, a),
            StartAsk::Sleep(i, a) => StartAsk::StartInit(i, a),
            StartAsk::StartSidecar(i) => {
                proof {
                    lemma_from_sidecar_fits(*pod, (i + 1) as nat);
                }
                if error {
                    StartAsk::Failed
                } else if has_ip {
                    sidecar_from(pod, i + 1)
                } else {
                    StartAsk::AddressAfterSidecar(i)
                }
            },
            StartAsk::AddressAfterSidecar(i) => {
                proof {
                    lemma_from_sidecar_fits(*pod, (i + 1) as nat);
                }
                has_ip = found;
                if error {
                    StartAsk::Failed
                } else {
                    sidecar_from(pod, i + 1)
                }
            },
            StartAsk::StartMain(i) => {
                if error {
                    StartAsk::Failed
                } else if has_ip {
                    main_from(pod, i + 1)
                } else {
                    StartAsk::AddressAfterMain(i)
                }
            },
            StartAsk::AddressAfterMain(i) => {
                has_ip = found;
                if error {
                    StartAsk::Failed
                } else {
                    main_from(pod, i + 1)
                }
            },
            StartAsk::Settle => StartAsk::Done,
            StartAsk::Done => StartAsk::Done,
            StartAsk::Failed => StartAsk::Failed,
        };
        StartState { ask, has_ip }
    }

    /// The words by which the daemon finds what is left of a pod's containers.
    pub fn old_container_filter(&self, pod_name: &str) -> (r: String)
        ensures
            r@ == "^/"@ + pod_name@,
    {
        text::cat2("^/", pod_name)
    }

    /// The images that a pod needs, each once: its init containers' first.
    pub fn pod_images(&self, pod: &Pod) -> (r: Vec<(String, Option<String>)>)
        requires
            pod.spec is Some,
        ensures
            images_view(r@) == images_with(
                images_with(Seq::empty(), status::inits_of(*pod)),
                pod.spec->0.containers@,
            ),
    {
        let mut out: Vec<(String, Option<String>)> = Vec::new();
        assert(images_view(out@) =~= Seq::<(Seq<char>, Option<Seq<char>>)>::empty());
        if let Some(s) = &pod.spec {
            if let Some(v) = &s.init_containers {
                add_images(&mut out, v);
            }
            add_images(&mut out, &s.containers);
        }
        out
    }

    /// What waiting for an init container has come to: it is given up when it is late, and
    /// otherwise waited for until the daemon says that it does not run.
    pub fn wait_for_container_completion(
        &self,
        container_name: &str,
        late: bool,
        inspected: &Option<WaitState>,
    ) -> (r: WaitOutcome)
        ensures
            match r {
                WaitOutcome::Failed(e) => if late {
                    e@ == "Timeout waiting for init container "@ + container_name@
                        + " to complete"@
                } else {
                    &&& inspected matches Some(s)
                    &&& s.running != Some(true)
                    &&& wait_code(*s) != 0
                    &&& e@ == failure_text(container_name@, *s)
                },
                WaitOutcome::Completed => !late && inspected is Some && inspected->0.running
                    != Some(true) && wait_code(inspected->0) == 0,
                WaitOutcome::Again => !late && (inspected is None || inspected->0.running == Some(
                    true,
                )),
            },
    {
        if late {
            return WaitOutcome::Failed(
                text::cat3("Timeout waiting for init container ", container_name, " to complete"),
            );
        }
        match inspected {
            None => WaitOutcome::Again,
            Some(s) => {
                let running = match s.running {
                    Some(b) => b,
                    None => false,
                };
                if running {
                    return WaitOutcome::Again;
                }
                let code: i64 = match s.exit_code {
                    Some(c) => c,
                    None => 1,
                };
                if code == 0 {
                    return WaitOutcome::Completed;
                }
                let n = number::show_i64(code);
                let why = match &s.error {
                    Some(e) => e.clone(),
                    None => text::cat2("Exit code: ", n.as_str()),
                };
                let head = text::cat5(
                    "Init container ",
                    container_name,
                    " failed with exit code ",
                    n.as_str(),
                    ": ",
                );
                WaitOutcome::Failed(text::cat2(head.as_str(), why.as_str()))
            },
        }
    }
}

/// A pod that runs is left alone; any other is started, after the containers that are left of
/// it are gone. Plugins set up its network where the agent uses them, and only there. The token
/// volume is stored only where the pod has none.
pub proof fn law_starts_begin_afresh(pod: Pod, use_cni: bool, has_ip: bool, answer: StartAnswer)
    ensures
        ({
            let at = |ask: StartAsk| start_next(pod, use_cni, StartState { ask, has_ip }, answer);
            &&& at(StartAsk::Running).ask == (if answer == StartAnswer::Yes {
                StartAsk::Done
            } else {
                StartAsk::RemoveOld
            })
            &&& use_cni ==> at(StartAsk::RemoveOld).ask == StartAsk::Network
            &&& !use_cni && has_token_volume(pod) ==> at(StartAsk::RemoveOld).ask
                == StartAsk::Volumes
            &&& !use_cni && !has_token_volume(pod) ==> at(StartAsk::RemoveOld).ask
                == StartAsk::StoreTokenVolume
            &&& has_token_volume(pod) ==> at(StartAsk::Network).ask == StartAsk::Volumes
            &&& !has_token_volume(pod) ==> at(StartAsk::Network).ask == StartAsk::StoreTokenVolume
            &&& at(StartAsk::StoreTokenVolume).ask == StartAsk::Volumes
        }),
{
}

/// A pod whose volumes, hosts file or images cannot be had is not started, and neither is one
/// of which a container cannot be started; otherwise its address, its hosts file and its images
/// come after its volumes, in this order.
pub proof fn law_failures_stop_the_start(
    pod: Pod,
    use_cni: bool,
    has_ip: bool,
    i: usize,
    a: u32,
)
    ensures
        ({
            let fails = |ask: StartAsk|
                start_next(
                    pod,
                    use_cni,
                    StartState { ask, has_ip },
                    StartAnswer::Error,
                ).ask == StartAsk::Failed;
            let goes_on = |ask: StartAsk|
                start_next(pod, use_cni, StartState { ask, has_ip }, StartAnswer::Yes).ask;
            &&& fails(StartAsk::Volumes)
            &&& fails(StartAsk::HostsFile)
            &&& fails(StartAsk::Images)
            &&& fails(StartAsk::StartInit(i, a))
            &&& fails(StartAsk::StartSidecar(i))
            &&& fails(StartAsk::StartMain(i))
            &&& fails(StartAsk::AddressAfterMain(i))
            &&& goes_on(StartAsk::Volumes) == StartAsk::Address
            &&& goes_on(StartAsk::Address) == StartAsk::HostsFile
            &&& goes_on(StartAsk::HostsFile) == StartAsk::Images
            &&& goes_on(StartAsk::Images) == from_init(pod, 0)
            &&& goes_on(StartAsk::ReportInit(i)) == StartAsk::StartInit(i, 0)
            &&& goes_on(StartAsk::ReportRunning(i, a)) == StartAsk::WaitForInit(i, a)
            &&& goes_on(StartAsk::WaitForInit(i, a)) == StartAsk::ReportDone(i)
            &&& goes_on(StartAsk::RemoveInit(i, a)) == StartAsk::ReportRetry(i, a)
            &&& goes_on(StartAsk::ReportRetry(i, a)) == StartAsk::Sleep(i, a)
            &&& goes_on(StartAsk::Sleep(i, a)) == StartAsk::StartInit(i, a)
        }),
{
}

/// Once its init containers and sidecars are done, a pod's application containers are started
/// one after another, each of them; the start is over after the last, where pods that are not
/// restarted are seen to first. Where the pod's address is not known it is asked for after each.
pub proof fn law_every_application_container_is_started(
    pod: Pod,
    use_cni: bool,
    i: usize,
    answer: StartAnswer,
)
    requires
        pod.spec is Some,
        i < pod.spec->0.containers@.len() <= usize::MAX,
        answer != StartAnswer::Error,
    ensures
        ({
            let n = pod.spec->0.containers@.len();
            let known = start_next(
                pod,
                use_cni,
                StartState { ask: StartAsk::StartMain(i), has_ip: true },
                answer,
            );
            let unknown = start_next(
                pod,
                use_cni,
                StartState { ask: StartAsk::StartMain(i), has_ip: false },
                answer,
            );
            let asked = start_next(
                pod,
                use_cni,
                StartState { ask: StartAsk::AddressAfterMain(i), has_ip: false },
                answer,
            );
            &&& from_main(pod, 0) == StartAsk::StartMain(0)
            &&& i + 1 < n ==> known.ask == StartAsk::StartMain((i + 1) as usize)
            &&& i + 1 == n && status::restart_policy_of(pod) == "Never"@ ==> known.ask
                == StartAsk::Settle
            &&& i + 1 == n && status::restart_policy_of(pod) != "Never"@ ==> known.ask
                == StartAsk::Done
            &&& unknown.ask == StartAsk::AddressAfterMain(i)
            &&& asked.ask == known.ask
            &&& asked.has_ip <==> answer == StartAnswer::Yes
        }),
{
}

/// The sidecars are started one after another, from any position on, each of them, and the
/// application containers after the last.
pub proof fn law_every_sidecar_is_started(pod: Pod, i: nat, k: int)
    requires
        pod.spec is Some,
        status::inits_of(pod).len() <= usize::MAX,
        i <= k <= status::inits_of(pod).len(),
        forall|j: int|
            i <= j < k ==> text::opt_text((#[trigger] status::inits_of(pod)[j]).restart_policy)
                != Some("Always"@),
    ensures
        k < status::inits_of(pod).len() && text::opt_text(
            status::inits_of(pod)[k].restart_policy,
        ) == Some("Always"@) ==> from_sidecar(pod, i) == StartAsk::StartSidecar(k as usize),
        k == status::inits_of(pod).len() ==> from_sidecar(pod, i) == from_main(pod, 0),
    decreases status::inits_of(pod).len() - i,
{
    if i < k {
        assert(text::opt_text(status::inits_of(pod)[i as int].restart_policy) != Some("Always"@));
        law_every_sidecar_is_started(pod, i + 1, k);
    }
}

/// The init containers that are no sidecars are started one after another, from any position
/// on, each of them, and the sidecars after the last.
pub proof fn law_every_init_container_is_started(pod: Pod, i: nat, k: int)
    requires
        pod.spec is Some,
        status::inits_of(pod).len() <= usize::MAX,
        i <= k <= status::inits_of(pod).len(),
        forall|j: int|
            i <= j < k ==> text::opt_text((#[trigger] status::inits_of(pod)[j]).restart_policy)
                == Some("Always"@),
    ensures
        k < status::inits_of(pod).len() && text::opt_text(
            status::inits_of(pod)[k].restart_policy,
        ) != Some("Always"@) ==> from_init(pod, i) == StartAsk::ReportInit(k as usize),
        k == status::inits_of(pod).len() ==> from_init(pod, i) == from_sidecar(pod, 0),
    decreases status::inits_of(pod).len() - i,
{
    if i < k {
        assert(text::opt_text(status::inits_of(pod)[i as int].restart_policy) == Some("Always"@));
        law_every_init_container_is_started(pod, i + 1, k);
    }
}

/// An init container that fails is started over three times at most, and only in a pod whose
/// containers are always restarted; the wait before it is doubled each time, and is never more
/// than thirty seconds.
pub proof fn law_init_containers_are_retried_with_patience(pod: Pod, attempt: u32)
    ensures
        status::restart_policy_of(pod) == "Always"@ ==> retries(pod) == 3,
        status::restart_policy_of(pod) != "Always"@ ==> retries(pod) == 0,
        backoff_of(0) == 1,
        1 <= backoff_of(attempt) <= 30,
        attempt < 4 ==> backoff_of((attempt + 1) as u32) == 2 * backoff_of(attempt),
        attempt >= 5 ==> backoff_of(attempt) == 30,
{
}

/// A pod that gains a token volume has it behind its others, made of a token that lives for an
/// hour, the namespace and the CA certificate; its name and its status are as they were.
pub proof fn law_token_volumes_hold_token_namespace_and_certificate(a: Pod, b: Pod)
    requires
        gained_token_volume(a, b),
    ensures
        ({
            let v = b.spec->0.volumes->0@.last();
            let srcs = v.projected->0.sources->0@;
            &&& b.metadata == a.metadata && b.status == a.status
            &&& b.spec->0.volumes->0@.len() > 0
            &&& a.spec->0.volumes matches Some(vs) ==> b.spec->0.volumes->0@.drop_last() == vs@
            &&& v.name@ == "kube-api-access"@
            &&& v.projected is Some && v.projected->0.sources is Some && srcs.len() == 3
            &&& srcs[0].service_account_token is Some && srcs[0].service_account_token->0.path@
                == "token"@ && srcs[0].service_account_token->0.expiration_seconds == Some(3600i64)
            &&& srcs[1].downward_api is Some && srcs[1].downward_api->0.items is Some
                && srcs[1].downward_api->0.items->0@.len() == 1
                && srcs[1].downward_api->0.items->0@[0].path@ == "namespace"@
            &&& srcs[2].config_map is Some && text::opt_text(srcs[2].config_map->0.name) == Some(
                "kube-root-ca.crt"@,
            )
        }),
{
    let v = b.spec->0.volumes->0@.last();
    let srcs = v.projected->0.sources->0@;
    assert(is_token_volume(v));
    assert(projects_token(srcs[0]) && projects_namespace(srcs[1]) && projects_ca(srcs[2]));
}

/// Each application container of a pod that gains a token volume, and that had no mount of such
/// a volume, finds it, read-only, where tokens are looked for; all else of it is as it was.
pub proof fn law_token_volumes_are_mounted_everywhere(a: Pod, b: Pod, i: int)
    requires
        gained_token_volume(a, b),
        0 <= i < a.spec->0.containers@.len(),
    ensures
        ({
            let x = a.spec->0.containers@[i];
            let y = b.spec->0.containers@[i];
            let before = mounts_of(x);
            let after = mounts_of(y);
            &&& y.name == x.name && y.image == x.image && y.command == x.command && y.args == x.args
                && y.env == x.env && y.ports == x.ports
            &&& (exists|k: int|
                0 <= k < before.len() && text::has(
                    (#[trigger] before[k]).name@,
                    "kube-api-access"@,
                )) ==> after == before
            &&& (forall|k: int|
                0 <= k < before.len() ==> !text::has(
                    (#[trigger] before[k]).name@,
                    "kube-api-access"@,
                )) ==> {
                &&& after.len() == before.len() + 1
                &&& after.drop_last() == before
                &&& after.last().name@ == "kube-api-access"@
                &&& after.last().mount_path@ == "/var/run/secrets/kubernetes.io/serviceaccount"@
                &&& after.last().read_only == Some(true)
            }
        }),
{
    assert(gained_mount(a.spec->0.containers@[i], b.spec->0.containers@[i]));
}

/// A pod has ended once all of its containers have, of which there has to be one.
pub proof fn law_pods_end_when_all_containers_have(v: Seq<ContainerStatus>, i: int)
    ensures
        v.len() == 0 ==> !all_terminated(v),
        0 <= i < v.len() && !(v[i].state matches Some(ContainerState::Terminated { .. }))
            ==> !all_terminated(v),
        0 <= i < v.len() && (v[i].state matches Some(ContainerState::Terminated { exit_code, .. })
            && exit_code != 0) ==> any_failed(v),
        (forall|k: int|
            0 <= k < v.len() ==> ((#[trigger] v[k]).state matches Some(
                ContainerState::Terminated { exit_code, .. },
            ) ==> exit_code == 0)) ==> !any_failed(v),
        v.len() > 0 && (forall|k: int|
            0 <= k < v.len() ==> ((#[trigger] v[k]).state matches Some(
                ContainerState::Terminated { .. },
            ))) ==> all_terminated(v),
{
}

proof fn lemma_listed(
    known: Seq<(Seq<char>, Option<Seq<char>>)>,
    cs: Seq<Container>,
    image: Seq<char>,
)
    ensures
        lists_image(images_with(known, cs), image) <==> lists_image(known, image) || exists|i: int|
            0 <= i < cs.len() && (#[trigger] cs[i]).image@ == image,
    decreases cs.len(),
{
    if cs.len() > 0 {
        let short = cs.drop_last();
        let before = images_with(known, short);
        let now = images_with(known, cs);
        let n = cs.len() - 1;
        lemma_listed(known, short, image);
        if lists_image(before, image) {
            let k = choose|k: int| 0 <= k < before.len() && (#[trigger] before[k]).0 == image;
            assert(now[k].0 == image);
            if !lists_image(known, image) {
                let i = choose|i: int| 0 <= i < short.len() && (#[trigger] short[i]).image@ == image;
                assert(cs[i].image@ == image);
            }
        } else {
            if lists_image(now, image) {
                let k = choose|k: int| 0 <= k < now.len() && (#[trigger] now[k]).0 == image;
                if k < before.len() {
                    assert(before[k].0 == image);
                }
                assert(cs[n as int].image@ == image);
            }
            if exists|i: int| 0 <= i < cs.len() && (#[trigger] cs[i]).image@ == image {
                let i = choose|i: int| 0 <= i < cs.len() && (#[trigger] cs[i]).image@ == image;
                if i < n {
                    assert(short[i].image@ == image);
                } else {
                    assert(now[now.len() - 1].0 == image);
                }
            }
        }
    }
}

/// The images that a pod needs are those of its containers, beside those that are known, and
/// each comes with the policy of the first container that needs it.
pub proof fn law_every_image_is_listed(
    known: Seq<(Seq<char>, Option<Seq<char>>)>,
    cs: Seq<Container>,
    i: int,
)
    requires
        0 <= i < cs.len(),
        !lists_image(known, cs[i].image@),
        forall|j: int| 0 <= j < i ==> (#[trigger] cs[j]).image@ != cs[i].image@,
    ensures
        images_with(known, cs).contains((cs[i].image@, text::opt_text(cs[i].image_pull_policy))),
    decreases cs.len(),
{
    let p = (cs[i].image@, text::opt_text(cs[i].image_pull_policy));
    let short = cs.drop_last();
    let before = images_with(known, short);
    let now = images_with(known, cs);
    if i < cs.len() - 1 {
        assert(short[i] == cs[i]);
        assert forall|j: int| 0 <= j < i implies (#[trigger] short[j]).image@ != short[i].image@ by {
            assert(short[j] == cs[j]);
        }
        law_every_image_is_listed(known, short, i);
        let k = choose|k: int| 0 <= k < before.len() && before[k] == p;
        assert(now[k] == p);
    } else {
        lemma_listed(known, short, cs[i].image@);
        if lists_image(before, cs[i].image@) {
            let j = choose|j: int|
                0 <= j < short.len() && (#[trigger] short[j]).image@ == cs[i].image@;
            assert(cs[j].image@ == cs[i].image@);
        }
        assert(now[now.len() - 1] == p);
    }
}

/// No image is listed twice, and none that neither is known nor belongs to a container.
pub proof fn law_images_are_listed_once(
    known: Seq<(Seq<char>, Option<Seq<char>>)>,
    cs: Seq<Container>,
    k: int,
    l: int,
)
    requires
        forall|x: int, y: int|
            0 <= x < y < known.len() ==> (#[trigger] known[x]).0 != (#[trigger] known[y]).0,
        0 <= k < l < images_with(known, cs).len(),
    ensures
        images_with(known, cs)[k].0 != images_with(known, cs)[l].0,
        lists_image(known, images_with(known, cs)[l].0) || exists|i: int|
            0 <= i < cs.len() && (#[trigger] cs[i]).image@ == images_with(known, cs)[l].0,
    decreases cs.len(),
{
    let now = images_with(known, cs);
    lemma_listed(known, cs, now[l].0);
    assert(lists_image(now, now[l].0));
    if cs.len() > 0 {
        let short = cs.drop_last();
        let before = images_with(known, short);
        if l < before.len() {
            law_images_are_listed_once(known, short, k, l);
            assert(now[k] == before[k] && now[l] == before[l]);
        } else {
            assert(now[k] == before[k]);
            assert(now[l].0 == cs.last().image@);
            if now[k].0 == now[l].0 {
                assert(lists_image(before, cs.last().image@));
            }
        }
    }
}

/// A container of a pod that is being initialised waits for that, and is neither started nor
/// ready.
pub proof fn law_containers_wait_for_initialisation(c: Container)
    ensures
        ({
            let s = initializing(c);
            &&& s.name == c.name@
            &&& s.image == Some(c.image@)
            &&& !s.ready
            &&& s.started == Some(false)
            &&& s.state == Some(
                status::StateView::Waiting { reason: Some("PodInitializing"@), message: None },
            )
            &&& s.restart_count == 0
        }),
{
}

/// An init container that is waited for ended with the daemon's code, and with 1 where none is
/// given; what is said of its failure names it and the code.
pub proof fn law_failures_name_container_and_code(name: Seq<char>, s: WaitState)
    ensures
        s.exit_code matches Some(c) ==> wait_code(s) == c,
        s.exit_code is None ==> wait_code(s) == 1,
        text::begins(
            failure_text(name, s),
            "Init container "@ + name + " failed with exit code "@ + number::decimal(
                wait_code(s) as int,
            ),
        ),
        s.error matches Some(e) ==> text::ends(failure_text(name, s), ": "@ + e@),
{
    let t = failure_text(name, s);
    let head = "Init container "@ + name + " failed with exit code "@ + number::decimal(
        wait_code(s) as int,
    );
    assert(t.take(head.len() as int) =~= head);
    if let Some(e) = s.error {
        let tail = ": "@ + e@;
        assert(t.skip(t.len() - tail.len()) =~= tail);
    }
}

/// A pod that has come to its end says that it was initialised and scheduled, and that it is
/// no longer ready because it has completed.
pub proof fn law_completed_pods_say_so(v: Seq<PodCondition>, now: Timestamp)
    requires
        completed_conditions(v, now),
    ensures
        v.len() == 4,
        v[0].condition_type@ == "Initialized"@ && v[0].status@ == "True"@ && text::opt_text(
            v[0].reason,
        ) == Some("PodCompleted"@),
        v[1].condition_type@ == "PodScheduled"@ && v[1].status@ == "True"@ && v[1].reason is None,
        v[2].condition_type@ == "ContainersReady"@ && v[2].status@ == "False"@ && text::opt_text(
            v[2].reason,
        ) == Some("PodCompleted"@),
        v[3].condition_type@ == "Ready"@ && v[3].status@ == "False"@ && text::opt_text(v[3].reason)
            == Some("PodCompleted"@),
        forall|i: int|
            0 <= i < 4 ==> (#[trigger] v[i]).last_transition_time == Some(now) && v[i].message is None,
{
}

/// A pod is given a token volume exactly where none of its volumes has the name of one.
pub proof fn law_token_volumes_are_told_by_their_name(pod: Pod, i: int)
    ensures
        pod.spec matches Some(s) ==> {
            &&& s.volumes is None ==> !has_token_volume(pod)
            &&& s.volumes matches Some(vs) ==> {
                &&& 0 <= i < vs@.len() && text::has(vs@[i].name@, "kube-api-access"@)
                    ==> has_token_volume(pod)
                &&& (forall|j: int|
                    0 <= j < vs@.len() ==> !text::has((#[trigger] vs@[j]).name@, "kube-api-access"@))
                    ==> !has_token_volume(pod)
            }
        },
{
}

/// The volume that a pod is given holds nothing but the token, the pod's own namespace and
/// the cluster's certificate, which may be missing; all can read its files.
pub proof fn law_token_volumes_hold_nothing_else(a: Pod, b: Pod)
    requires
        gained_token_volume(a, b),
    ensures
        ({
            let v = b.spec->0.volumes->0@.last();
            let srcs = v.projected->0.sources->0@;
            let field = srcs[1].downward_api->0.items->0@[0];
            let ca = srcs[2].config_map->0;
            &&& v.empty_dir is None && v.host_path is None && v.config_map is None && v.secret is None
            &&& v.persistent_volume_claim is None && v.downward_api is None && v.csi is None
                && v.ephemeral is None
            &&& v.projected->0.default_mode == Some(0o644i32)
            &&& srcs[0].service_account_token->0.audience is None
            &&& srcs[0].config_map is None && srcs[0].secret is None && srcs[0].downward_api is None
            &&& field.field_ref is Some && field.field_ref->0.field_path@ == "metadata.namespace"@
            &&& field.resource_field_ref is None && field.mode is None
            &&& srcs[1].service_account_token is None && srcs[1].config_map is None
                && srcs[1].secret is None
            &&& ca.optional == Some(true)
            &&& ca.items is Some && ca.items->0@.len() == 1
            &&& ca.items->0@[0].key@ == "ca.crt"@ && ca.items->0@[0].path@ == "ca.crt"@
            &&& srcs[2].service_account_token is None && srcs[2].secret is None
                && srcs[2].downward_api is None
            &&& a.spec->0.volumes is None ==> b.spec->0.volumes->0@.len() == 1
            &&& b.spec->0.containers@.len() == a.spec->0.containers@.len()
            &&& b.spec->0.init_containers == a.spec->0.init_containers
            &&& b.spec->0.restart_policy == a.spec->0.restart_policy
        }),
{
}

/// The pod's address is asked for after a start until it is known, and once it is known it is
/// not asked for again; nothing forgets it.
pub proof fn law_the_address_is_asked_for_until_it_is_known(
    pod: Pod,
    use_cni: bool,
    s: StartState,
    answer: StartAnswer,
    i: usize,
    a: u32,
)
    ensures
        ({
            let next = start_next(pod, use_cni, s, answer);
            &&& s.has_ip ==> next.has_ip
            &&& !s.has_ip && next.has_ip ==> answer == StartAnswer::Yes
            &&& s.ask == StartAsk::Address && answer == StartAnswer::Yes ==> next.has_ip
            &&& s.ask == StartAsk::Address ==> next.ask == StartAsk::HostsFile
            &&& s.ask == StartAsk::StartInit(i, a) && answer != StartAnswer::Error ==> next.ask == (
            if s.has_ip {
                StartAsk::ReportRunning(i, a)
            } else {
                StartAsk::AddressAfterInit(i, a)
            })
            &&& s.ask == StartAsk::AddressAfterInit(i, a) && answer != StartAnswer::Error
                ==> next.ask == StartAsk::ReportRunning(i, a) && (answer == StartAnswer::Yes
                ==> next.has_ip)
            &&& s.ask == StartAsk::AddressAfterInit(i, a) && answer == StartAnswer::Error
                ==> next.ask == StartAsk::Failed
            &&& s.ask == StartAsk::StartSidecar(i) && answer != StartAnswer::Error ==> next.ask == (
            if s.has_ip {
                from_sidecar(pod, (i + 1) as nat)
            } else {
                StartAsk::AddressAfterSidecar(i)
            })
            &&& s.ask == StartAsk::AddressAfterSidecar(i) && answer != StartAnswer::Error
                ==> next.ask == from_sidecar(pod, (i + 1) as nat) && (answer == StartAnswer::Yes
                ==> next.has_ip)
            &&& s.ask == StartAsk::AddressAfterSidecar(i) && answer == StartAnswer::Error
                ==> next.ask == StartAsk::Failed
            &&& s.ask == StartAsk::ReportDone(i) ==> next.ask == from_init(pod, (i + 1) as nat)
            &&& s.ask == StartAsk::Settle ==> next.ask == StartAsk::Done
        }),
{
}

/// What is said of an init container that failed names it, and says its code where the daemon
/// gave no words, or after how many seconds it is tried again.
pub proof fn law_failures_are_told_in_full(name: Seq<char>, s: WaitState, seconds: u64)
    ensures
        s.error is None ==> text::ends(
            failure_text(name, s),
            ": "@ + ("Exit code: "@ + number::decimal(wait_code(s) as int)),
        ),
        retry_text(name, seconds) == "Init container "@ + name + " failed, retrying in "@
            + number::decimal(seconds as int) + "s"@,
{
    if s.error is None {
        let code = number::decimal(wait_code(s) as int);
        let tail = ": "@ + ("Exit code: "@ + code);
        let t = failure_text(name, s);
        assert(t.skip(t.len() - tail.len()) =~= tail);
    }
}

} // verus!
