//! The status of a pod's containers, from what the daemon says of them and what was known
//! of them before.

use crate::api;
use crate::api::{
    Container, ContainerState, ContainerStatus, EphemeralContainer, Phase, Pod,
    ResourceRequirements, Timestamp,
};
use crate::container::{copy_text, ContainerStatusKind};
use crate::daemon::ContainerSummary;
use crate::names;
use crate::number;
use crate::runtime::ContainerRuntime;
use crate::stop::EndState;
use crate::text;
use crate::time;
use vstd::prelude::*;
use vstd::string::*;
use vstd::utf8::*;

verus! {

/// What the daemon says of a container, its times in words.
#[derive(Clone, Debug, Default)]
pub struct ContainerInspect {
    pub id: Option<String>,
    pub image: Option<String>,
    pub restart_count: Option<i64>,
    pub running: Option<bool>,
    /// The daemon says that it has exited.
    pub exited: bool,
    pub exit_code: Option<i64>,
    pub error: Option<String>,
    pub started_at: Option<String>,
    pub finished_at: Option<String>,
}

/// What the daemon says of a container.
#[derive(Clone, Debug, Default)]
pub struct Inspection {
    pub id: Option<String>,
    pub image: Option<String>,
    pub restart_count: Option<i64>,
    pub running: bool,
    /// The daemon says that it has exited.
    pub exited: bool,
    pub exit_code: Option<i64>,
    pub error: Option<String>,
    pub started_at: Option<Timestamp>,
    /// The daemon gives an end, whether or not it says a time.
    pub finished: bool,
    pub finished_at: Option<Timestamp>,
}

/// It says what the daemon says, with the times read.
pub open spec fn reads(i: Inspection, c: ContainerInspect) -> bool {
    &&& text::opt_text(i.id) == text::opt_text(c.id)
    &&& text::opt_text(i.image) == text::opt_text(c.image)
    &&& i.restart_count == c.restart_count
    &&& i.running == (c.running == Some(true))
    &&& i.exited == c.exited
    &&& i.exit_code == c.exit_code
    &&& text::opt_text(i.error) == text::opt_text(c.error)
    &&& i.started_at == time::opt_time_of(text::opt_text(c.started_at))
    &&& i.finished == (c.finished_at is Some)
    &&& i.finished_at == time::opt_time_of(text::opt_text(c.finished_at))
}

/// The point in time that an optional text says.
fn read_time(s: &Option<String>) -> (r: Option<Timestamp>)
    ensures
        r == time::opt_time_of(text::opt_text(*s)),
{
    match s {
        Some(t) => time::parse_time(t.as_str()),
        None => None,
    }
}

/// What the daemon says of a container, with the times read.
pub fn read_inspection(c: &ContainerInspect) -> (r: Inspection)
    ensures
        reads(r, *c),
{
    Inspection {
        id: copy_text(&c.id),
        image: copy_text(&c.image),
        restart_count: c.restart_count,
        running: match c.running {
            Some(b) => b,
            None => false,
        },
        exited: c.exited,
        exit_code: c.exit_code,
        error: copy_text(&c.error),
        started_at: read_time(&c.started_at),
        finished: c.finished_at.is_some(),
        finished_at: read_time(&c.finished_at),
    }
}

/// The state of a container, its texts as characters.
pub ghost enum StateView {
    Waiting { reason: Option<Seq<char>>, message: Option<Seq<char>> },
    Running { started_at: Option<Timestamp> },
    Terminated {
        exit_code: i32,
        signal: Option<i32>,
        reason: Option<Seq<char>>,
        message: Option<Seq<char>>,
        started_at: Option<Timestamp>,
        finished_at: Option<Timestamp>,
        container_id: Option<Seq<char>>,
    },
}

/// A state with its texts as characters.
pub open spec fn state_view(s: ContainerState) -> StateView {
    match s {
        ContainerState::Waiting { reason, message } => StateView::Waiting {
            reason: text::opt_text(reason),
            message: text::opt_text(message),
        },
        ContainerState::Running { started_at } => StateView::Running { started_at },
        ContainerState::Terminated {
            exit_code,
            signal,
            reason,
            message,
            started_at,
            finished_at,
            container_id,
        } => StateView::Terminated {
            exit_code,
            signal,
            reason: text::opt_text(reason),
            message: text::opt_text(message),
            started_at,
            finished_at,
            container_id: text::opt_text(container_id),
        },
    }
}

/// An optional state with its texts as characters.
pub open spec fn opt_state_view(s: Option<ContainerState>) -> Option<StateView> {
    match s {
        Some(x) => Some(state_view(x)),
        None => None,
    }
}

/// Amounts by the names of the resources.
pub open spec fn opt_pairs(p: Option<Vec<(String, String)>>) -> Option<
    Seq<(Seq<char>, Seq<char>)>,
> {
    match p {
        Some(v) => Some(api::pair_texts(v@)),
        None => None,
    }
}

/// What a container asks for and may use.
pub ghost struct ResourcesView {
    pub limits: Option<Seq<(Seq<char>, Seq<char>)>>,
    pub requests: Option<Seq<(Seq<char>, Seq<char>)>>,
}

/// Resources with their texts as characters.
pub open spec fn resources_view(r: Option<ResourceRequirements>) -> Option<ResourcesView> {
    match r {
        Some(x) => Some(
            ResourcesView { limits: opt_pairs(x.limits), requests: opt_pairs(x.requests) },
        ),
        None => None,
    }
}

/// What a container asks for.
pub open spec fn requests_of(r: Option<ResourceRequirements>) -> Option<
    Seq<(Seq<char>, Seq<char>)>,
> {
    match r {
        Some(x) => opt_pairs(x.requests),
        None => None,
    }
}

/// The status of a container, its texts as characters.
pub ghost struct StatusView {
    pub name: Seq<char>,
    pub ready: bool,
    pub restart_count: u32,
    pub state: Option<StateView>,
    pub last_state: Option<StateView>,
    pub image: Option<Seq<char>>,
    pub image_id: Option<Seq<char>>,
    pub container_id: Option<Seq<char>>,
    pub started: Option<bool>,
    pub allocated_resources: Option<Seq<(Seq<char>, Seq<char>)>>,
    pub resources: Option<ResourcesView>,
    pub allocated_resources_status: Option<Seq<char>>,
    pub user: Option<Seq<char>>,
    pub volume_mounts: Option<Seq<char>>,
    pub stop_signal: Option<Seq<char>>,
}

/// A status with its texts as characters.
pub open spec fn status_view(s: ContainerStatus) -> StatusView {
    StatusView {
        name: s.name@,
        ready: s.ready,
        restart_count: s.restart_count,
        state: opt_state_view(s.state),
        last_state: opt_state_view(s.last_state),
        image: text::opt_text(s.image),
        image_id: text::opt_text(s.image_id),
        container_id: text::opt_text(s.container_id),
        started: s.started,
        allocated_resources: opt_pairs(s.allocated_resources),
        resources: resources_view(s.resources),
        allocated_resources_status: text::opt_text(s.allocated_resources_status),
        user: text::opt_text(s.user),
        volume_mounts: text::opt_text(s.volume_mounts),
        stop_signal: text::opt_text(s.stop_signal),
    }
}

/// The first status with the name.
pub open spec fn status_named(v: Seq<ContainerStatus>, name: Seq<char>) -> Option<ContainerStatus>
    decreases v.len(),
{
    if v.len() == 0 {
        None
    } else if v[0].name@ == name {
        Some(v[0])
    } else {
        status_named(v.drop_first(), name)
    }
}

/// The status that a pod's container had.
pub open spec fn container_before(pod: Pod, name: Seq<char>) -> Option<ContainerStatus> {
    match pod.status {
        Some(s) => match s.container_statuses {
            Some(v) => status_named(v@, name),
            None => None,
        },
        None => None,
    }
}

/// The status that a pod's init container had.
pub open spec fn init_before(pod: Pod, name: Seq<char>) -> Option<ContainerStatus> {
    match pod.status {
        Some(s) => match s.init_container_statuses {
            Some(v) => status_named(v@, name),
            None => None,
        },
        None => None,
    }
}

/// A container's identity as it is reported.
pub open spec fn id_text(id: Option<Seq<char>>) -> Option<Seq<char>> {
    match id {
        Some(i) => Some("docker://"@ + i),
        None => None,
    }
}

/// An image's identity as it is reported.
pub open spec fn image_id_text(image: Option<Seq<char>>) -> Option<Seq<char>> {
    match image {
        Some(i) => Some(
            if text::begins(i, "sha256:"@) {
                "docker-pullable://"@ + i
            } else {
                i
            },
        ),
        None => None,
    }
}

/// The code that a container ended with, 0 where none is given.
pub open spec fn code_of(i: Inspection) -> i64 {
    match i.exit_code {
        Some(c) => c,
        None => 0,
    }
}

/// The error that the daemon gives, or else the words.
pub open spec fn error_or(e: Option<String>, words: Seq<char>) -> Seq<char> {
    match e {
        Some(x) if x@.len() > 0 => x@,
        _ => words,
    }
}

/// Waiting for a reason, with nothing more to say.
pub open spec fn waiting_for(reason: Seq<char>) -> StateView {
    StateView::Waiting { reason: Some(reason), message: None }
}

/// The state of an application container.
pub open spec fn app_state(i: Inspection, message: Option<Seq<char>>) -> StateView {
    let code = code_of(i);
    if i.running {
        StateView::Running { started_at: i.started_at }
    } else if i.exited || i.finished {
        StateView::Terminated {
            exit_code: code as i32,
            signal: None,
            reason: Some(
                if code == 0 {
                    "Completed"@
                } else if code == 137 {
                    error_or(i.error, "OOMKilled"@)
                } else {
                    error_or(i.error, "Error"@)
                },
            ),
            message,
            started_at: i.started_at,
            finished_at: i.finished_at,
            container_id: id_text(text::opt_text(i.id)),
        }
    } else {
        waiting_for("ContainerCreating"@)
    }
}

/// The count of a container's restarts: the daemon's or the one reported before,
/// whichever is higher.
pub open spec fn restarts(i: Inspection, before: Option<ContainerStatus>) -> u32 {
    let daemon = match i.restart_count {
        Some(c) => c as u32,
        None => 0u32,
    };
    let known = match before {
        Some(s) => s.restart_count,
        None => 0u32,
    };
    if daemon >= known {
        daemon
    } else {
        known
    }
}

/// What was observed of an application container.
#[derive(Clone, Debug, Default)]
pub struct Observation {
    /// What the daemon says of it, where there is such a container.
    pub inspection: Option<Inspection>,
    /// The message that it left when it ended.
    pub message: Option<String>,
    /// Its startup probe, where it has one, says that it has started up.
    pub started_up: bool,
    /// Its readiness probe, where it has one, says that it is ready.
    pub ready: bool,
}

/// The pod has init containers.
pub open spec fn has_init_containers(pod: Pod) -> bool {
    pod.spec matches Some(s) && s.init_containers matches Some(v) && v@.len() > 0
}

/// The status of an application container. One that is gone keeps the status that it
/// had.
pub open spec fn app_status(pod: Pod, c: Container, o: Observation) -> StatusView {
    let before = container_before(pod, c.name@);
    match o.inspection {
        Some(i) => StatusView {
            name: c.name@,
            ready: i.running && o.started_up && o.ready,
            restart_count: restarts(i, before),
            state: Some(app_state(i, text::opt_text(o.message))),
            last_state: match before {
                Some(s) => opt_state_view(s.last_state),
                None => None,
            },
            image: Some(c.image@),
            image_id: image_id_text(text::opt_text(i.image)),
            container_id: id_text(text::opt_text(i.id)),
            started: Some(i.running && o.started_up),
            allocated_resources: requests_of(c.resources),
            resources: resources_view(c.resources),
            allocated_resources_status: None,
            user: None,
            volume_mounts: None,
            stop_signal: None,
        },
        None => match before {
            Some(s) => status_view(s),
            None => StatusView {
                name: c.name@,
                ready: false,
                restart_count: 0,
                state: Some(
                    waiting_for(
                        if has_init_containers(pod) {
                            "PodInitializing"@
                        } else {
                            "ContainerCreating"@
                        },
                    ),
                ),
                last_state: None,
                image: Some(c.image@),
                image_id: None,
                container_id: None,
                started: Some(false),
                allocated_resources: requests_of(c.resources),
                resources: resources_view(c.resources),
                allocated_resources_status: None,
                user: None,
                volume_mounts: None,
                stop_signal: None,
            },
        },
    }
}

/// A container that the daemon has is reported as ready only while it runs and has started
/// up, and as started up only while it runs.
pub proof fn law_ready_only_while_running(pod: Pod, c: Container, o: Observation)
    requires
        o.inspection is Some,
    ensures
        ({
            let r = app_status(pod, c, o);
            &&& r.ready ==> r.state is Some && r.state->0 is Running && r.started == Some(true)
            &&& r.started == Some(true) ==> r.state is Some && r.state->0 is Running
        }),
{
}

/// A count of restarts never goes down, whatever the daemon says of the container.
pub proof fn law_restart_counts_never_decrease(pod: Pod, c: Container, o: Observation)
    ensures
        container_before(pod, c.name@) matches Some(s) ==> app_status(pod, c, o).restart_count
            >= s.restart_count,
{
}

/// The state, container and image of an init container, and whether it is one that the
/// daemon has.
pub ghost struct InitView {
    pub state: StateView,
    pub container_id: Option<Seq<char>>,
    pub image_id: Option<Seq<char>>,
}

/// An init container that waits, and is no container yet.
pub open spec fn init_waiting(reason: Seq<char>, message: Option<Seq<char>>) -> InitView {
    InitView {
        state: StateView::Waiting { reason: Some(reason), message },
        container_id: None,
        image_id: None,
    }
}

/// An init container that the daemon has.
pub open spec fn init_inspected(i: Inspection, message: Option<Seq<char>>) -> InitView {
    let code = code_of(i) as i32;
    let id = id_text(text::opt_text(i.id));
    InitView {
        state: if i.running {
            StateView::Running { started_at: i.started_at }
        } else if i.finished || i.exited {
            StateView::Terminated {
                exit_code: code,
                signal: None,
                reason: Some(
                    if code == 0 {
                        "Completed"@
                    } else {
                        error_or(i.error, "Error"@)
                    },
                ),
                message,
                started_at: i.started_at,
                finished_at: i.finished_at,
                container_id: id,
            }
        } else {
            waiting_for("PodInitializing"@)
        },
        container_id: id,
        image_id: image_id_text(text::opt_text(i.image)),
    }
}

/// The policy by which a pod's containers are restarted, `Always` where it sets none.
pub open spec fn restart_policy_of(pod: Pod) -> Seq<char> {
    match pod.spec {
        Some(s) => match s.restart_policy {
            Some(p) if p@.len() > 0 => p@,
            _ => "Always"@,
        },
        None => "Always"@,
    }
}

/// An init container that the daemon no longer has, by the status that it had.
pub open spec fn init_gone(
    pod: Pod,
    name: Seq<char>,
    before: Option<ContainerStatus>,
    apps_exist: bool,
    now: Timestamp,
) -> InitView {
    match before {
        Some(s) => match s.state {
            Some(ContainerState::Terminated { exit_code, .. }) => if exit_code == 0 {
                InitView {
                    state: state_view(s.state->0),
                    container_id: text::opt_text(s.container_id),
                    image_id: text::opt_text(s.image_id),
                }
            } else if restart_policy_of(pod) == "Always"@ {
                init_waiting(
                    "CrashLoopBackOff"@,
                    Some(
                        "back-off restarting failed container init container \""@ + name
                            + "\" exited with "@ + number::decimal(exit_code as int),
                    ),
                )
            } else {
                init_waiting("PodInitializing"@, None)
            },
            Some(ContainerState::Waiting { reason, message }) => if text::opt_text(reason) == Some(
                "CrashLoopBackOff"@,
            ) {
                init_waiting("CrashLoopBackOff"@, text::opt_text(message))
            } else {
                init_waiting("PodInitializing"@, None)
            },
            Some(ContainerState::Running { started_at }) => InitView {
                state: StateView::Terminated {
                    exit_code: 0,
                    signal: None,
                    reason: Some("Completed"@),
                    message: None,
                    started_at,
                    finished_at: Some(now),
                    container_id: text::opt_text(s.container_id),
                },
                container_id: text::opt_text(s.container_id),
                image_id: text::opt_text(s.image_id),
            },
            None => init_waiting("PodInitializing"@, None),
        },
        None => if apps_exist || pod_has_ended(pod) {
            InitView {
                state: StateView::Terminated {
                    exit_code: 0,
                    signal: None,
                    reason: Some("Completed"@),
                    message: None,
                    started_at: None,
                    finished_at: None,
                    container_id: None,
                },
                container_id: None,
                image_id: None,
            }
        } else {
            init_waiting("PodInitializing"@, None)
        },
    }
}

/// The pod has succeeded or failed.
pub open spec fn pod_has_ended(pod: Pod) -> bool {
    pod.status matches Some(s) && (s.phase == Some(Phase::Succeeded) || s.phase == Some(
        Phase::Failed,
    ))
}

/// The status says that the container failed.
pub open spec fn failed(s: Option<ContainerState>) -> bool {
    s matches Some(ContainerState::Terminated { exit_code, .. }) && exit_code != 0
}

/// The failure of an init container is another one than the status tells of.
pub open spec fn is_new_failure(before: ContainerStatus, container_id: Option<Seq<char>>) -> bool {
    match before.state {
        Some(ContainerState::Waiting { .. }) => true,
        Some(ContainerState::Terminated { .. }) => text::opt_text(before.container_id)
            != container_id,
        _ => false,
    }
}

/// The count of an init container's restarts, given its new state.
pub open spec fn init_restarts(before: Option<ContainerStatus>, v: InitView) -> int {
    match before {
        None => 0,
        Some(s) => {
            let counts = match v.state {
                StateView::Terminated { exit_code, .. } => exit_code != 0 && is_new_failure(
                    s,
                    v.container_id,
                ),
                StateView::Waiting { reason, .. } => reason == Some("CrashLoopBackOff"@) && failed(
                    s.state,
                ),
                StateView::Running { .. } => false,
            };
            if counts {
                s.restart_count + 1
            } else {
                s.restart_count as int
            }
        },
    }
}

/// The state that an init container had before its new one: a failure that the new one
/// takes the place of, or else what was known.
pub open spec fn init_last_state(before: Option<ContainerStatus>, v: InitView) -> Option<
    StateView,
> {
    match before {
        None => None,
        Some(s) => {
            let replaced = match v.state {
                StateView::Terminated { exit_code, .. } => exit_code != 0,
                StateView::Waiting { reason, .. } => reason == Some("CrashLoopBackOff"@),
                StateView::Running { .. } => false,
            };
            if replaced && failed(s.state) {
                opt_state_view(s.state)
            } else {
                opt_state_view(s.last_state)
            }
        },
    }
}

/// What was observed of an init container.
#[derive(Clone, Debug, Default)]
pub struct InitObservation {
    /// What the daemon says of it, where there is such a container.
    pub inspection: Option<Inspection>,
    /// The message that it left when it ended.
    pub message: Option<String>,
}

/// The state, container and image of an init container.
pub open spec fn init_view(
    pod: Pod,
    c: Container,
    o: InitObservation,
    apps_exist: bool,
    now: Timestamp,
) -> InitView {
    match o.inspection {
        Some(i) => init_inspected(i, text::opt_text(o.message)),
        None => init_gone(pod, c.name@, init_before(pod, c.name@), apps_exist, now),
    }
}

/// The status of an init container. It is ready once it has succeeded.
pub open spec fn init_status(
    pod: Pod,
    c: Container,
    o: InitObservation,
    apps_exist: bool,
    now: Timestamp,
) -> StatusView {
    let before = init_before(pod, c.name@);
    let v = init_view(pod, c, o, apps_exist, now);
    StatusView {
        name: c.name@,
        ready: v.state is Terminated && v.state->exit_code == 0,
        restart_count: init_restarts(before, v) as u32,
        state: Some(v.state),
        last_state: init_last_state(before, v),
        image: Some(c.image@),
        image_id: v.image_id,
        container_id: v.container_id,
        started: Some(v.state is Running || v.state is Terminated),
        allocated_resources: requests_of(c.resources),
        resources: resources_view(c.resources),
        allocated_resources_status: None,
        user: None,
        volume_mounts: None,
        stop_signal: None,
    }
}

/// The count of an init container's restarts is not at its end.
pub open spec fn restarts_have_room(pod: Pod) -> bool {
    pod.status matches Some(s) ==> s.init_container_statuses matches Some(v) ==> forall|i: int|
        0 <= i < v@.len() ==> (#[trigger] v@[i]).restart_count < u32::MAX
}

/// A count of an init container's restarts never goes down, and never up by more than
/// one.
pub proof fn law_init_restart_counts_grow_by_one(
    pod: Pod,
    c: Container,
    o: InitObservation,
    apps_exist: bool,
    now: Timestamp,
)
    requires
        init_before(pod, c.name@) matches Some(s) && s.restart_count < u32::MAX,
    ensures
        ({
            let s = init_before(pod, c.name@)->0;
            let r = init_status(pod, c, o, apps_exist, now).restart_count;
            s.restart_count <= r <= s.restart_count + 1
        }),
{
}

/// An init container that succeeded stays so when the daemon no longer has it.
pub proof fn law_init_success_outlives_the_container(
    pod: Pod,
    c: Container,
    message: Option<String>,
    apps_exist: bool,
    now: Timestamp,
)
    requires
        init_before(pod, c.name@) matches Some(s) && s.state matches Some(
            ContainerState::Terminated { exit_code, .. },
        ) && exit_code == 0,
    ensures
        ({
            let s = init_before(pod, c.name@)->0;
            let o = InitObservation { inspection: None, message };
            let r = init_status(pod, c, o, apps_exist, now);
            &&& r.ready
            &&& r.state == opt_state_view(s.state)
            &&& r.restart_count == s.restart_count
        }),
{
}

/// The status of an ephemeral container.
pub open spec fn ephemeral_status(c: EphemeralContainer, inspection: Option<Inspection>) -> StatusView {
    match inspection {
        Some(i) => StatusView {
            name: c.name@,
            ready: i.running,
            restart_count: 0,
            state: Some(
                if i.running {
                    StateView::Running { started_at: i.started_at }
                } else if i.finished {
                    StateView::Terminated {
                        exit_code: code_of(i) as i32,
                        signal: None,
                        reason: Some(
                            if code_of(i) == 0 {
                                "Completed"@
                            } else {
                                "Error"@
                            },
                        ),
                        message: None,
                        started_at: i.started_at,
                        finished_at: i.finished_at,
                        container_id: id_text(text::opt_text(i.id)),
                    }
                } else {
                    waiting_for("ContainerCreating"@)
                },
            ),
            last_state: None,
            image: Some(c.image@),
            image_id: match i.image {
                Some(x) => Some("docker-pullable://"@ + x@),
                None => None,
            },
            container_id: id_text(text::opt_text(i.id)),
            started: Some(i.running),
            allocated_resources: None,
            resources: resources_view(c.resources),
            allocated_resources_status: None,
            user: None,
            volume_mounts: None,
            stop_signal: None,
        },
        None => StatusView {
            name: c.name@,
            ready: false,
            restart_count: 0,
            state: Some(waiting_for("ContainerCreating"@)),
            last_state: None,
            image: Some(c.image@),
            image_id: None,
            container_id: None,
            started: Some(false),
            allocated_resources: None,
            resources: resources_view(c.resources),
            allocated_resources_status: None,
            user: None,
            volume_mounts: None,
            stop_signal: None,
        },
    }
}

/// The same state once more.
pub fn copy_state(s: &ContainerState) -> (r: ContainerState)
    ensures
        state_view(r) == state_view(*s),
{
    match s {
        ContainerState::Waiting { reason, message } => ContainerState::Waiting {
            reason: copy_text(reason),
            message: copy_text(message),
        },
        ContainerState::Running { started_at } => ContainerState::Running {
            started_at: *started_at,
        },
        ContainerState::Terminated {
            exit_code,
            signal,
            reason,
            message,
            started_at,
            finished_at,
            container_id,
        } => ContainerState::Terminated {
            exit_code: *exit_code,
            signal: *signal,
            reason: copy_text(reason),
            message: copy_text(message),
            started_at: *started_at,
            finished_at: *finished_at,
            container_id: copy_text(container_id),
        },
    }
}

/// The same state once more.
pub fn copy_opt_state(s: &Option<ContainerState>) -> (r: Option<ContainerState>)
    ensures
        opt_state_view(r) == opt_state_view(*s),
{
    match s {
        Some(x) => Some(copy_state(x)),
        None => None,
    }
}

/// The same pairs once more.
pub fn copy_pairs(p: &Vec<(String, String)>) -> (r: Vec<(String, String)>)
    ensures
        api::pair_texts(r@) == api::pair_texts(p@),
{
    let mut r: Vec<(String, String)> = Vec::new();
    let mut i: usize = 0;
    while i < p.len()
        invariant
            i <= p@.len(),
            r@.len() == i,
            forall|j: int|
                0 <= j < i ==> (#[trigger] r@[j]).0@ == p@[j].0@ && r@[j].1@ == p@[j].1@,
        decreases p@.len() - i,
    {
        r.push((p[i].0.clone(), p[i].1.clone()));
        i += 1;
    }
    assert(api::pair_texts(r@) =~= api::pair_texts(p@));
    r
}

/// The same pairs once more.
pub fn copy_opt_pairs(p: &Option<Vec<(String, String)>>) -> (r: Option<Vec<(String, String)>>)
    ensures
        opt_pairs(r) == opt_pairs(*p),
{
    match p {
        Some(v) => Some(copy_pairs(v)),
        None => None,
    }
}

/// The same resources once more.
pub fn copy_resources(p: &Option<ResourceRequirements>) -> (r: Option<ResourceRequirements>)
    ensures
        resources_view(r) == resources_view(*p),
{
    match p {
        Some(x) => Some(
            ResourceRequirements {
                limits: copy_opt_pairs(&x.limits),
                requests: copy_opt_pairs(&x.requests),
            },
        ),
        None => None,
    }
}

/// What a container asks for.
fn copy_requests(p: &Option<ResourceRequirements>) -> (r: Option<Vec<(String, String)>>)
    ensures
        opt_pairs(r) == requests_of(*p),
{
    match p {
        Some(x) => copy_opt_pairs(&x.requests),
        None => None,
    }
}

/// The same status once more.
pub fn copy_status(s: &ContainerStatus) -> (r: ContainerStatus)
    ensures
        status_view(r) == status_view(*s),
{
    ContainerStatus {
        name: s.name.clone(),
        ready: s.ready,
        restart_count: s.restart_count,
        state: copy_opt_state(&s.state),
        last_state: copy_opt_state(&s.last_state),
        image: copy_text(&s.image),
        image_id: copy_text(&s.image_id),
        container_id: copy_text(&s.container_id),
        started: s.started,
        allocated_resources: copy_opt_pairs(&s.allocated_resources),
        resources: copy_resources(&s.resources),
        allocated_resources_status: copy_text(&s.allocated_resources_status),
        user: copy_text(&s.user),
        volume_mounts: copy_text(&s.volume_mounts),
        stop_signal: copy_text(&s.stop_signal),
    }
}

/// The first status with the name.
pub fn find_status<'a>(v: &'a Vec<ContainerStatus>, name: &str) -> (r: Option<&'a ContainerStatus>)
    ensures
        (match r {
            Some(s) => Some(*s),
            None => None,
        }) == status_named(v@, name@),
        r matches Some(s) ==> v@.contains(*s),
{
    let mut i: usize = 0;
    assert(v@.skip(0) == v@);
    while i < v.len()
        invariant
            i <= v@.len(),
            status_named(v@, name@) == status_named(v@.skip(i as int), name@),
        decreases v@.len() - i,
    {
        assert(v@.skip(i as int).drop_first() == v@.skip(i as int + 1));
        assert(v@.skip(i as int)[0] == v@[i as int]);
        if text::same(v[i].name.as_str(), name) {
            return Some(&v[i]);
        }
        i += 1;
    }
    None
}

/// The status that a pod's container had.
pub fn previous_status<'a>(pod: &'a Pod, name: &str) -> (r: Option<&'a ContainerStatus>)
    ensures
        (match r {
            Some(s) => Some(*s),
            None => None,
        }) == container_before(*pod, name@),
{
    match &pod.status {
        Some(s) => match &s.container_statuses {
            Some(v) => find_status(v, name),
            None => None,
        },
        None => None,
    }
}

/// The status that a pod's init container had.
pub fn previous_init_status<'a>(pod: &'a Pod, name: &str) -> (r: Option<&'a ContainerStatus>)
    ensures
        (match r {
            Some(s) => Some(*s),
            None => None,
        }) == init_before(*pod, name@),
        restarts_have_room(*pod) && r is Some ==> r->0.restart_count < u32::MAX,
{
    match &pod.status {
        Some(s) => match &s.init_container_statuses {
            Some(v) => find_status(v, name),
            None => None,
        },
        None => None,
    }
}

/// A container's identity as it is reported.
pub fn reported_id(id: &Option<String>) -> (r: Option<String>)
    ensures
        text::opt_text(r) == id_text(text::opt_text(*id)),
{
    match id {
        Some(i) => Some(text::cat2("docker://", i.as_str())),
        None => None,
    }
}

/// An image's identity as it is reported.
pub fn reported_image_id(image: &Option<String>) -> (r: Option<String>)
    ensures
        text::opt_text(r) == image_id_text(text::opt_text(*image)),
{
    match image {
        Some(i) => {
            if text::starts_with(i.as_str(), "sha256:") {
                Some(text::cat2("docker-pullable://", i.as_str()))
            } else {
                Some(i.clone())
            }
        },
        None => None,
    }
}

/// The code that a container ended with, 0 where none is given.
fn exit_code_of(i: &Inspection) -> (r: i64)
    ensures
        r == code_of(*i),
{
    match i.exit_code {
        Some(c) => c,
        None => 0,
    }
}

/// The error that the daemon gives, or else the words.
fn error_words(e: &Option<String>, words: &str) -> (r: String)
    ensures
        r@ == error_or(*e, words@),
{
    match e {
        Some(x) => {
            if x.as_str().is_empty() {
                assert(x@.len() == 0);
                String::from_str(words)
            } else {
                x.clone()
            }
        },
        None => String::from_str(words),
    }
}

/// Waiting for a reason, with nothing more to say.
pub fn waiting(reason: &str) -> (r: ContainerState)
    ensures
        state_view(r) == waiting_for(reason@),
{
    ContainerState::Waiting { reason: Some(String::from_str(reason)), message: None }
}

/// The state of an application container.
fn state_of_app(i: &Inspection, message: &Option<String>) -> (r: ContainerState)
    ensures
        state_view(r) == app_state(*i, text::opt_text(*message)),
{
    let code: i64 = exit_code_of(i);
    if i.running {
        ContainerState::Running { started_at: i.started_at }
    } else if i.exited || i.finished {
        let reason = if code == 0 {
            "Completed".to_string()
        } else if code == 137 {
            error_words(&i.error, "OOMKilled")
        } else {
            error_words(&i.error, "Error")
        };
        ContainerState::Terminated {
            exit_code: code as i32,
            signal: None,
            reason: Some(reason),
            message: copy_text(message),
            started_at: i.started_at,
            finished_at: i.finished_at,
            container_id: reported_id(&i.id),
        }
    } else {
        waiting("ContainerCreating")
    }
}

/// Whether the pod has init containers.
fn inits_exist(pod: &Pod) -> (r: bool)
    ensures
        r == has_init_containers(*pod),
{
    match &pod.spec {
        Some(s) => match &s.init_containers {
            Some(v) => v.len() > 0,
            None => false,
        },
        None => false,
    }
}

/// The status of an application container.
fn status_of_app(pod: &Pod, c: &Container, o: &Observation) -> (r: ContainerStatus)
    ensures
        status_view(r) == app_status(*pod, *c, *o),
{
    let before = previous_status(pod, c.name.as_str());
    match &o.inspection {
        Some(i) => {
            let daemon: u32 = match i.restart_count {
                Some(n) => n as u32,
                None => 0,
            };
            let known: u32 = match before {
                Some(s) => s.restart_count,
                None => 0,
            };
            ContainerStatus {
                name: c.name.clone(),
                ready: i.running && o.started_up && o.ready,
                restart_count: if daemon >= known {
                    daemon
                } else {
                    known
                },
                state: Some(state_of_app(i, &o.message)),
                last_state: match before {
                    Some(s) => copy_opt_state(&s.last_state),
                    None => None,
                },
                image: Some(c.image.clone()),
                image_id: reported_image_id(&i.image),
                container_id: reported_id(&i.id),
                started: Some(i.running && o.started_up),
                allocated_resources: copy_requests(&c.resources),
                resources: copy_resources(&c.resources),
                allocated_resources_status: None,
                user: None,
                volume_mounts: None,
                stop_signal: None,
            }
        },
        None => match before {
            Some(s) => copy_status(s),
            None => {
                let reason = if inits_exist(pod) {
                    "PodInitializing"
                } else {
                    "ContainerCreating"
                };
                ContainerStatus {
                    name: c.name.clone(),
                    ready: false,
                    restart_count: 0,
                    state: Some(waiting(reason)),
                    last_state: None,
                    image: Some(c.image.clone()),
                    image_id: None,
                    container_id: None,
                    started: Some(false),
                    allocated_resources: copy_requests(&c.resources),
                    resources: copy_resources(&c.resources),
                    allocated_resources_status: None,
                    user: None,
                    volume_mounts: None,
                    stop_signal: None,
                }
            },
        },
    }
}

/// The policy by which a pod's containers are restarted, `Always` where it sets none.
pub fn effective_restart_policy(pod: &Pod) -> (r: &str)
    ensures
        r@ == restart_policy_of(*pod),
{
    match &pod.spec {
        Some(s) => match &s.restart_policy {
            Some(p) => {
                if p.as_str().is_empty() {
                    assert(p@.len() == 0);
                    "Always"
                } else {
                    p.as_str()
                }
            },
            None => "Always",
        },
        None => "Always",
    }
}

/// The state, container and image of an init container.
struct InitParts {
    state: ContainerState,
    container_id: Option<String>,
    image_id: Option<String>,
}

impl InitParts {
    spec fn view_of(self) -> InitView {
        InitView {
            state: state_view(self.state),
            container_id: text::opt_text(self.container_id),
            image_id: text::opt_text(self.image_id),
        }
    }
}

fn parts_waiting(reason: &str, message: Option<String>) -> (r: InitParts)
    ensures
        r.view_of() == init_waiting(reason@, text::opt_text(message)),
{
    InitParts {
        state: ContainerState::Waiting { reason: Some(String::from_str(reason)), message },
        container_id: None,
        image_id: None,
    }
}

fn parts_inspected(i: &Inspection, message: &Option<String>) -> (r: InitParts)
    ensures
        r.view_of() == init_inspected(*i, text::opt_text(*message)),
{
    let code: i32 = exit_code_of(i) as i32;
    let state = if i.running {
        ContainerState::Running { started_at: i.started_at }
    } else if i.finished || i.exited {
        ContainerState::Terminated {
            exit_code: code,
            signal: None,
            reason: Some(
                if code == 0 {
                    "Completed".to_string()
                } else {
                    error_words(&i.error, "Error")
                },
            ),
            message: copy_text(message),
            started_at: i.started_at,
            finished_at: i.finished_at,
            container_id: reported_id(&i.id),
        }
    } else {
        waiting("PodInitializing")
    };
    InitParts {
        state,
        container_id: reported_id(&i.id),
        image_id: reported_image_id(&i.image),
    }
}

/// Whether the pod has succeeded or failed.
fn ended(pod: &Pod) -> (r: bool)
    ensures
        r == pod_has_ended(*pod),
{
    match &pod.status {
        Some(s) => match s.phase {
            Some(p) => p == Phase::Succeeded || p == Phase::Failed,
            None => false,
        },
        None => false,
    }
}

/// Whether an optional text is the words.
pub fn is_text(o: &Option<String>, words: &str) -> (r: bool)
    ensures
        r == (text::opt_text(*o) == Some(words@)),
{
    match o {
        Some(x) => text::same(x.as_str(), words),
        None => false,
    }
}

fn parts_gone(
    pod: &Pod,
    name: &str,
    before: Option<&ContainerStatus>,
    apps_exist: bool,
    now: Timestamp,
) -> (r: InitParts)
    ensures
        r.view_of() == init_gone(
            *pod,
            name@,
            match before {
                Some(s) => Some(*s),
                None => None,
            },
            apps_exist,
            now,
        ),
{
    let s = match before {
        None => {
            return if apps_exist || ended(pod) {
                InitParts {
                    state: ContainerState::Terminated {
                        exit_code: 0,
                        signal: None,
                        reason: Some("Completed".to_string()),
                        message: None,
                        started_at: None,
                        finished_at: None,
                        container_id: None,
                    },
                    container_id: None,
                    image_id: None,
                }
            } else {
                parts_waiting("PodInitializing", None)
            };
        },
        Some(s) => s,
    };
    match &s.state {
        Some(st) => match st {
            ContainerState::Terminated { exit_code, .. } => {
                if *exit_code == 0 {
                    InitParts {
                        state: copy_state(st),
                        container_id: copy_text(&s.container_id),
                        image_id: copy_text(&s.image_id),
                    }
                } else if text::same(effective_restart_policy(pod), "Always") {
                    let code = number::show_i64(*exit_code as i64);
                    let message = text::cat4(
                        "back-off restarting failed container init container \"",
                        name,
                        "\" exited with ",
                        code.as_str(),
                    );
                    parts_waiting("CrashLoopBackOff", Some(message))
                } else {
                    parts_waiting("PodInitializing", None)
                }
            },
            ContainerState::Waiting { reason, message } => {
                if is_text(reason, "CrashLoopBackOff") {
                    parts_waiting("CrashLoopBackOff", copy_text(message))
                } else {
                    parts_waiting("PodInitializing", None)
                }
            },
            ContainerState::Running { started_at } => InitParts {
                state: ContainerState::Terminated {
                    exit_code: 0,
                    signal: None,
                    reason: Some("Completed".to_string()),
                    message: None,
                    started_at: *started_at,
                    finished_at: Some(now),
                    container_id: copy_text(&s.container_id),
                },
                container_id: copy_text(&s.container_id),
                image_id: copy_text(&s.image_id),
            },
        },
        None => parts_waiting("PodInitializing", None),
    }
}

/// Two optional texts are the same.
fn same_opt(a: &Option<String>, b: &Option<String>) -> (r: bool)
    ensures
        r == (text::opt_text(*a) == text::opt_text(*b)),
{
    match a {
        Some(x) => is_text(b, x.as_str()),
        None => b.is_none(),
    }
}

/// Whether the status says that the container failed.
pub fn has_failed(s: &Option<ContainerState>) -> (r: bool)
    ensures
        r == failed(*s),
{
    match s {
        Some(x) => match x {
            ContainerState::Terminated { exit_code, .. } => *exit_code != 0,
            _ => false,
        },
        None => false,
    }
}

/// Whether a failure is another one than the status tells of.
fn new_failure(before: &ContainerStatus, container_id: &Option<String>) -> (r: bool)
    ensures
        r == is_new_failure(*before, text::opt_text(*container_id)),
{
    match &before.state {
        Some(x) => match x {
            ContainerState::Waiting { .. } => true,
            ContainerState::Terminated { .. } => !same_opt(&before.container_id, container_id),
            _ => false,
        },
        None => false,
    }
}

/// The status of an init container.
fn status_of_init(
    pod: &Pod,
    c: &Container,
    o: &InitObservation,
    apps_exist: bool,
    now: Timestamp,
) -> (r: ContainerStatus)
    requires
        restarts_have_room(*pod),
    ensures
        status_view(r) == init_status(*pod, *c, *o, apps_exist, now),
{
    let before = previous_init_status(pod, c.name.as_str());
    let parts = match &o.inspection {
        Some(i) => parts_inspected(i, &o.message),
        None => parts_gone(pod, c.name.as_str(), before, apps_exist, now),
    };
    let ghost v = parts.view_of();
    assert(v == init_view(*pod, *c, *o, apps_exist, now));
    let mut restart_count: u32 = 0;
    let mut last_state: Option<ContainerState> = None;
    if let Some(s) = before {
        let (fails, backs_off) = match &parts.state {
            ContainerState::Terminated { exit_code, .. } => (*exit_code != 0, false),
            ContainerState::Waiting { reason, .. } => (false, is_text(reason, "CrashLoopBackOff")),
            ContainerState::Running { .. } => (false, false),
        };
        let failed_before = has_failed(&s.state);
        restart_count = s.restart_count;
        if (fails && new_failure(s, &parts.container_id)) || (backs_off && failed_before) {
            restart_count = restart_count + 1;
        }
        last_state = if (fails || backs_off) && failed_before {
            copy_opt_state(&s.state)
        } else {
            copy_opt_state(&s.last_state)
        };
    }
    let (succeeded, started) = match &parts.state {
        ContainerState::Terminated { exit_code, .. } => (*exit_code == 0, true),
        ContainerState::Running { .. } => (false, true),
        ContainerState::Waiting { .. } => (false, false),
    };
    ContainerStatus {
        name: c.name.clone(),
        ready: succeeded,
        restart_count,
        state: Some(parts.state),
        last_state,
        image: Some(c.image.clone()),
        image_id: parts.image_id,
        container_id: parts.container_id,
        started: Some(started),
        allocated_resources: copy_requests(&c.resources),
        resources: copy_resources(&c.resources),
        allocated_resources_status: None,
        user: None,
        volume_mounts: None,
        stop_signal: None,
    }
}

/// The status of an ephemeral container.
fn status_of_ephemeral(c: &EphemeralContainer, inspection: &Option<Inspection>) -> (r:
    ContainerStatus)
    ensures
        status_view(r) == ephemeral_status(*c, *inspection),
{
    match inspection {
        Some(i) => {
            let code: i64 = exit_code_of(i);
            let state = if i.running {
                ContainerState::Running { started_at: i.started_at }
            } else if i.finished {
                ContainerState::Terminated {
                    exit_code: code as i32,
                    signal: None,
                    reason: Some(
                        if code == 0 {
                            "Completed".to_string()
                        } else {
                            "Error".to_string()
                        },
                    ),
                    message: None,
                    started_at: i.started_at,
                    finished_at: i.finished_at,
                    container_id: reported_id(&i.id),
                }
            } else {
                waiting("ContainerCreating")
            };
            ContainerStatus {
                name: c.name.clone(),
                ready: i.running,
                restart_count: 0,
                state: Some(state),
                last_state: None,
                image: Some(c.image.clone()),
                image_id: match &i.image {
                    Some(x) => Some(text::cat2("docker-pullable://", x.as_str())),
                    None => None,
                },
                container_id: reported_id(&i.id),
                started: Some(i.running),
                allocated_resources: None,
                resources: copy_resources(&c.resources),
                allocated_resources_status: None,
                user: None,
                volume_mounts: None,
                stop_signal: None,
            }
        },
        None => ContainerStatus {
            name: c.name.clone(),
            ready: false,
            restart_count: 0,
            state: Some(waiting("ContainerCreating")),
            last_state: None,
            image: Some(c.image.clone()),
            image_id: None,
            container_id: None,
            started: Some(false),
            allocated_resources: None,
            resources: copy_resources(&c.resources),
            allocated_resources_status: None,
            user: None,
            volume_mounts: None,
            stop_signal: None,
        },
    }
}

/// A name of a pod's container list that is neither the pause container's nor an init
/// container's.
pub open spec fn is_app_name(pod: Pod, n: Seq<char>) -> bool {
    let clean = text::trimmed_start(n, '/');
    &&& clean != names::pause_name_text(pod.metadata.name@)
    &&& !is_init_name(pod, clean)
}

/// A name that one of the pod's init containers has.
pub open spec fn is_init_name(pod: Pod, n: Seq<char>) -> bool {
    pod.spec matches Some(s) && s.init_containers matches Some(v) && exists|i: int|
        0 <= i < v@.len() && names::container_name_text(
            pod.metadata.name@,
            (#[trigger] v@[i]).name@,
        ) == n
}

/// The container has a name that no pause and no init container of the pod has.
pub open spec fn is_app_container(pod: Pod, c: ContainerSummary) -> bool {
    c.names matches Some(ns) && exists|i: int|
        0 <= i < ns@.len() && is_app_name(pod, (#[trigger] ns@[i])@)
}

fn init_name(pod: &Pod, n: &str) -> (r: bool)
    ensures
        r == is_init_name(*pod, n@),
{
    if let Some(s) = &pod.spec {
        if let Some(v) = &s.init_containers {
            let mut i: usize = 0;
            while i < v.len()
                invariant
                    i <= v@.len(),
                    pod.spec == Some(*s),
                    s.init_containers == Some(*v),
                    forall|j: int|
                        0 <= j < i ==> names::container_name_text(
                            pod.metadata.name@,
                            (#[trigger] v@[j]).name@,
                        ) != n@,
                decreases v@.len() - i,
            {
                let full = names::container_name(pod.metadata.name.as_str(), v[i].name.as_str());
                if text::same(full.as_str(), n) {
                    assert(names::container_name_text(
                        pod.metadata.name@,
                        v@[i as int].name@,
                    ) == n@);
                    return true;
                }
                i += 1;
            }
        }
    }
    false
}

fn app_container(pod: &Pod, c: &ContainerSummary) -> (r: bool)
    ensures
        r == is_app_container(*pod, *c),
{
    if let Some(ns) = &c.names {
        let pause = names::pause_name(pod.metadata.name.as_str());
        let mut i: usize = 0;
        while i < ns.len()
            invariant
                i <= ns@.len(),
                c.names == Some(*ns),
                pause@ == names::pause_name_text(pod.metadata.name@),
                forall|j: int| 0 <= j < i ==> !is_app_name(*pod, (#[trigger] ns@[j])@),
            decreases ns@.len() - i,
        {
            let clean = text::trim_start_char(ns[i].as_str(), '/');
            if !text::same(clean, pause.as_str()) && !init_name(pod, clean) {
                let ghost all = c.names->0@;
                assert(is_app_name(*pod, all[i as int]@));
                assert(is_app_container(*pod, *c));
                return true;
            }
            i += 1;
        }
    }
    false
}

/// The largest number of bytes, up to `end`, after which the text can be cut.
pub open spec fn cut_before(bytes: Seq<u8>, end: int) -> int
    decreases end,
{
    if end <= 0 || is_char_boundary(bytes, end) {
        end
    } else {
        cut_before(bytes, end - 1)
    }
}

/// The message that a text gives: at most 4096 bytes of it, cut between two characters,
/// none where it is empty.
pub open spec fn short_message(content: Seq<char>) -> Option<Seq<char>> {
    let b = encode_utf8(content);
    if content.len() == 0 {
        None
    } else if b.len() > 4096 {
        Some(decode_utf8(b.subrange(0, cut_before(b, 4096))))
    } else {
        Some(content)
    }
}

/// Whether a container may have left a message: it has ended.
pub fn leaves_message(i: &Inspection) -> (r: bool)
    ensures
        r == (!i.running && (i.exited || i.finished)),
{
    !i.running && (i.exited || i.finished)
}

/// Where the message that a container left comes from.
#[derive(Clone, Debug)]
pub enum TerminationMessage {
    /// There is one.
    Found(String),
    /// It is the end of the container's log.
    Logs,
    /// There is none.
    Nothing,
}

/// The message that a container left, by its file; where that has none, its log is read
/// if it failed and asks for that.
pub open spec fn termination_message(c: Container, content: Option<Seq<char>>, exit_code: i64) -> (
    Option<Seq<char>>,
    bool,
) {
    let found = match content {
        Some(t) => short_message(t),
        None => None,
    };
    (
        found,
        found is None && exit_code != 0 && text::opt_text(c.termination_message_policy) == Some(
            "FallbackToLogsOnError"@,
        ),
    )
}

proof fn lemma_cut_before(bytes: Seq<u8>, end: int)
    requires
        valid_utf8(bytes),
        end >= 0,
    ensures
        0 <= cut_before(bytes, end) <= end,
        is_char_boundary(bytes, cut_before(bytes, end)),
    decreases end,
{
    if end > 0 && !is_char_boundary(bytes, end) {
        lemma_cut_before(bytes, end - 1);
    }
}

/// A message is at most 4096 bytes long, and begins the text that it is read from.
pub proof fn law_messages_are_short(content: Seq<char>)
    ensures
        short_message(content) matches Some(m) ==> {
            &&& encode_utf8(m).len() <= 4096
            &&& text::begins(content, m)
        },
{
    let b = encode_utf8(content);
    if content.len() > 0 {
        if b.len() > 4096 {
            encode_utf8_valid_utf8(content);
            lemma_cut_before(b, 4096);
            let n = cut_before(b, 4096);
            let h = b.subrange(0, n);
            valid_utf8_split(b, n);
            decode_utf8_encode_utf8(h);
            decode_utf8_split(b, n);
            encode_utf8_decode_utf8(content);
            assert(content.take(decode_utf8(h).len() as int) == decode_utf8(h));
        } else {
            assert(content.take(content.len() as int) == content);
        }
    }
}

/// The message that the end of a container's log gives: at most 4096 bytes of it, cut
/// between two characters, none where there is nothing in it.
pub fn read_container_logs_tail(log: &str) -> (r: Option<String>)
    ensures
        text::opt_text(r) == short_message(log@),
        r matches Some(m) ==> encode_utf8(m@).len() <= 4096 && text::begins(log@, m@),
{
    proof {
        law_messages_are_short(log@);
    }
    shorten(log)
}

/// At most 4096 bytes of the text, cut between two characters, none where it is empty.
fn shorten(t: &str) -> (r: Option<String>)
    ensures
        text::opt_text(r) == short_message(t@),
{
    if t.is_empty() {
        assert(t@.len() == 0);
        return None;
    }
    let n: usize = t.as_bytes().len();
    if n <= 4096 {
        return Some(String::from_str(t));
    }
    let mut end: usize = 4096;
    let ghost b = encode_utf8(t@);
    proof {
        encode_utf8_valid_utf8(t@);
        lemma_cut_before(b, 4096);
    }
    while !t.is_char_boundary(end)
        invariant
            0 <= end <= 4096,
            b == encode_utf8(t@),
            valid_utf8(b),
            cut_before(b, 4096) == cut_before(b, end as int),
        decreases end,
    {
        end -= 1;
    }
    let (head, _tail) = t.split_at(end);
    proof {
        encode_utf8_decode_utf8(head@);
        assert(head.spec_bytes() == b.subrange(0, end as int));
    }
    Some(String::from_str(head))
}

/// What the daemon says of an init container, as far as starting the next one depends on
/// it.
#[derive(Clone, Copy, Debug, PartialEq, Eq, Structural)]
pub enum InitProgress {
    /// There is no such container.
    Missing,
    Running,
    /// It has exited, with the code where one is given.
    Exited(Option<i64>),
    /// It is there, in some other state.
    Other,
}

/// What becomes of starting the next init container by what the daemon says of one.
pub open spec fn progress_of(s: Option<EndState>) -> InitProgress {
    match s {
        None => InitProgress::Missing,
        Some(x) => if x.running == Some(true) {
            InitProgress::Running
        } else if x.status == Some(ContainerStatusKind::Exited) {
            InitProgress::Exited(x.exit_code)
        } else {
            InitProgress::Other
        },
    }
}

/// What becomes of starting the next init container by what the daemon says of one.
pub fn init_progress(s: Option<EndState>) -> (r: InitProgress)
    ensures
        r == progress_of(s),
{
    match s {
        None => InitProgress::Missing,
        Some(x) => {
            let running: bool = match x.running {
                Some(b) => b,
                None => false,
            };
            if running {
                return InitProgress::Running;
            }
            match x.status {
                Some(ContainerStatusKind::Exited) => InitProgress::Exited(x.exit_code),
                _ => InitProgress::Other,
            }
        },
    }
}

/// The init container is a sidecar, which does not hold up the next one.
pub open spec fn is_sidecar(c: Container) -> bool {
    text::opt_text(c.restart_policy) == Some("Always"@)
}

/// Whether an init container is a sidecar.
pub fn sidecar(c: &Container) -> (r: bool)
    ensures
        r == is_sidecar(*c),
{
    is_text(&c.restart_policy, "Always")
}

/// What to do about the init containers from position `i` on: whether all are done,
/// which one is to be started, and whether that is because it failed.
pub open spec fn init_actions(
    cs: Seq<Container>,
    ps: Seq<InitProgress>,
    retry: bool,
    i: nat,
) -> (bool, Option<usize>, bool)
    decreases cs.len() - i,
{
    if i >= cs.len() {
        (true, None, false)
    } else if is_sidecar(cs[i as int]) {
        init_actions(cs, ps, retry, i + 1)
    } else {
        match ps[i as int] {
            InitProgress::Running => (false, None, false),
            InitProgress::Exited(code) => if code == Some(0i64) {
                init_actions(cs, ps, retry, i + 1)
            } else if retry {
                (false, Some(i as usize), true)
            } else {
                (false, None, false)
            },
            InitProgress::Missing | InitProgress::Other => (false, Some(i as usize), false),
        }
    }
}

/// The init containers of a pod.
pub open spec fn inits_of(pod: Pod) -> Seq<Container> {
    match pod.spec {
        Some(s) => match s.init_containers {
            Some(v) => v@,
            None => Seq::empty(),
        },
        None => Seq::empty(),
    }
}

/// The init containers are done only when each that is no sidecar has exited with 0; and
/// whichever is to be started, all before it that are no sidecars have.
pub proof fn law_init_containers_run_in_order(
    cs: Seq<Container>,
    ps: Seq<InitProgress>,
    retry: bool,
    i: nat,
)
    requires
        cs.len() <= usize::MAX,
    ensures
        ({
            let (done, start, _again) = init_actions(cs, ps, retry, i);
            &&& done ==> start is None
            &&& done ==> forall|j: int|
                i <= j < cs.len() ==> is_sidecar(#[trigger] cs[j]) || ps[j]
                    == InitProgress::Exited(Some(0i64))
            &&& start matches Some(k) ==> i <= k < cs.len() && !is_sidecar(cs[k as int])
                && forall|j: int|
                i <= j < k ==> is_sidecar(#[trigger] cs[j]) || ps[j] == InitProgress::Exited(
                    Some(0i64),
                )
        }),
    decreases cs.len() - i,
{
    if i < cs.len() {
        if is_sidecar(cs[i as int]) || ps[i as int] == InitProgress::Exited(Some(0i64)) {
            law_init_containers_run_in_order(cs, ps, retry, i + 1);
        }
    }
}

impl ContainerRuntime {
    /// Whether one of the containers that the daemon lists for a pod is none of its init
    /// containers and not its pause container.
    pub fn has_any_app_container(&self, pod: &Pod, listed: &Vec<ContainerSummary>) -> (r: bool)
        ensures
            r == exists|i: int|
                0 <= i < listed@.len() && is_app_container(*pod, #[trigger] listed@[i]),
    {
        let mut i: usize = 0;
        while i < listed.len()
            invariant
                i <= listed@.len(),
                forall|j: int| 0 <= j < i ==> !is_app_container(*pod, #[trigger] listed@[j]),
            decreases listed@.len() - i,
        {
            if app_container(pod, &listed[i]) {
                assert(is_app_container(*pod, listed@[i as int]));
                return true;
            }
            i += 1;
        }
        false
    }

    /// The statuses of a pod's init containers, where it has any.
    pub fn get_init_container_statuses(
        &self,
        pod: &Pod,
        observed: &Vec<InitObservation>,
        apps_exist: bool,
        now: Timestamp,
    ) -> (r: Option<Vec<ContainerStatus>>)
        requires
            observed@.len() == inits_of(*pod).len(),
            restarts_have_room(*pod),
        ensures
            match r {
                None => inits_of(*pod).len() == 0,
                Some(v) => {
                    &&& inits_of(*pod).len() > 0
                    &&& v@.len() == inits_of(*pod).len()
                    &&& forall|i: int|
                        0 <= i < v@.len() ==> status_view(#[trigger] v@[i]) == init_status(
                            *pod,
                            inits_of(*pod)[i],
                            observed@[i],
                            apps_exist,
                            now,
                        )
                },
            },
    {
        let cs = match &pod.spec {
            Some(s) => match &s.init_containers {
                Some(v) => v,
                None => {
                    return None;
                },
            },
            None => {
                return None;
            },
        };
        if cs.len() == 0 {
            return None;
        }
        let mut out: Vec<ContainerStatus> = Vec::new();
        let mut i: usize = 0;
        while i < cs.len()
            invariant
                i <= cs@.len(),
                cs@ == inits_of(*pod),
                observed@.len() == cs@.len(),
                restarts_have_room(*pod),
                out@.len() == i,
                forall|j: int|
                    0 <= j < i ==> status_view(#[trigger] out@[j]) == init_status(
                        *pod,
                        cs@[j],
                        observed@[j],
                        apps_exist,
                        now,
                    ),
            decreases cs@.len() - i,
        {
            out.push(status_of_init(pod, &cs[i], &observed[i], apps_exist, now));
            i += 1;
        }
        Some(out)
    }

    /// What to do about a pod's init containers: whether all are done, which one is to be
    /// started, and whether that is because it failed.
    pub fn compute_init_container_actions(&self, pod: &Pod, progress: &Vec<InitProgress>) -> (r: (
        bool,
        Option<usize>,
        bool,
    ))
        requires
            progress@.len() == inits_of(*pod).len(),
        ensures
            r == init_actions(
                inits_of(*pod),
                progress@,
                restart_policy_of(*pod) != "Never"@,
                0,
            ),
    {
        let cs = match &pod.spec {
            Some(s) => match &s.init_containers {
                Some(v) => v,
                None => {
                    return (true, None, false);
                },
            },
            None => {
                return (true, None, false);
            },
        };
        let retry = !text::same(effective_restart_policy(pod), "Never");
        let mut i: usize = 0;
        while i < cs.len()
            invariant
                i <= cs@.len(),
                cs@ == inits_of(*pod),
                progress@.len() == cs@.len(),
                retry == (restart_policy_of(*pod) != "Never"@),
                init_actions(cs@, progress@, retry, 0) == init_actions(
                    cs@,
                    progress@,
                    retry,
                    i as nat,
                ),
            decreases cs@.len() - i,
        {
            if !sidecar(&cs[i]) {
                match progress[i] {
                    InitProgress::Running => {
                        return (false, None, false);
                    },
                    InitProgress::Exited(code) => {
                        let ok = match code {
                            Some(c) => c == 0,
                            None => false,
                        };
                        if !ok {
                            return if retry {
                                (false, Some(i), true)
                            } else {
                                (false, None, false)
                            };
                        }
                    },
                    InitProgress::Missing | InitProgress::Other => {
                        return (false, Some(i), false);
                    },
                }
            }
            i += 1;
        }
        (true, None, false)
    }

    /// The statuses of a pod's ephemeral containers, where it has any.
    pub fn get_ephemeral_container_statuses(
        &self,
        pod: &Pod,
        inspections: &Vec<Option<Inspection>>,
    ) -> (r: Option<Vec<ContainerStatus>>)
        requires
            inspections@.len() == ephemerals_of(*pod).len(),
        ensures
            match r {
                None => ephemerals_of(*pod).len() == 0,
                Some(v) => {
                    &&& ephemerals_of(*pod).len() > 0
                    &&& v@.len() == ephemerals_of(*pod).len()
                    &&& forall|i: int|
                        0 <= i < v@.len() ==> status_view(#[trigger] v@[i]) == ephemeral_status(
                            ephemerals_of(*pod)[i],
                            inspections@[i],
                        )
                },
            },
    {
        let cs = match &pod.spec {
            Some(s) => match &s.ephemeral_containers {
                Some(v) => v,
                None => {
                    return None;
                },
            },
            None => {
                return None;
            },
        };
        if cs.len() == 0 {
            return None;
        }
        let mut out: Vec<ContainerStatus> = Vec::new();
        let mut i: usize = 0;
        while i < cs.len()
            invariant
                i <= cs@.len(),
                inspections@.len() == cs@.len(),
                out@.len() == i,
                forall|j: int|
                    0 <= j < i ==> status_view(#[trigger] out@[j]) == ephemeral_status(
                        cs@[j],
                        inspections@[j],
                    ),
            decreases cs@.len() - i,
        {
            out.push(status_of_ephemeral(&cs[i], &inspections[i]));
            i += 1;
        }
        Some(out)
    }

    /// The statuses of a pod's application containers.
    pub fn get_container_statuses(&self, pod: &Pod, observed: &Vec<Observation>) -> (r: Vec<
        ContainerStatus,
    >)
        requires
            pod.spec is Some,
            observed@.len() == pod.spec->0.containers@.len(),
        ensures
            r@.len() == pod.spec->0.containers@.len(),
            forall|i: int|
                0 <= i < r@.len() ==> status_view(#[trigger] r@[i]) == app_status(
                    *pod,
                    pod.spec->0.containers@[i],
                    observed@[i],
                ),
    {
        let mut out: Vec<ContainerStatus> = Vec::new();
        if let Some(s) = &pod.spec {
            let cs = &s.containers;
            let mut i: usize = 0;
            while i < cs.len()
                invariant
                    i <= cs@.len(),
                    observed@.len() == cs@.len(),
                    out@.len() == i,
                    forall|j: int|
                        0 <= j < i ==> status_view(#[trigger] out@[j]) == app_status(
                            *pod,
                            cs@[j],
                            observed@[j],
                        ),
                decreases cs@.len() - i,
            {
                out.push(status_of_app(pod, &cs[i], &observed[i]));
                i += 1;
            }
        }
        out
    }

    /// The file on the host that holds the message that a container left.
    pub fn termination_host_file(&self, container_name: &str, container: &Container) -> (r: String)
        ensures
            r@ == names::termination_file_text(
                self.volumes_base_path@,
                text::before_last(container_name@, '_'),
                container.name@,
            ),
    {
        names::termination_file(
            self.volumes_base_path.as_str(),
            text::head_before_last(container_name, '_'),
            container.name.as_str(),
        )
    }

    /// The message that a container left, by what its file holds.
    pub fn read_termination_message(
        &self,
        container: &Container,
        content: &Option<String>,
        exit_code: i64,
    ) -> (r: TerminationMessage)
        ensures
            ({
                let (found, logs) = termination_message(
                    *container,
                    text::opt_text(*content),
                    exit_code,
                );
                match r {
                    TerminationMessage::Found(m) => found == Some(m@),
                    TerminationMessage::Logs => logs,
                    TerminationMessage::Nothing => found is None && !logs,
                }
            }),
    {
        if let Some(t) = content {
            if let Some(m) = shorten(t.as_str()) {
                return TerminationMessage::Found(m);
            }
        }
        if is_text(&container.termination_message_policy, "FallbackToLogsOnError") && exit_code != 0 {
            TerminationMessage::Logs
        } else {
            TerminationMessage::Nothing
        }
    }
}

/// The ephemeral containers of a pod.
pub open spec fn ephemerals_of(pod: Pod) -> Seq<EphemeralContainer> {
    match pod.spec {
        Some(s) => match s.ephemeral_containers {
            Some(v) => v@,
            None => Seq::empty(),
        },
        None => Seq::empty(),
    }
}

/// A container that the daemon has is reported as ready if and only if it runs, has started up
/// and its readiness check says so: one whose check says no is never reported as ready. It is
/// reported as started if and only if it runs and has started up.
pub proof fn law_reported_ready_as_observed(pod: Pod, c: Container, o: Observation)
    requires
        o.inspection is Some,
    ensures
        ({
            let r = app_status(pod, c, o);
            &&& !o.ready ==> !r.ready
            &&& !o.started_up ==> !r.ready && r.started == Some(false)
            &&& !o.inspection->0.running ==> !r.ready && r.started == Some(false)
            &&& o.inspection->0.running && o.started_up ==> r.started == Some(true)
            &&& o.inspection->0.running && o.started_up && o.ready ==> r.ready
        }),
{
}

/// The state that is reported of a container is the daemon's: it runs since the time that the
/// daemon gives, or has ended at that time with the code and the message, or waits.
pub open spec fn tells_state(s: StateView, i: Inspection, message: Option<Seq<char>>) -> bool {
    &&& i.running ==> (s matches StateView::Running { started_at } && started_at == i.started_at)
    &&& !i.running && (i.exited || i.finished) ==> {
        let code: i64 = match i.exit_code {
            Some(n) => n,
            None => 0,
        };
        &&& s is Terminated
        &&& i32::MIN <= code <= i32::MAX ==> s->exit_code == code
        &&& s->Terminated_message == message
        &&& s->Terminated_started_at == i.started_at
        &&& s->finished_at == i.finished_at
        &&& i.id is None ==> s->container_id is None
        &&& i.id matches Some(id) ==> s->container_id == Some("docker://"@ + id@)
        &&& code == 0 ==> s->Terminated_reason == Some("Completed"@)
        &&& i32::MIN <= code <= i32::MAX && code != 0 ==> {
            &&& s->Terminated_reason is Some
            &&& i.error matches Some(e) ==> e@.len() > 0 ==> s->Terminated_reason == Some(e@)
            &&& i.error is None || i.error->0@.len() == 0 ==> s->Terminated_reason == Some(
                "Error"@,
            ) || s->Terminated_reason == Some("OOMKilled"@)
        }
    }
    &&& !i.running && !i.exited && !i.finished ==> s is Waiting
}

/// A container that the daemon has is reported in the state that the daemon says, under its own
/// name, image and resources, with the daemon's identities; one that ended with 137 and no
/// other error was killed for its memory.
pub proof fn law_reported_states_are_the_daemons(pod: Pod, c: Container, o: Observation)
    requires
        o.inspection is Some,
    ensures
        ({
            let r = app_status(pod, c, o);
            let i = o.inspection->0;
            &&& r.state is Some && tells_state(r.state->0, i, text::opt_text(o.message))
            &&& !i.running && i.exited && i.error is None && i.exit_code == Some(137i64) ==> r.state->0
                ->Terminated_reason == Some("OOMKilled"@)
            &&& !i.running && i.exited && i.error is None && i.exit_code == Some(1i64) ==> r.state->0
                ->Terminated_reason == Some("Error"@)
            &&& r.name == c.name@
            &&& r.image == Some(c.image@)
            &&& i.id matches Some(id) ==> r.container_id == Some("docker://"@ + id@)
            &&& i.id is None ==> r.container_id is None
            &&& i.image is None ==> r.image_id is None
            &&& i.image matches Some(x) ==> {
                &&& text::begins(x@, "sha256:"@) ==> r.image_id == Some(
                    "docker-pullable://"@ + x@,
                )
                &&& !text::begins(x@, "sha256:"@) ==> r.image_id == Some(x@)
            }
            &&& r.resources == resources_view(c.resources)
            &&& c.resources matches Some(x) ==> r.allocated_resources == opt_pairs(x.requests)
        }),
{
}

/// The count of restarts that is reported is the higher one of the daemon's and the one that
/// was reported before, and what came before the present state stays as it was reported.
pub proof fn law_reported_history_is_kept(pod: Pod, c: Container, o: Observation)
    requires
        o.inspection is Some,
        o.inspection->0.restart_count matches Some(n) ==> 0 <= n <= u32::MAX,
    ensures
        ({
            let r = app_status(pod, c, o);
            let before = container_before(pod, c.name@);
            let daemon: int = match o.inspection->0.restart_count {
                Some(n) => n as int,
                None => 0,
            };
            let known: int = match before {
                Some(s) => s.restart_count as int,
                None => 0,
            };
            &&& r.restart_count >= daemon && r.restart_count >= known
            &&& r.restart_count == daemon || r.restart_count == known
            &&& before is None ==> r.last_state is None
            &&& before matches Some(s) ==> r.last_state == opt_state_view(s.last_state)
        }),
{
}

/// A container that the daemon does not have keeps the status that it had; one that had none
/// waits, for the init containers where there are any, and is neither started nor ready.
pub proof fn law_missing_containers_keep_their_status(pod: Pod, c: Container, o: Observation)
    requires
        o.inspection is None,
    ensures
        ({
            let r = app_status(pod, c, o);
            let inits = pod.spec is Some && pod.spec->0.init_containers is Some
                && pod.spec->0.init_containers->0@.len() > 0;
            match container_before(pod, c.name@) {
                Some(s) => r == status_view(s),
                None => {
                    &&& !r.ready
                    &&& r.started == Some(false)
                    &&& r.restart_count == 0
                    &&& r.name == c.name@
                    &&& r.image == Some(c.image@)
                    &&& r.container_id is None
                    &&& r.state == Some(
                        StateView::Waiting {
                            reason: Some(
                                if inits {
                                    "PodInitializing"@
                                } else {
                                    "ContainerCreating"@
                                },
                            ),
                            message: None,
                        },
                    )
                },
            }
        }),
{
}

/// The status of a name is the first that has it, and there is none only where none has it.
pub proof fn law_statuses_are_found_by_name(v: Seq<ContainerStatus>, name: Seq<char>, k: int)
    requires
        0 <= k <= v.len(),
        forall|j: int| 0 <= j < k ==> (#[trigger] v[j]).name@ != name,
    ensures
        k < v.len() && v[k].name@ == name ==> status_named(v, name) == Some(v[k]),
        k == v.len() ==> status_named(v, name) is None,
    decreases v.len(),
{
    if v.len() > 0 && k > 0 {
        let rest = v.drop_first();
        assert(v[0].name@ != name);
        assert forall|j: int| 0 <= j < k - 1 implies (#[trigger] rest[j]).name@ != name by {
            assert(rest[j] == v[j + 1]);
        }
        law_statuses_are_found_by_name(rest, name, k - 1);
        if k < v.len() {
            assert(rest[k - 1] == v[k]);
        }
    }
}

/// An init container that the daemon has is reported in the state that the daemon says. It is
/// ready if and only if it has ended with 0, and started once it runs or has ended.
pub proof fn law_init_containers_are_ready_once_done(
    pod: Pod,
    c: Container,
    o: InitObservation,
    apps_exist: bool,
    now: Timestamp,
)
    ensures
        ({
            let r = init_status(pod, c, o, apps_exist, now);
            &&& r.name == c.name@
            &&& r.image == Some(c.image@)
            &&& r.state is Some
            &&& r.ready <==> r.state->0 is Terminated && r.state->0->exit_code == 0
            &&& r.started == Some(!(r.state->0 is Waiting))
            &&& o.inspection matches Some(i) ==> {
                &&& tells_state(r.state->0, i, text::opt_text(o.message))
                &&& i.id matches Some(id) ==> r.container_id == Some("docker://"@ + id@)
            }
        }),
{
    reveal_strlit("Completed");
}

/// An init container that the daemon no longer has: one that was running is taken to have
/// succeeded; one that failed is on its way back where failures are retried, and waits
/// otherwise; of one that was never seen it is taken that it succeeded where the pod has got
/// further than that, and it waits otherwise.
pub proof fn law_missing_init_containers_are_made_out(
    pod: Pod,
    c: Container,
    message: Option<String>,
    apps_exist: bool,
    now: Timestamp,
)
    ensures
        ({
            let o = InitObservation { inspection: None, message };
            let r = init_status(pod, c, o, apps_exist, now);
            let before = init_before(pod, c.name@);
            let ended = pod.status is Some && (pod.status->0.phase == Some(Phase::Succeeded)
                || pod.status->0.phase == Some(Phase::Failed));
            &&& before is None ==> (r.ready <==> apps_exist || ended)
            &&& before is None && !r.ready ==> r.state == Some(
                StateView::Waiting { reason: Some("PodInitializing"@), message: None },
            )
            &&& before matches Some(s) ==> {
                &&& s.state matches Some(ContainerState::Running { started_at }) ==> r.ready
                    && r.state->0->Terminated_started_at == started_at && r.state->0->finished_at
                    == Some(now)
                &&& s.state matches Some(ContainerState::Terminated { exit_code, .. }) ==> exit_code != 0
                    ==> {
                    &&& !r.ready
                    &&& r.state->0 is Waiting
                    &&& restart_policy_of(pod) == "Always"@ ==> r.state->0->Waiting_reason == Some(
                        "CrashLoopBackOff"@,
                    ) && r.last_state == opt_state_view(s.state)
                    &&& restart_policy_of(pod) != "Always"@ ==> r.state->0->Waiting_reason == Some(
                        "PodInitializing"@,
                    )
                }
                &&& s.state matches Some(ContainerState::Waiting { .. }) ==> !r.ready && r.state->0 is Waiting
            }
        }),
{
    reveal_strlit("CrashLoopBackOff");
    reveal_strlit("PodInitializing");
    assert("CrashLoopBackOff"@.len() != "PodInitializing"@.len());
}

/// A failure of an init container is counted once: when it comes up in a container other than
/// the one whose failure is known, or after a wait. A success or a run counts nothing.
pub proof fn law_each_init_failure_counts_once(
    pod: Pod,
    c: Container,
    o: InitObservation,
    apps_exist: bool,
    now: Timestamp,
)
    requires
        o.inspection is Some,
        init_before(pod, c.name@) is Some,
        init_before(pod, c.name@)->0.restart_count < u32::MAX,
    ensures
        ({
            let r = init_status(pod, c, o, apps_exist, now);
            let s = init_before(pod, c.name@)->0;
            let i = o.inspection->0;
            let ended = !i.running && (i.exited || i.finished);
            let code: i64 = match i.exit_code {
                Some(n) => n,
                None => 0,
            };
            let same = i.id is Some && s.container_id is Some && s.container_id->0@ == "docker://"@
                + i.id->0@;
            &&& !ended || code == 0 ==> r.restart_count == s.restart_count
            &&& ended && i32::MIN <= code <= i32::MAX && code != 0 ==> {
                &&& s.state matches Some(ContainerState::Waiting { .. }) ==> r.restart_count
                    == s.restart_count + 1
                &&& s.state matches Some(ContainerState::Terminated { .. }) ==> {
                    &&& same ==> r.restart_count == s.restart_count
                    &&& i.id is Some && !same ==> r.restart_count == s.restart_count + 1
                }
                &&& s.state matches Some(ContainerState::Running { .. }) ==> r.restart_count
                    == s.restart_count
                &&& s.state matches Some(ContainerState::Terminated { exit_code, .. }) ==> exit_code
                    != 0 ==> r.last_state == opt_state_view(s.state)
            }
        }),
{
    reveal_strlit("CrashLoopBackOff");
    reveal_strlit("PodInitializing");
    assert("CrashLoopBackOff"@.len() != "PodInitializing"@.len());
}

/// An ephemeral container is ready while it runs, is never restarted, and is reported in the
/// state that the daemon says.
pub proof fn law_ephemeral_containers_are_reported_as_they_are(
    c: EphemeralContainer,
    inspection: Option<Inspection>,
)
    ensures
        ({
            let r = ephemeral_status(c, inspection);
            let running = inspection is Some && inspection->0.running;
            &&& r.name == c.name@
            &&& r.image == Some(c.image@)
            &&& r.ready == running
            &&& r.started == Some(running)
            &&& r.restart_count == 0
            &&& r.state is Some
            &&& inspection is None ==> r.state->0 is Waiting && r.container_id is None
            &&& inspection matches Some(i) ==> {
                &&& i.running ==> r.state == Some(StateView::Running { started_at: i.started_at })
                &&& !i.running && i.finished ==> r.state->0 is Terminated && (i.exit_code matches Some(
                    n,
                ) ==> i32::MIN <= n <= i32::MAX ==> r.state->0->exit_code == n)
                &&& !i.running && !i.finished ==> r.state->0 is Waiting
                &&& i.id matches Some(id) ==> r.container_id == Some("docker://"@ + id@)
            }
        }),
{
}

/// The init container no longer holds up the next one.
pub open spec fn is_done(c: Container, p: InitProgress) -> bool {
    text::opt_text(c.restart_policy) == Some("Always"@) || p == InitProgress::Exited(Some(0i64))
}

/// The first init container that is neither a sidecar nor done decides: while it runs, nothing
/// is started; where it failed it is started again, and that only where failures are retried;
/// where there is none of it yet it is started. Where there is no such container all are done.
pub proof fn law_the_first_unfinished_init_container_decides(
    cs: Seq<Container>,
    ps: Seq<InitProgress>,
    retry: bool,
    i: nat,
    k: int,
)
    requires
        cs.len() <= usize::MAX,
        i <= k <= cs.len(),
        forall|j: int| i <= j < k ==> is_done(#[trigger] cs[j], ps[j]),
    ensures
        k == cs.len() ==> init_actions(cs, ps, retry, i) == (true, None::<usize>, false),
        k < cs.len() && !is_done(cs[k], ps[k]) ==> ({
            let r = init_actions(cs, ps, retry, i);
            match ps[k] {
                InitProgress::Running => r == (false, None::<usize>, false),
                InitProgress::Exited(_) => r == (if retry {
                    (false, Some(k as usize), true)
                } else {
                    (false, None::<usize>, false)
                }),
                InitProgress::Missing => r == (false, Some(k as usize), false),
                InitProgress::Other => r == (false, Some(k as usize), false),
            }
        }),
    decreases cs.len() - i,
{
    if i < k {
        assert(is_done(cs[i as int], ps[i as int]));
        law_the_first_unfinished_init_container_decides(cs, ps, retry, i + 1, k);
    }
}

/// A container that runs is running, whatever else is said of it; one that has exited has done
/// so with its code.
pub proof fn law_progress_is_what_the_daemon_says(s: EndState)
    ensures
        s.running == Some(true) ==> progress_of(Some(s)) == InitProgress::Running,
        s.running != Some(true) && s.status == Some(ContainerStatusKind::Exited) ==> progress_of(
            Some(s),
        ) == InitProgress::Exited(s.exit_code),
        s.running != Some(true) && s.status != Some(ContainerStatusKind::Exited) ==> progress_of(
            Some(s),
        ) == InitProgress::Other,
        progress_of(None) == InitProgress::Missing,
{
}

/// Containers are restarted always where their pod says nothing else.
pub proof fn law_restarts_are_the_rule(pod: Pod)
    ensures
        pod.spec is None || pod.spec->0.restart_policy is None || pod.spec->0.restart_policy->0@.len()
            == 0 ==> restart_policy_of(pod) == "Always"@,
        pod.spec matches Some(s) ==> s.restart_policy matches Some(p) ==> p@.len() > 0
            ==> restart_policy_of(pod) == p@,
{
}

/// The message that a container leaves is what its file holds, where it holds anything. Its log
/// is read only where the file gives nothing, the container failed, and it asks for that.
pub proof fn law_messages_come_from_the_file_first(
    c: Container,
    content: Option<Seq<char>>,
    exit_code: i64,
)
    ensures
        ({
            let (found, logs) = termination_message(c, content, exit_code);
            let asks = c.termination_message_policy is Some && c.termination_message_policy->0@
                == "FallbackToLogsOnError"@;
            let empty = content is None || content->0.len() == 0;
            &&& empty ==> found is None && (logs <==> exit_code != 0 && asks)
            &&& !empty ==> found is Some && !logs
            &&& !empty && encode_utf8(content->0).len() <= 4096 ==> found == content
        }),
{
}

/// A container that is listed for a pod is an application's exactly if it has a name, behind
/// its slashes, that is neither the pod's sandbox's nor one of its init containers'.
pub proof fn law_application_containers_are_told_apart(pod: Pod, s: ContainerSummary, n: int)
    requires
        s.names is Some,
        0 <= n < s.names->0@.len(),
    ensures
        ({
            let name = text::trimmed_start(s.names->0@[n]@, '/');
            let sandbox = name == pod.metadata.name@ + "_pause"@;
            let init = pod.spec is Some && pod.spec->0.init_containers is Some && exists|i: int|
                0 <= i < pod.spec->0.init_containers->0@.len() && name == pod.metadata.name@ + "_"@
                    + (#[trigger] pod.spec->0.init_containers->0@[i]).name@;
            &&& !sandbox && !init ==> is_app_container(pod, s)
            &&& (sandbox || init) && s.names->0@.len() == 1 ==> !is_app_container(pod, s)
        }),
{
    let ns = s.names->0@;
    let name = text::trimmed_start(ns[n]@, '/');
    if let Some(sp) = pod.spec {
        if let Some(v) = sp.init_containers {
            assert(forall|i: int|
                0 <= i < v@.len() ==> names::container_name_text(
                    pod.metadata.name@,
                    (#[trigger] v@[i]).name@,
                ) == pod.metadata.name@ + "_"@ + v@[i].name@);
        }
    }
    assert(is_app_name(pod, ns[n]@) <==> !(name == pod.metadata.name@ + "_pause"@) && !is_init_name(
        pod,
        name,
    ));
}

/// What the daemon says of a container is taken over as it is, and its times are read.
pub proof fn law_inspections_are_taken_over(i: Inspection, c: ContainerInspect)
    requires
        reads(i, c),
    ensures
        text::opt_text(i.id) == text::opt_text(c.id),
        text::opt_text(i.image) == text::opt_text(c.image),
        text::opt_text(i.error) == text::opt_text(c.error),
        i.restart_count == c.restart_count,
        i.running <==> c.running is Some && c.running->0,
        i.exited == c.exited,
        i.exit_code == c.exit_code,
        i.finished <==> c.finished_at is Some,
        c.started_at is None ==> i.started_at is None,
        c.finished_at is None ==> i.finished_at is None,
        c.started_at matches Some(t) ==> i.started_at == time::time_of(t@),
        c.finished_at matches Some(t) ==> i.finished_at == time::time_of(t@),
{
}

/// The containers of each kind are those that the pod's description lists, all of them.
pub proof fn law_all_listed_containers_are_looked_at(pod: Pod)
    ensures
        pod.spec is None ==> inits_of(pod).len() == 0 && ephemerals_of(pod).len() == 0,
        pod.spec is Some && pod.spec->0.init_containers is Some ==> inits_of(pod)
            == pod.spec->0.init_containers->0@,
        pod.spec is Some && pod.spec->0.init_containers is None ==> inits_of(pod).len() == 0,
        pod.spec is Some && pod.spec->0.ephemeral_containers is Some ==> ephemerals_of(pod)
            == pod.spec->0.ephemeral_containers->0@,
        pod.spec is Some && pod.spec->0.ephemeral_containers is None ==> ephemerals_of(pod).len() == 0,
{
}

/// A status says what its fields hold.
pub proof fn law_statuses_say_what_they_hold(s: ContainerStatus)
    ensures
        status_view(s).name == s.name@,
        status_view(s).ready == s.ready,
        status_view(s).restart_count == s.restart_count,
        status_view(s).started == s.started,
        status_view(s).image == text::opt_text(s.image),
        status_view(s).image_id == text::opt_text(s.image_id),
        status_view(s).container_id == text::opt_text(s.container_id),
        status_view(s).state is Some <==> s.state is Some,
        status_view(s).last_state is Some <==> s.last_state is Some,
{
}

/// What was reported of a container before is found by its name, among the containers of its
/// kind: the first status that bears it.
pub proof fn law_earlier_statuses_are_found(pod: Pod, name: Seq<char>, k: int)
    ensures
        pod.status is None ==> container_before(pod, name) is None && init_before(pod, name) is None,
        pod.status matches Some(s) ==> {
            &&& s.container_statuses is None ==> container_before(pod, name) is None
            &&& s.init_container_statuses is None ==> init_before(pod, name) is None
            &&& s.container_statuses matches Some(v) ==> {
                &&& bears_first(v@, name, k) ==> container_before(pod, name) == Some(v@[k])
                &&& bears_none(v@, name) ==> container_before(pod, name) is None
            }
            &&& s.init_container_statuses matches Some(v) ==> {
                &&& bears_first(v@, name, k) ==> init_before(pod, name) == Some(v@[k])
                &&& bears_none(v@, name) ==> init_before(pod, name) is None
            }
        },
{
    if let Some(s) = pod.status {
        if let Some(v) = s.container_statuses {
            lemma_bears(v@, name, k);
        }
        if let Some(v) = s.init_container_statuses {
            lemma_bears(v@, name, k);
        }
    }
}

/// The status at `k` is the first of the list with the name.
pub open spec fn bears_first(v: Seq<ContainerStatus>, name: Seq<char>, k: int) -> bool {
    0 <= k < v.len() && v[k].name@ == name && forall|j: int|
        0 <= j < k ==> (#[trigger] v[j]).name@ != name
}

/// No status of the list has the name.
pub open spec fn bears_none(v: Seq<ContainerStatus>, name: Seq<char>) -> bool {
    forall|j: int| 0 <= j < v.len() ==> (#[trigger] v[j]).name@ != name
}

proof fn lemma_bears(v: Seq<ContainerStatus>, name: Seq<char>, k: int)
    ensures
        bears_first(v, name, k) ==> status_named(v, name) == Some(v[k]),
        bears_none(v, name) ==> status_named(v, name) is None,
{
    if bears_first(v, name, k) {
        law_statuses_are_found_by_name(v, name, k);
    }
    if bears_none(v, name) {
        law_statuses_are_found_by_name(v, name, v.len() as int);
    }
}

/// A container that ended badly says why: with the daemon's words, or that it was killed for
/// want of memory where its code says so, or else that it was an error. One that has neither
/// run nor ended is being created.
pub proof fn law_ends_are_explained(pod: Pod, c: Container, o: Observation)
    requires
        o.inspection is Some,
        !o.inspection->0.running,
    ensures
        ({
            let i = o.inspection->0;
            let s = app_status(pod, c, o).state->0;
            let ended = i.exited || i.finished;
            let silent = i.error is None || i.error->0@.len() == 0;
            &&& ended && silent && i.exit_code == Some(137i64) ==> s->Terminated_reason == Some(
                "OOMKilled"@,
            )
            &&& ended && silent && i.exit_code is Some && i.exit_code->0 != 0 && i.exit_code->0 != 137
                ==> s->Terminated_reason == Some("Error"@)
            &&& ended && !silent && i.exit_code is Some && i.exit_code->0 != 0
                ==> s->Terminated_reason == Some(i.error->0@)
            &&& ended && (i.exit_code is None || i.exit_code->0 == 0) ==> s->Terminated_reason
                == Some("Completed"@)
            &&& ended ==> s is Terminated && s->signal is None
            &&& !ended ==> s == (StateView::Waiting {
                reason: Some("ContainerCreating"@),
                message: None,
            })
        }),
{
}

/// An init container that is there says how it ended, or that the pod is being initialised.
pub proof fn law_init_ends_are_explained(
    pod: Pod,
    c: Container,
    o: InitObservation,
    apps_exist: bool,
    now: Timestamp,
)
    requires
        o.inspection is Some,
        !o.inspection->0.running,
        o.inspection->0.exit_code matches Some(n) ==> i32::MIN <= n <= i32::MAX,
    ensures
        ({
            let i = o.inspection->0;
            let r = init_status(pod, c, o, apps_exist, now);
            let s = r.state->0;
            let ended = i.exited || i.finished;
            let silent = i.error is None || i.error->0@.len() == 0;
            let bad = i.exit_code is Some && i.exit_code->0 != 0;
            &&& ended && bad && silent ==> s->Terminated_reason == Some("Error"@)
            &&& ended && bad && !silent ==> s->Terminated_reason == Some(i.error->0@)
            &&& ended && !bad ==> s->Terminated_reason == Some("Completed"@)
            &&& !ended ==> s == (StateView::Waiting {
                reason: Some("PodInitializing"@),
                message: None,
            })
            &&& i.image is None ==> r.image_id is None
            &&& i.image matches Some(x) ==> text::begins(x@, "sha256:"@) ==> r.image_id == Some(
                "docker-pullable://"@ + x@,
            )
            &&& i.image matches Some(x) ==> !text::begins(x@, "sha256:"@) ==> r.image_id == Some(x@)
        }),
{
}

/// An init container that is gone after it failed is counted once more and waits to be run
/// again where the pod's containers are restarted always; what it last ended with is kept. One
/// that waits to be run again goes on waiting, with the words that it waited with.
pub proof fn law_gone_init_containers_wait_to_be_run_again(
    pod: Pod,
    c: Container,
    message: Option<String>,
    apps_exist: bool,
    now: Timestamp,
)
    requires
        init_before(pod, c.name@) is Some,
        init_before(pod, c.name@)->0.restart_count < u32::MAX,
    ensures
        ({
            let o = InitObservation { inspection: None, message };
            let r = init_status(pod, c, o, apps_exist, now);
            let s = init_before(pod, c.name@)->0;
            &&& s.state matches Some(ContainerState::Terminated { exit_code, .. }) ==> exit_code != 0 ==> {
                &&& restart_policy_of(pod) == "Always"@ ==> r.restart_count == s.restart_count + 1
                    && r.state->0->Waiting_message == Some(
                    "back-off restarting failed container init container \""@ + c.name@
                        + "\" exited with "@ + number::decimal(exit_code as int),
                )
                &&& restart_policy_of(pod) != "Always"@ ==> r.restart_count == s.restart_count
                    && r.last_state == opt_state_view(s.last_state)
            }
            &&& s.state matches Some(ContainerState::Waiting { reason, message: words }) ==> {
                &&& r.restart_count == s.restart_count
                &&& r.last_state == opt_state_view(s.last_state)
                &&& text::opt_text(reason) == Some("CrashLoopBackOff"@) ==> r.state == Some(
                    StateView::Waiting {
                        reason: Some("CrashLoopBackOff"@),
                        message: text::opt_text(words),
                    },
                )
                &&& text::opt_text(reason) != Some("CrashLoopBackOff"@) ==> r.state == Some(
                    StateView::Waiting { reason: Some("PodInitializing"@), message: None },
                )
            }
            &&& s.state matches Some(ContainerState::Running { .. }) ==> {
                &&& r.restart_count == s.restart_count
                &&& r.last_state == opt_state_view(s.last_state)
                &&& r.container_id == text::opt_text(s.container_id)
                &&& r.image_id == text::opt_text(s.image_id)
            }
        }),
{
    reveal_strlit("CrashLoopBackOff");
    reveal_strlit("PodInitializing");
    assert("CrashLoopBackOff"@.len() == 16 && "PodInitializing"@.len() == 15);
}

/// What was never reported has no history, and an init container that runs or ended well
/// keeps the one that it had.
pub proof fn law_init_history_is_kept(
    pod: Pod,
    c: Container,
    o: InitObservation,
    apps_exist: bool,
    now: Timestamp,
)
    ensures
        ({
            let r = init_status(pod, c, o, apps_exist, now);
            &&& init_before(pod, c.name@) is None ==> r.restart_count == 0 && r.last_state is None
            &&& init_before(pod, c.name@) matches Some(s) ==> {
                o.inspection is Some && (o.inspection->0.running || o.inspection->0.exit_code is None
                    || o.inspection->0.exit_code == Some(0i64)) ==> r.last_state == opt_state_view(
                    s.last_state,
                )
            }
            &&& r.resources == resources_view(c.resources)
            &&& c.resources matches Some(x) ==> r.allocated_resources == opt_pairs(x.requests)
            &&& c.resources is None ==> r.allocated_resources is None
        }),
{
    reveal_strlit("CrashLoopBackOff");
    reveal_strlit("PodInitializing");
    assert("CrashLoopBackOff"@.len() == 16 && "PodInitializing"@.len() == 15);
}

/// An ephemeral container that ended says whether it did so well and when, and where its
/// image comes from.
pub proof fn law_ephemeral_ends_are_explained(c: EphemeralContainer, i: Inspection)
    ensures
        ({
            let r = ephemeral_status(c, Some(i));
            let s = r.state->0;
            &&& !i.running && i.finished ==> {
                &&& s->Terminated_reason == Some(
                    if i.exit_code is None || i.exit_code->0 == 0 {
                        "Completed"@
                    } else {
                        "Error"@
                    },
                )
                &&& s->Terminated_started_at == i.started_at
                &&& s->finished_at == i.finished_at
            }
            &&& !i.running && !i.finished ==> s == (StateView::Waiting {
                reason: Some("ContainerCreating"@),
                message: None,
            })
            &&& i.image is None ==> r.image_id is None
            &&& i.image matches Some(x) ==> r.image_id == Some("docker-pullable://"@ + x@)
            &&& r.last_state is None
            &&& r.resources == resources_view(c.resources)
        }),
{
}

/// A message is cut only where it is too long, and no more of it than has to be.
pub proof fn law_messages_are_as_long_as_they_can_be(content: Seq<char>)
    requires
        content.len() > 0,
    ensures
        short_message(content) is Some,
        encode_utf8(content).len() <= 4096 ==> short_message(content) == Some(content),
        encode_utf8(content).len() > 4096 ==> forall|k: int|
            encode_utf8(short_message(content)->0).len() < k <= 4096 ==> !is_char_boundary(
                encode_utf8(content),
                k,
            ),
{
    let b = encode_utf8(content);
    if b.len() > 4096 {
        encode_utf8_valid_utf8(content);
        lemma_cut_before(b, 4096);
        let n = cut_before(b, 4096);
        let h = b.subrange(0, n);
        valid_utf8_split(b, n);
        decode_utf8_encode_utf8(h);
        lemma_cut_is_last(b, 4096);
    }
}

proof fn lemma_cut_is_last(b: Seq<u8>, end: int)
    ensures
        forall|k: int| cut_before(b, end) < k <= end ==> !is_char_boundary(b, k),
    decreases end,
{
    if end <= 0 || is_char_boundary(b, end) {
    } else {
        lemma_cut_is_last(b, end - 1);
    }
}

/// A state says what its fields hold.
pub proof fn law_states_say_what_they_hold(s: ContainerState)
    ensures
        s is Running <==> state_view(s) is Running,
        s is Waiting <==> state_view(s) is Waiting,
        s is Terminated <==> state_view(s) is Terminated,
        s matches ContainerState::Running { started_at } ==> state_view(s) == (StateView::Running {
            started_at,
        }),
        s matches ContainerState::Waiting { reason, message } ==> state_view(s)->Waiting_reason
            == text::opt_text(reason) && state_view(s)->Waiting_message == text::opt_text(message),
        s matches ContainerState::Terminated { exit_code, started_at, finished_at, .. } ==> state_view(
            s,
        )->exit_code == exit_code && state_view(s)->Terminated_started_at == started_at
            && state_view(s)->finished_at == finished_at,
        opt_state_view(Some(s)) == Some(state_view(s)),
        opt_state_view(None) is None,
{
}

} // verus!
