//! The steps by which the container that holds a pod's network is brought up.

use crate::api;
use crate::container;
use crate::container::copy_text;
use crate::daemon::NetworkSettings;
use crate::names;
use crate::runtime::{ContainerRuntime, CLUSTER_LABEL};
use crate::sandbox;
use crate::sandbox::{ExistingPause, PauseStep, PauseWait};
use crate::text;
use vstd::prelude::*;
use vstd::string::*;

verus! {

/// What is to be done next about a pod's network holder.
#[derive(Clone, Copy, Debug, PartialEq, Eq, Structural)]
pub enum PauseAsk {
    /// Look at the container with the holder's name.
    Inspect,
    /// Stop and remove the pod's containers that are stranded.
    RemoveStranded,
    /// Stop and remove the containers that hang on the holder.
    RemoveDependents,
    /// Remove the holder.
    Remove,
    /// See to it that the holder's image is there.
    Image,
    /// Create the holder.
    Create,
    /// Look at the labels of the container that has the name.
    InspectName,
    /// Stop and remove the containers that hang on the container that has the name.
    RemoveNameDependents,
    /// Stop the container that has the name.
    StopName,
    /// Remove the container that has the name.
    RemoveName,
    /// Sleep for as many milliseconds.
    Rest(u64),
    /// Create the holder once more.
    CreateAgain,
    /// Start the holder.
    Start,
    /// Look whether the holder runs.
    Wait,
    /// Sleep for 50 milliseconds.
    WaitMore,
    /// Look at the holder's address.
    Address,
    /// The holder runs.
    Done,
    /// It cannot be brought up.
    Failed,
}

/// How far a pod's network holder has come.
#[derive(Clone, Debug)]
pub struct PauseState {
    pub ask: PauseAsk,
    /// The identity of the holder that was there.
    pub id: Option<String>,
    /// The holder's address.
    pub address: Option<String>,
    /// Why it cannot be brought up.
    pub error: Option<String>,
    /// The error behind that, where there is one.
    pub cause: Option<String>,
}

/// How far a pod's network holder has come, its texts as characters.
pub ghost struct PauseView {
    pub ask: PauseAsk,
    pub id: Option<Seq<char>>,
    pub address: Option<Seq<char>>,
    pub error: Option<Seq<char>>,
    pub cause: Option<Seq<char>>,
}

impl PauseState {
    pub open spec fn view_of(self) -> PauseView {
        PauseView {
            ask: self.ask,
            id: text::opt_text(self.id),
            address: text::opt_text(self.address),
            error: text::opt_text(self.error),
            cause: text::opt_text(self.cause),
        }
    }
}

/// What came of it.
#[derive(Debug)]
pub enum PauseAnswer {
    Yes,
    /// It failed, and why.
    No(String),
    /// What the daemon says of the holder, where it has one.
    Existing(Option<ExistingPause>),
    /// The labels of the container that has the name, where the daemon shows it.
    Labels(Option<Option<Vec<(String, String)>>>),
    /// Whether the holder runs, or why that cannot be told, and whether ten seconds have
    /// gone by.
    Running(Result<bool, String>, bool),
    /// The holder's networks, or why they cannot be told.
    Network(Result<Option<NetworkSettings>, String>),
}

/// Something was done, with or without success.
pub open spec fn was_tried(a: PauseAnswer) -> bool {
    a is Yes || a is No
}

/// The holder cannot be brought up.
pub open spec fn pause_failed(s: PauseView, error: Seq<char>, cause: Option<Seq<char>>) -> PauseView {
    PauseView { ask: PauseAsk::Failed, error: Some(error), cause, ..s }
}

/// What comes once the holder that there is has been looked at.
pub open spec fn after_look(network: Seq<char>, s: PauseView, e: Option<ExistingPause>) -> PauseView {
    match e {
        None => PauseView { ask: PauseAsk::Image, ..s },
        Some(e) => {
            let known = PauseView { id: text::opt_text(e.id), ..s };
            if e.running == Some(true) {
                PauseView {
                    ask: PauseAsk::RemoveStranded,
                    address: sandbox::holder_address(e, network),
                    ..known
                }
            } else {
                PauseView { ask: PauseAsk::RemoveDependents, ..known }
            }
        },
    }
}

/// What comes once it was looked whether the holder runs.
pub open spec fn after_wait(
    pod: Seq<char>,
    s: PauseView,
    inspected: Result<bool, String>,
    late: bool,
) -> PauseView {
    let name = names::pause_name_text(pod);
    match inspected {
        Ok(true) => PauseView { ask: PauseAsk::Address, ..s },
        Ok(false) => if late {
            pause_failed(
                s,
                "Pause container "@ + name + " did not reach running state within 10s"@,
                None,
            )
        } else {
            PauseView { ask: PauseAsk::WaitMore, ..s }
        },
        Err(why) => if late {
            pause_failed(
                s,
                "Pause container "@ + name + " inspect failed after 10s: "@ + why@,
                None,
            )
        } else {
            PauseView { ask: PauseAsk::WaitMore, ..s }
        },
    }
}

/// The container with the labels is another cluster's.
pub open spec fn is_foreign(
    network: Seq<char>,
    inspected: Option<Option<Vec<(String, String)>>>,
) -> bool {
    inspected matches Some(labels) && api::opt_lookup(labels, CLUSTER_LABEL@) != Some(network)
}

/// What comes next of a pod's network holder. An answer to something else changes
/// nothing.
pub open spec fn pause_next(
    network: Seq<char>,
    pod: Seq<char>,
    s: PauseView,
    answer: PauseAnswer,
) -> PauseView {
    let name = names::pause_name_text(pod);
    match (s.ask, answer) {
        (PauseAsk::Inspect, PauseAnswer::Existing(e)) => after_look(network, s, e),
        (PauseAsk::RemoveStranded, a) if was_tried(a) => PauseView {
            ask: if s.address is Some {
                PauseAsk::Done
            } else {
                PauseAsk::RemoveDependents
            },
            ..s
        },
        (PauseAsk::RemoveDependents, a) if was_tried(a) => PauseView { ask: PauseAsk::Remove, ..s },
        (PauseAsk::Remove, a) if was_tried(a) => PauseView { ask: PauseAsk::Image, ..s },
        (PauseAsk::Image, PauseAnswer::Yes) => PauseView { ask: PauseAsk::Create, ..s },
        (PauseAsk::Image, PauseAnswer::No(e)) => pause_failed(
            s,
            "Failed to ensure busybox image for pause container"@,
            Some(e@),
        ),
        (PauseAsk::Create, PauseAnswer::Yes) => PauseView { ask: PauseAsk::Start, ..s },
        (PauseAsk::Create, PauseAnswer::No(e)) => if container::name_taken(e@) {
            PauseView { ask: PauseAsk::InspectName, ..s }
        } else {
            pause_failed(s, "Failed to create pause container"@, Some(e@))
        },
        (PauseAsk::InspectName, PauseAnswer::Labels(l)) => if is_foreign(network, l) {
            pause_failed(
                s,
                "Pause container name "@ + name
                    + " is already in use by a container this cluster did not create; refusing to remove it"@,
                None,
            )
        } else {
            PauseView { ask: PauseAsk::RemoveNameDependents, ..s }
        },
        (PauseAsk::RemoveNameDependents, a) if was_tried(a) => PauseView {
            ask: PauseAsk::StopName,
            ..s
        },
        (PauseAsk::StopName, a) if was_tried(a) => PauseView { ask: PauseAsk::RemoveName, ..s },
        (PauseAsk::RemoveName, PauseAnswer::Yes) => PauseView { ask: PauseAsk::Rest(100), ..s },
        (PauseAsk::RemoveName, PauseAnswer::No(_)) => PauseView { ask: PauseAsk::Rest(500), ..s },
        (PauseAsk::Rest(_), a) if was_tried(a) => PauseView { ask: PauseAsk::CreateAgain, ..s },
        (PauseAsk::CreateAgain, PauseAnswer::Yes) => PauseView { ask: PauseAsk::Start, ..s },
        (PauseAsk::CreateAgain, PauseAnswer::No(e)) => pause_failed(
            s,
            "Failed to create pause container after cleanup"@,
            Some(e@),
        ),
        (PauseAsk::Start, PauseAnswer::Yes) => PauseView { ask: PauseAsk::Wait, ..s },
        (PauseAsk::Start, PauseAnswer::No(e)) => pause_failed(
            s,
            "Failed to start pause container"@,
            Some(e@),
        ),
        (PauseAsk::Wait, PauseAnswer::Running(r, late)) => after_wait(pod, s, r, late),
        (PauseAsk::WaitMore, a) if was_tried(a) => PauseView { ask: PauseAsk::Wait, ..s },
        (PauseAsk::Address, PauseAnswer::Network(Ok(n))) => match sandbox::assigned_address(
            n,
            network,
        ) {
            Some(a) => PauseView { ask: PauseAsk::Done, address: Some(a), ..s },
            None => pause_failed(
                s,
                "Pause container started but no IP address was assigned"@,
                None,
            ),
        },
        (PauseAsk::Address, PauseAnswer::Network(Err(e))) => pause_failed(
            s,
            "Failed to inspect pause container"@,
            Some(e@),
        ),
        _ => s,
    }
}

/// How much is left to be done.
pub open spec fn pause_steps_left(ask: PauseAsk) -> int {
    match ask {
        PauseAsk::Inspect => 17,
        PauseAsk::RemoveStranded => 16,
        PauseAsk::RemoveDependents => 15,
        PauseAsk::Remove => 14,
        PauseAsk::Image => 13,
        PauseAsk::Create => 12,
        PauseAsk::InspectName => 11,
        PauseAsk::RemoveNameDependents => 10,
        PauseAsk::StopName => 9,
        PauseAsk::RemoveName => 8,
        PauseAsk::Rest(_) => 7,
        PauseAsk::CreateAgain => 6,
        PauseAsk::Start => 5,
        PauseAsk::WaitMore => 4,
        PauseAsk::Wait => 3,
        PauseAsk::Address => 2,
        PauseAsk::Done | PauseAsk::Failed => 0,
    }
}

/// The answer is one to what was asked.
pub open spec fn pause_answers(ask: PauseAsk, a: PauseAnswer) -> bool {
    match ask {
        PauseAsk::Inspect => a is Existing,
        PauseAsk::InspectName => a is Labels,
        PauseAsk::Wait => a is Running,
        PauseAsk::Address => a is Network,
        _ => was_tried(a),
    }
}

/// Bringing up a network holder comes to an end, whatever the answers are: each step but
/// waiting for it to run leaves less to be done, and waiting ends after ten seconds.
pub proof fn law_bringing_up_a_sandbox_ends(
    network: Seq<char>,
    pod: Seq<char>,
    s: PauseView,
    a: PauseAnswer,
)
    requires
        pause_answers(s.ask, a),
    ensures
        ({
            let next = pause_next(network, pod, s, a).ask;
            &&& s.ask == PauseAsk::Done || s.ask == PauseAsk::Failed ==> next == s.ask
            &&& s.ask != PauseAsk::Done && s.ask != PauseAsk::Failed && !(s.ask == PauseAsk::Wait
                && !a->Running_1) ==> 0 <= pause_steps_left(next) < pause_steps_left(s.ask)
            &&& s.ask == PauseAsk::Wait ==> next == PauseAsk::WaitMore || pause_steps_left(next)
                < pause_steps_left(s.ask)
        }),
{
}

/// A container that another cluster has made is never removed to make room for a network
/// holder.
pub proof fn law_a_foreign_sandbox_stays(
    network: Seq<char>,
    pod: Seq<char>,
    s: PauseView,
    labels: Option<Option<Vec<(String, String)>>>,
)
    requires
        s.ask == PauseAsk::InspectName,
        is_foreign(network, labels),
    ensures
        pause_next(network, pod, s, PauseAnswer::Labels(labels)).ask == PauseAsk::Failed,
        forall|t: PauseView, a: PauseAnswer|
            (#[trigger] pause_next(network, pod, t, a)).ask == PauseAsk::RemoveNameDependents ==> t.ask
                == PauseAsk::RemoveNameDependents || (t.ask == PauseAsk::InspectName && (
            a matches PauseAnswer::Labels(l) && !is_foreign(network, l))),
{
}

/// A network holder that runs and has an address is not made anew.
pub proof fn law_a_running_sandbox_stays(
    network: Seq<char>,
    pod: Seq<char>,
    s: PauseView,
    e: ExistingPause,
    a: PauseAnswer,
)
    requires
        s.ask == PauseAsk::Inspect,
        e.running == Some(true),
        sandbox::holder_address(e, network) is Some,
        was_tried(a),
    ensures
        ({
            let looked = pause_next(network, pod, s, PauseAnswer::Existing(Some(e)));
            let done = pause_next(network, pod, looked, a);
            &&& looked.ask == PauseAsk::RemoveStranded
            &&& done.ask == PauseAsk::Done
            &&& done.address == sandbox::holder_address(e, network)
        }),
{
}

fn to(s: PauseState, ask: PauseAsk) -> (r: PauseState)
    ensures
        r.view_of() == (PauseView { ask, ..s.view_of() }),
{
    PauseState { ask, id: s.id, address: s.address, error: s.error, cause: s.cause }
}

fn fail(s: PauseState, error: String, cause: Option<String>) -> (r: PauseState)
    ensures
        r.view_of() == pause_failed(s.view_of(), error@, text::opt_text(cause)),
{
    PauseState {
        ask: PauseAsk::Failed,
        id: s.id,
        address: s.address,
        error: Some(error),
        cause,
    }
}

impl ContainerRuntime {
    /// The first step of bringing up a network holder.
    pub fn first_pause_step(&self) -> (r: PauseState)
        ensures
            r.view_of() == (PauseView {
                ask: PauseAsk::Inspect,
                id: None,
                address: None,
                error: None,
                cause: None,
            }),
    {
        PauseState {
            ask: PauseAsk::Inspect,
            id: None,
            address: None,
            error: None,
            cause: None,
        }
    }

    fn holder_seen(&self, s: PauseState, e: Option<ExistingPause>) -> (r: PauseState)
        ensures
            r.view_of() == after_look(self.network@, s.view_of(), e),
    {
        let step = self.start_pause_container(&e);
        let id: Option<String> = match &e {
            Some(x) => copy_text(&x.id),
            None => s.id,
        };
        match step {
            PauseStep::Create => PauseState {
                ask: PauseAsk::Image,
                id,
                address: s.address,
                error: s.error,
                cause: s.cause,
            },
            PauseStep::Use(a) => PauseState {
                ask: PauseAsk::RemoveStranded,
                id,
                address: Some(a),
                error: s.error,
                cause: s.cause,
            },
            PauseStep::ReplaceRunning => PauseState {
                ask: PauseAsk::RemoveStranded,
                id,
                address: None,
                error: s.error,
                cause: s.cause,
            },
            PauseStep::Replace => PauseState {
                ask: PauseAsk::RemoveDependents,
                id,
                address: s.address,
                error: s.error,
                cause: s.cause,
            },
        }
    }

    /// What comes next of a pod's network holder.
    pub fn next_pause_step(&self, pod_name: &str, s: PauseState, answer: PauseAnswer) -> (r:
        PauseState)
        ensures
            r.view_of() == pause_next(self.network@, pod_name@, s.view_of(), answer),
    {
        let ask: PauseAsk = s.ask;
        match (ask, answer) {
            (PauseAsk::Inspect, PauseAnswer::Existing(e)) => self.holder_seen(s, e),
            (PauseAsk::RemoveStranded, PauseAnswer::Yes | PauseAnswer::No(_)) => {
                let next = if s.address.is_some() {
                    PauseAsk::Done
                } else {
                    PauseAsk::RemoveDependents
                };
                to(s, next)
            },
            (PauseAsk::RemoveDependents, PauseAnswer::Yes | PauseAnswer::No(_)) => {
                to(s, PauseAsk::Remove)
            },
            (PauseAsk::Remove, PauseAnswer::Yes | PauseAnswer::No(_)) => to(s, PauseAsk::Image),
            (PauseAsk::Image, PauseAnswer::Yes) => to(s, PauseAsk::Create),
            (PauseAsk::Image, PauseAnswer::No(e)) => fail(
                s,
                String::from_str("Failed to ensure busybox image for pause container"),
                Some(e),
            ),
            (PauseAsk::Create, PauseAnswer::Yes) => to(s, PauseAsk::Start),
            (PauseAsk::Create, PauseAnswer::No(e)) => {
                if container::name_is_taken(e.as_str()) {
                    to(s, PauseAsk::InspectName)
                } else {
                    fail(s, String::from_str("Failed to create pause container"), Some(e))
                }
            },
            (PauseAsk::InspectName, PauseAnswer::Labels(l)) => {
                match self.refuse_pause_removal(pod_name, &l) {
                    Some(e) => fail(s, e, None),
                    None => to(s, PauseAsk::RemoveNameDependents),
                }
            },
            (PauseAsk::RemoveNameDependents, PauseAnswer::Yes | PauseAnswer::No(_)) => {
                to(s, PauseAsk::StopName)
            },
            (PauseAsk::StopName, PauseAnswer::Yes | PauseAnswer::No(_)) => {
                to(s, PauseAsk::RemoveName)
            },
            (PauseAsk::RemoveName, PauseAnswer::Yes) => to(s, PauseAsk::Rest(100)),
            (PauseAsk::RemoveName, PauseAnswer::No(_)) => to(s, PauseAsk::Rest(500)),
            (PauseAsk::Rest(_), PauseAnswer::Yes | PauseAnswer::No(_)) => {
                to(s, PauseAsk::CreateAgain)
            },
            (PauseAsk::CreateAgain, PauseAnswer::Yes) => to(s, PauseAsk::Start),
            (PauseAsk::CreateAgain, PauseAnswer::No(e)) => fail(
                s,
                String::from_str("Failed to create pause container after cleanup"),
                Some(e),
            ),
            (PauseAsk::Start, PauseAnswer::Yes) => to(s, PauseAsk::Wait),
            (PauseAsk::Start, PauseAnswer::No(e)) => fail(
                s,
                String::from_str("Failed to start pause container"),
                Some(e),
            ),
            (PauseAsk::Wait, PauseAnswer::Running(inspected, late)) => {
                match self.pause_wait(pod_name, &inspected, late) {
                    PauseWait::Running => to(s, PauseAsk::Address),
                    PauseWait::Again => to(s, PauseAsk::WaitMore),
                    PauseWait::GiveUp(e) => fail(s, e, None),
                }
            },
            (PauseAsk::WaitMore, PauseAnswer::Yes | PauseAnswer::No(_)) => to(s, PauseAsk::Wait),
            (PauseAsk::Address, PauseAnswer::Network(Ok(n))) => {
                match self.pause_ip(&n) {
                    Ok(a) => PauseState {
                        ask: PauseAsk::Done,
                        id: s.id,
                        address: Some(a),
                        error: s.error,
                        cause: s.cause,
                    },
                    Err(e) => fail(s, e, None),
                }
            },
            (PauseAsk::Address, PauseAnswer::Network(Err(e))) => fail(
                s,
                String::from_str("Failed to inspect pause container"),
                Some(e),
            ),
            _ => s,
        }
    }
}

/// A holder that is not there, or has ended, or runs without an address is made: what hangs
/// on an old one goes first and then the old one itself, the image is seen to, and the holder
/// is created, started and waited for; its address is the one that it was given.
pub proof fn law_a_missing_sandbox_is_made(
    network: Seq<char>,
    pod: Seq<char>,
    s: PauseView,
    found: Option<ExistingPause>,
    a: PauseAnswer,
    b: PauseAnswer,
    c: PauseAnswer,
    late: bool,
    n: NetworkSettings,
)
    requires
        s.ask == PauseAsk::Inspect,
        s.address is None,
        a is Yes || a is No,
        b is Yes || b is No,
        c is Yes || c is No,
        found is Some && found->0.running == Some(true) ==> sandbox::holder_address(
            found->0,
            network,
        ) is None,
    ensures
        ({
            let looked = pause_next(network, pod, s, PauseAnswer::Existing(found));
            let cleared = if found is None {
                looked
            } else if found->0.running == Some(true) {
                pause_next(
                    network,
                    pod,
                    pause_next(network, pod, pause_next(network, pod, looked, c), a),
                    b,
                )
            } else {
                pause_next(network, pod, pause_next(network, pod, looked, a), b)
            };
            let image = pause_next(network, pod, cleared, PauseAnswer::Yes);
            let made = pause_next(network, pod, image, PauseAnswer::Yes);
            let begun = pause_next(network, pod, made, PauseAnswer::Yes);
            let runs = pause_next(network, pod, begun, PauseAnswer::Running(Ok(true), late));
            let done = pause_next(network, pod, runs, PauseAnswer::Network(Ok(Some(n))));
            &&& found is Some && found->0.running == Some(true) ==> looked.ask
                == PauseAsk::RemoveStranded && pause_next(network, pod, looked, c).ask
                == PauseAsk::RemoveDependents
            &&& found is Some && found->0.running != Some(true) ==> looked.ask
                == PauseAsk::RemoveDependents && pause_next(network, pod, looked, a).ask
                == PauseAsk::Remove
            &&& found is Some ==> looked.id == text::opt_text(found->0.id)
            &&& cleared.ask == PauseAsk::Image
            &&& image.ask == PauseAsk::Create
            &&& made.ask == PauseAsk::Start
            &&& begun.ask == PauseAsk::Wait
            &&& runs.ask == PauseAsk::Address
            &&& sandbox::assigned_address(Some(n), network) is Some ==> done.ask == PauseAsk::Done
                && done.address == sandbox::assigned_address(Some(n), network)
            &&& sandbox::assigned_address(Some(n), network) is None ==> done.ask == PauseAsk::Failed
        }),
{
}

/// Where the holder's name is taken by a container of this cluster, or by one that the daemon
/// does not show, that container goes with all that hangs on it, and the holder is created
/// once more after a rest, which is longer where it could not be removed.
pub proof fn law_a_taken_name_is_freed(
    network: Seq<char>,
    pod: Seq<char>,
    s: PauseView,
    why: String,
    labels: Option<Option<Vec<(String, String)>>>,
    a: PauseAnswer,
    b: PauseAnswer,
    c: PauseAnswer,
    d: PauseAnswer,
)
    requires
        s.ask == PauseAsk::Create,
        text::has(why@, "409"@) || text::has(why@, "Conflict"@) || text::has(
            why@,
            "already in use"@,
        ),
        labels is Some ==> labels->0 is Some && labels->0->0@.len() > 0 && labels->0->0@[0].0@
            == "rusternetes.io/cluster"@ && labels->0->0@[0].1@ == network,
        a is Yes || a is No,
        b is Yes || b is No,
        c is Yes || c is No,
        d is Yes || d is No,
    ensures
        ({
            let taken = pause_next(network, pod, s, PauseAnswer::No(why));
            let ours = pause_next(network, pod, taken, PauseAnswer::Labels(labels));
            let alone = pause_next(network, pod, ours, a);
            let stopped = pause_next(network, pod, alone, b);
            let removed = pause_next(network, pod, stopped, c);
            let rested = pause_next(network, pod, removed, d);
            &&& taken.ask == PauseAsk::InspectName
            &&& ours.ask == PauseAsk::RemoveNameDependents
            &&& alone.ask == PauseAsk::StopName
            &&& stopped.ask == PauseAsk::RemoveName
            &&& c is Yes ==> removed.ask == PauseAsk::Rest(100)
            &&& c is No ==> removed.ask == PauseAsk::Rest(500)
            &&& rested.ask == PauseAsk::CreateAgain
            &&& pause_next(network, pod, rested, PauseAnswer::Yes).ask == PauseAsk::Start
        }),
{
}

/// A holder is done only where it has an address, and it has failed only where it is said
/// why; what the daemon refused is the cause.
pub proof fn law_sandboxes_end_with_an_address_or_a_reason(
    network: Seq<char>,
    pod: Seq<char>,
    s: PauseView,
    a: PauseAnswer,
)
    ensures
        ({
            let next = pause_next(network, pod, s, a);
            &&& s.ask != PauseAsk::Done && next.ask == PauseAsk::Done ==> next.address is Some
            &&& s.ask != PauseAsk::Failed && next.ask == PauseAsk::Failed ==> next.error is Some
            &&& s.ask != PauseAsk::Failed && next.ask == PauseAsk::Failed && a is No ==> next.cause
                == Some(a->No_0@)
            &&& (s.ask == PauseAsk::Image || s.ask == PauseAsk::CreateAgain || s.ask
                == PauseAsk::Start) && a is No ==> next.ask == PauseAsk::Failed
            &&& s.ask == PauseAsk::Create && a is No && !text::has(a->No_0@, "409"@) && !text::has(
                a->No_0@,
                "Conflict"@,
            ) && !text::has(a->No_0@, "already in use"@) ==> next.ask == PauseAsk::Failed
            &&& s.ask == PauseAsk::Wait && (a matches PauseAnswer::Running(r, late) && !late && r
                != Ok::<bool, String>(true)) ==> next.ask == PauseAsk::WaitMore
            &&& s.ask == PauseAsk::Wait && (a matches PauseAnswer::Running(r, late) && late && r
                != Ok::<bool, String>(true)) ==> next.ask == PauseAsk::Failed
            &&& s.ask == PauseAsk::WaitMore && (a is Yes || a is No) ==> next.ask == PauseAsk::Wait
            &&& s.ask != PauseAsk::Address && s.ask != PauseAsk::Inspect ==> next.address
                == s.address
        }),
{
}

/// A container whose first label of its cluster names another one, or that has none, is
/// another cluster's; one that the daemon does not show is not.
pub proof fn law_foreign_containers_are_told_by_their_label(
    network: Seq<char>,
    labels: Seq<(String, String)>,
    v: Vec<(String, String)>,
    i: int,
)
    requires
        v@ == labels,
    ensures
        !is_foreign(network, None),
        is_foreign(network, Some(None)),
        (forall|j: int| 0 <= j < labels.len() ==> (#[trigger] labels[j]).0@
            != "rusternetes.io/cluster"@) ==> is_foreign(network, Some(Some(v))),
        0 <= i < labels.len() && labels[i].0@ == "rusternetes.io/cluster"@ && (forall|j: int|
            0 <= j < i ==> (#[trigger] labels[j]).0@ != "rusternetes.io/cluster"@) ==> is_foreign(
            network,
            Some(Some(v)),
        ) == (labels[i].1@ != network),
{
    api::law_lookups_find_the_first(labels, "rusternetes.io/cluster"@);
    assert(0 <= i < labels.len() && labels[i].0@ == "rusternetes.io/cluster"@ && (forall|j: int|
        0 <= j < i ==> (#[trigger] labels[j]).0@ != "rusternetes.io/cluster"@) ==> api::first_with(
        labels,
        "rusternetes.io/cluster"@,
        i,
    ));
}

} // verus!
