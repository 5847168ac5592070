//! The steps by which a container of a pod is started.

use crate::api::Container;
use crate::container;
use crate::container::{ExistingContainer, StartStep};
use crate::holder::is_foreign;
use crate::runtime::ContainerRuntime;
use crate::text;
use vstd::prelude::*;
use vstd::string::*;

verus! {

/// What is to be done next to start a container.
#[derive(Clone, Copy, Debug, PartialEq, Eq, Structural)]
pub enum ContainerAsk {
    /// Look at the container with the name.
    Inspect,
    /// Remove the container with the name, which has ended.
    RemoveOld,
    /// Sleep for 100 milliseconds.
    RestAfterOld,
    /// Look up what the container refers to, and write the files that it needs.
    Prepare,
    /// Create the container.
    Create,
    /// Look at the labels of the container that has the name.
    InspectHolder,
    /// Remove the container that has the name.
    RemoveHolder,
    /// Remove what has the name now.
    RemoveName,
    /// Sleep for 200 milliseconds.
    RestAfterHolder,
    /// Create the container once more.
    CreateAgain,
    /// Start the container.
    Start,
    /// Write the hosts file into the container.
    WriteHosts,
    /// Run the hook that follows the start.
    PostStart,
    /// Stop the container at once.
    Stop,
    /// The container is started, or was left alone.
    Done,
    /// It cannot be started.
    Failed,
}

/// How far the start of a container has come.
#[derive(Clone, Debug)]
pub struct ContainerStart {
    pub ask: ContainerAsk,
    /// The container that has the name, as it is to be removed.
    pub target: Option<String>,
    /// Why the container cannot be started.
    pub error: Option<String>,
}

/// How far the start of a container has come, its texts as characters.
pub ghost struct ContainerStartView {
    pub ask: ContainerAsk,
    pub target: Option<Seq<char>>,
    pub error: Option<Seq<char>>,
}

impl ContainerStart {
    pub open spec fn view_of(self) -> ContainerStartView {
        ContainerStartView {
            ask: self.ask,
            target: text::opt_text(self.target),
            error: text::opt_text(self.error),
        }
    }
}

/// What came of it.
#[derive(Clone, Debug)]
pub enum ContainerAnswer {
    Yes,
    /// It failed, and why.
    No(String),
    /// What the daemon says of the container, where it has one.
    Existing(Option<ExistingContainer>),
    /// The labels of the container that has the name, where the daemon shows it.
    Labels(Option<Option<Vec<(String, String)>>>),
}

/// Something was done, with or without success.
pub open spec fn was_tried(a: ContainerAnswer) -> bool {
    a is Yes || a is No
}

/// The container has a hook that follows its start.
pub open spec fn has_post_start(c: Container) -> bool {
    c.lifecycle matches Some(l) && l.post_start is Some
}

/// The start goes on with `ask`.
pub open spec fn goes_on(s: ContainerStartView, ask: ContainerAsk) -> ContainerStartView {
    ContainerStartView { ask, ..s }
}

/// The container cannot be started.
pub open spec fn start_failed(s: ContainerStartView, error: Seq<char>) -> ContainerStartView {
    ContainerStartView { ask: ContainerAsk::Failed, error: Some(error), ..s }
}

/// What comes behind the container's hosts file.
pub open spec fn after_hosts(c: Container) -> ContainerAsk {
    if has_post_start(c) {
        ContainerAsk::PostStart
    } else {
        ContainerAsk::Done
    }
}

/// What comes next of the start of the container `name`, whose description is `c` and whose
/// pod has a hosts file or not. An answer to something else changes nothing.
pub open spec fn container_next(
    network: Seq<char>,
    name: Seq<char>,
    c: Container,
    has_hosts: bool,
    s: ContainerStartView,
    answer: ContainerAnswer,
) -> ContainerStartView {
    match (s.ask, answer) {
        (ContainerAsk::Inspect, ContainerAnswer::Existing(e)) => goes_on(
            s,
            match container::start_step(e) {
                StartStep::Create => ContainerAsk::Prepare,
                StartStep::Leave => ContainerAsk::Done,
                StartStep::Replace => ContainerAsk::RemoveOld,
            },
        ),
        (ContainerAsk::RemoveOld, ContainerAnswer::Yes) => goes_on(s, ContainerAsk::RestAfterOld),
        (ContainerAsk::RemoveOld, ContainerAnswer::No(e)) => start_failed(s, e@),
        (ContainerAsk::RestAfterOld, a) if was_tried(a) => goes_on(s, ContainerAsk::Prepare),
        (ContainerAsk::Prepare, ContainerAnswer::Yes) => goes_on(s, ContainerAsk::Create),
        (ContainerAsk::Prepare, ContainerAnswer::No(e)) => start_failed(s, e@),
        (ContainerAsk::Create, ContainerAnswer::Yes) => goes_on(s, ContainerAsk::Start),
        (ContainerAsk::Create, ContainerAnswer::No(e)) => if container::name_taken(e@) {
            ContainerStartView {
                ask: ContainerAsk::InspectHolder,
                target: container::holder_in(e@),
                ..s
            }
        } else {
            start_failed(s, "Failed to create container: "@ + e@)
        },
        (ContainerAsk::InspectHolder, ContainerAnswer::Labels(l)) => if is_foreign(network, l) {
            start_failed(
                s,
                "Container name "@ + name
                    + " is already in use by a container this cluster did not create; refusing to remove it"@,
            )
        } else {
            goes_on(s, ContainerAsk::RemoveHolder)
        },
        (ContainerAsk::RemoveHolder, a) if was_tried(a) => goes_on(
            s,
            if s.target is Some {
                ContainerAsk::RemoveName
            } else {
                ContainerAsk::RestAfterHolder
            },
        ),
        (ContainerAsk::RemoveName, a) if was_tried(a) => goes_on(s, ContainerAsk::RestAfterHolder),
        (ContainerAsk::RestAfterHolder, a) if was_tried(a) => goes_on(s, ContainerAsk::CreateAgain),
        (ContainerAsk::CreateAgain, ContainerAnswer::Yes) => goes_on(s, ContainerAsk::Start),
        (ContainerAsk::CreateAgain, ContainerAnswer::No(e)) => start_failed(
            s,
            "Failed to create container: "@ + e@,
        ),
        (ContainerAsk::Start, ContainerAnswer::Yes) => goes_on(
            s,
            if has_hosts {
                ContainerAsk::WriteHosts
            } else {
                after_hosts(c)
            },
        ),
        (ContainerAsk::Start, ContainerAnswer::No(e)) => start_failed(
            s,
            "Failed to start container "@ + name + ": "@ + e@,
        ),
        (ContainerAsk::WriteHosts, a) if was_tried(a) => goes_on(s, after_hosts(c)),
        (ContainerAsk::PostStart, ContainerAnswer::Yes) => goes_on(s, ContainerAsk::Done),
        (ContainerAsk::PostStart, ContainerAnswer::No(e)) => ContainerStartView {
            ask: ContainerAsk::Stop,
            error: Some("PostStartHook failed for container "@ + c.name@ + ": "@ + e@),
            ..s
        },
        (ContainerAsk::Stop, a) if was_tried(a) => goes_on(s, ContainerAsk::Failed),
        _ => s,
    }
}

/// How much is left to be done.
pub open spec fn start_steps_left(ask: ContainerAsk) -> int {
    match ask {
        ContainerAsk::Inspect => 14,
        ContainerAsk::RemoveOld => 13,
        ContainerAsk::RestAfterOld => 12,
        ContainerAsk::Prepare => 11,
        ContainerAsk::Create => 10,
        ContainerAsk::InspectHolder => 9,
        ContainerAsk::RemoveHolder => 8,
        ContainerAsk::RemoveName => 7,
        ContainerAsk::RestAfterHolder => 6,
        ContainerAsk::CreateAgain => 5,
        ContainerAsk::Start => 4,
        ContainerAsk::WriteHosts => 3,
        ContainerAsk::PostStart => 2,
        ContainerAsk::Stop => 1,
        ContainerAsk::Done | ContainerAsk::Failed => 0,
    }
}

/// The answer is one to what was asked.
pub open spec fn start_answers(ask: ContainerAsk, a: ContainerAnswer) -> bool {
    match ask {
        ContainerAsk::Inspect => a is Existing,
        ContainerAsk::InspectHolder => a is Labels,
        _ => was_tried(a),
    }
}

/// Starting a container comes to an end, whatever the answers are; it is created twice at
/// most.
pub proof fn law_starting_a_container_ends(
    network: Seq<char>,
    name: Seq<char>,
    c: Container,
    has_hosts: bool,
    s: ContainerStartView,
    a: ContainerAnswer,
)
    requires
        start_answers(s.ask, a),
    ensures
        ({
            let next = container_next(network, name, c, has_hosts, s, a).ask;
            if s.ask == ContainerAsk::Done || s.ask == ContainerAsk::Failed {
                next == s.ask
            } else {
                0 <= start_steps_left(next) < start_steps_left(s.ask)
            }
        }),
{
}

/// A container that another cluster has made is never removed to make room for one of this
/// cluster's, and one that runs is left alone.
pub proof fn law_foreign_and_running_containers_stay(
    network: Seq<char>,
    name: Seq<char>,
    c: Container,
    has_hosts: bool,
    s: ContainerStartView,
    a: ContainerAnswer,
)
    ensures
        s.ask == ContainerAsk::InspectHolder && (a matches ContainerAnswer::Labels(l) && is_foreign(
            network,
            l,
        )) ==> container_next(network, name, c, has_hosts, s, a).ask == ContainerAsk::Failed,
        container_next(network, name, c, has_hosts, s, a).ask == ContainerAsk::RemoveHolder
            ==> s.ask == ContainerAsk::RemoveHolder || (s.ask == ContainerAsk::InspectHolder && (
        a matches ContainerAnswer::Labels(l) && !is_foreign(network, l))),
        s.ask == ContainerAsk::Inspect && (a matches ContainerAnswer::Existing(Some(e)) && e.running
            == Some(true)) ==> container_next(network, name, c, has_hosts, s, a).ask
            == ContainerAsk::Done,
{
}

/// A container whose hook fails is stopped before its start is given up.
pub proof fn law_a_failed_hook_stops_the_container(
    network: Seq<char>,
    name: Seq<char>,
    c: Container,
    has_hosts: bool,
    s: ContainerStartView,
    why: String,
    a: ContainerAnswer,
)
    requires
        s.ask == ContainerAsk::PostStart,
        was_tried(a),
    ensures
        ({
            let stopping = container_next(
                network,
                name,
                c,
                has_hosts,
                s,
                ContainerAnswer::No(why),
            );
            let given_up = container_next(network, name, c, has_hosts, stopping, a);
            &&& stopping.ask == ContainerAsk::Stop
            &&& given_up.ask == ContainerAsk::Failed
            &&& given_up.error == Some(
                "PostStartHook failed for container "@ + c.name@ + ": "@ + why@,
            )
        }),
{
}

fn to(s: ContainerStart, ask: ContainerAsk) -> (r: ContainerStart)
    ensures
        r.view_of() == goes_on(s.view_of(), ask),
{
    ContainerStart { ask, target: s.target, error: s.error }
}

fn fail(s: ContainerStart, error: String) -> (r: ContainerStart)
    ensures
        r.view_of() == start_failed(s.view_of(), error@),
{
    ContainerStart { ask: ContainerAsk::Failed, target: s.target, error: Some(error) }
}

fn behind_hosts(c: &Container) -> (r: ContainerAsk)
    ensures
        r == after_hosts(*c),
{
    match &c.lifecycle {
        Some(l) => if l.post_start.is_some() {
            ContainerAsk::PostStart
        } else {
            ContainerAsk::Done
        },
        None => ContainerAsk::Done,
    }
}

impl ContainerRuntime {
    /// The first step of starting a container.
    pub fn first_container_step(&self) -> (r: ContainerStart)
        ensures
            r.view_of() == (ContainerStartView {
                ask: ContainerAsk::Inspect,
                target: None,
                error: None,
            }),
    {
        ContainerStart { ask: ContainerAsk::Inspect, target: None, error: None }
    }

    /// What comes next of the start of the container `name`.
    pub fn next_container_step(
        &self,
        name: &str,
        container: &Container,
        has_hosts: bool,
        s: ContainerStart,
        answer: ContainerAnswer,
    ) -> (r: ContainerStart)
        ensures
            r.view_of() == container_next(
                self.network@,
                name@,
                *container,
                has_hosts,
                s.view_of(),
                answer,
            ),
    {
        let ask: ContainerAsk = s.ask;
        match (ask, answer) {
            (ContainerAsk::Inspect, ContainerAnswer::Existing(e)) => {
                let next = match container::first_step(e) {
                    StartStep::Create => ContainerAsk::Prepare,
                    StartStep::Leave => ContainerAsk::Done,
                    StartStep::Replace => ContainerAsk::RemoveOld,
                };
                to(s, next)
            },
            (ContainerAsk::RemoveOld, ContainerAnswer::Yes) => to(s, ContainerAsk::RestAfterOld),
            (ContainerAsk::RemoveOld, ContainerAnswer::No(e)) => fail(s, e),
            (ContainerAsk::RestAfterOld, ContainerAnswer::Yes | ContainerAnswer::No(_)) => {
                to(s, ContainerAsk::Prepare)
            },
            (ContainerAsk::Prepare, ContainerAnswer::Yes) => to(s, ContainerAsk::Create),
            (ContainerAsk::Prepare, ContainerAnswer::No(e)) => fail(s, e),
            (ContainerAsk::Create, ContainerAnswer::Yes) => to(s, ContainerAsk::Start),
            (ContainerAsk::Create, ContainerAnswer::No(e)) => {
                if container::name_is_taken(e.as_str()) {
                    ContainerStart {
                        ask: ContainerAsk::InspectHolder,
                        target: container::conflicting_id(e.as_str()),
                        error: s.error,
                    }
                } else {
                    fail(s, text::cat2("Failed to create container: ", e.as_str()))
                }
            },
            (ContainerAsk::InspectHolder, ContainerAnswer::Labels(l)) => {
                match self.refuse_removal(name, &l) {
                    Some(e) => fail(s, e),
                    None => to(s, ContainerAsk::RemoveHolder),
                }
            },
            (ContainerAsk::RemoveHolder, ContainerAnswer::Yes | ContainerAnswer::No(_)) => {
                let next = if s.target.is_some() {
                    ContainerAsk::RemoveName
                } else {
                    ContainerAsk::RestAfterHolder
                };
                to(s, next)
            },
            (ContainerAsk::RemoveName, ContainerAnswer::Yes | ContainerAnswer::No(_)) => {
                to(s, ContainerAsk::RestAfterHolder)
            },
            (ContainerAsk::RestAfterHolder, ContainerAnswer::Yes | ContainerAnswer::No(_)) => {
                to(s, ContainerAsk::CreateAgain)
            },
            (ContainerAsk::CreateAgain, ContainerAnswer::Yes) => to(s, ContainerAsk::Start),
            (ContainerAsk::CreateAgain, ContainerAnswer::No(e)) => fail(
                s,
                text::cat2("Failed to create container: ", e.as_str()),
            ),
            (ContainerAsk::Start, ContainerAnswer::Yes) => {
                let next = if has_hosts {
                    ContainerAsk::WriteHosts
                } else {
                    behind_hosts(container)
                };
                to(s, next)
            },
            (ContainerAsk::Start, ContainerAnswer::No(e)) => fail(
                s,
                text::cat4("Failed to start container ", name, ": ", e.as_str()),
            ),
            (ContainerAsk::WriteHosts, ContainerAnswer::Yes | ContainerAnswer::No(_)) => {
                to(s, behind_hosts(container))
            },
            (ContainerAsk::PostStart, ContainerAnswer::Yes) => to(s, ContainerAsk::Done),
            (ContainerAsk::PostStart, ContainerAnswer::No(e)) => ContainerStart {
                ask: ContainerAsk::Stop,
                target: s.target,
                error: Some(
                    text::cat4(
                        "PostStartHook failed for container ",
                        container.name.as_str(),
                        ": ",
                        e.as_str(),
                    ),
                ),
            },
            (ContainerAsk::Stop, ContainerAnswer::Yes | ContainerAnswer::No(_)) => {
                to(s, ContainerAsk::Failed)
            },
            _ => s,
        }
    }

    /// The container to look at and to remove where the wanted name is taken: the one that
    /// the daemon named, or else the one with the name.
    pub fn name_holder(&self, name: &str, s: &ContainerStart) -> (r: String)
        ensures
            r@ == (match s.target {
                Some(t) => t@,
                None => name@,
            }),
    {
        match &s.target {
            Some(t) => t.clone(),
            None => String::from_str(name),
        }
    }
}

/// A container that is not there is created and started: what it refers to is looked up
/// first, its hosts file is written where its pod has one, and the hook that follows its
/// start is run where it has one, and not otherwise.
pub proof fn law_a_missing_container_is_started(
    network: Seq<char>,
    name: Seq<char>,
    c: Container,
    has_hosts: bool,
    s: ContainerStartView,
    a: ContainerAnswer,
)
    requires
        s.ask == ContainerAsk::Inspect,
        a is Yes || a is No,
    ensures
        ({
            let yes = ContainerAnswer::Yes;
            let looked = container_next(
                network,
                name,
                c,
                has_hosts,
                s,
                ContainerAnswer::Existing(None),
            );
            let ready = container_next(network, name, c, has_hosts, looked, yes);
            let made = container_next(network, name, c, has_hosts, ready, yes);
            let begun = container_next(network, name, c, has_hosts, made, yes);
            let known = if has_hosts {
                container_next(network, name, c, has_hosts, begun, a)
            } else {
                begun
            };
            &&& looked.ask == ContainerAsk::Prepare
            &&& ready.ask == ContainerAsk::Create
            &&& made.ask == ContainerAsk::Start
            &&& has_hosts ==> begun.ask == ContainerAsk::WriteHosts
            &&& c.lifecycle is Some && c.lifecycle->0.post_start is Some ==> known.ask
                == ContainerAsk::PostStart && container_next(
                network,
                name,
                c,
                has_hosts,
                known,
                yes,
            ).ask == ContainerAsk::Done
            &&& c.lifecycle is None || c.lifecycle->0.post_start is None ==> known.ask
                == ContainerAsk::Done
        }),
{
}

/// A container that has ended is removed before it is made anew, and one that cannot be
/// removed is not; one in any other state is left as it is.
pub proof fn law_ended_containers_are_made_anew(
    network: Seq<char>,
    name: Seq<char>,
    c: Container,
    has_hosts: bool,
    s: ContainerStartView,
    e: ExistingContainer,
    why: String,
    a: ContainerAnswer,
)
    requires
        s.ask == ContainerAsk::Inspect,
        a is Yes || a is No,
    ensures
        ({
            let looked = container_next(
                network,
                name,
                c,
                has_hosts,
                s,
                ContainerAnswer::Existing(Some(e)),
            );
            let gone = container_next(network, name, c, has_hosts, looked, ContainerAnswer::Yes);
            let stays = container_next(
                network,
                name,
                c,
                has_hosts,
                looked,
                ContainerAnswer::No(why),
            );
            if e.running != Some(true) && (e.status == Some(container::ContainerStatusKind::Exited) || e.status
                == Some(container::ContainerStatusKind::Dead)) {
                &&& looked.ask == ContainerAsk::RemoveOld
                &&& gone.ask == ContainerAsk::RestAfterOld
                &&& container_next(network, name, c, has_hosts, gone, a).ask
                    == ContainerAsk::Prepare
                &&& stays.ask == ContainerAsk::Failed
                &&& stays.error == Some(why@)
            } else {
                looked.ask == ContainerAsk::Done
            }
        }),
{
}

/// Where a container's name is taken by one of this cluster's, or by one that the daemon does
/// not show, that one is removed, by the identity that the daemon named and by its name, and
/// the container is created once more.
pub proof fn law_a_taken_name_is_freed(
    network: Seq<char>,
    name: Seq<char>,
    c: Container,
    has_hosts: bool,
    s: ContainerStartView,
    why: String,
    labels: Option<Option<Vec<(String, String)>>>,
    a: ContainerAnswer,
)
    requires
        s.ask == ContainerAsk::Create,
        text::has(why@, "409"@) || text::has(why@, "Conflict"@) || text::has(
            why@,
            "already in use"@,
        ),
        labels is Some ==> labels->0 is Some && labels->0->0@.len() > 0 && labels->0->0@[0].0@
            == "rusternetes.io/cluster"@ && labels->0->0@[0].1@ == network,
        a is Yes || a is No,
    ensures
        ({
            let taken = container_next(network, name, c, has_hosts, s, ContainerAnswer::No(why));
            let ours = container_next(
                network,
                name,
                c,
                has_hosts,
                taken,
                ContainerAnswer::Labels(labels),
            );
            let removed = container_next(network, name, c, has_hosts, ours, a);
            let free = if taken.target is Some {
                container_next(network, name, c, has_hosts, removed, a)
            } else {
                removed
            };
            let again = container_next(network, name, c, has_hosts, free, a);
            &&& taken.ask == ContainerAsk::InspectHolder
            &&& taken.target == container::holder_in(why@)
            &&& ours.ask == ContainerAsk::RemoveHolder
            &&& taken.target is Some ==> removed.ask == ContainerAsk::RemoveName
            &&& free.ask == ContainerAsk::RestAfterHolder
            &&& again.ask == ContainerAsk::CreateAgain
            &&& container_next(network, name, c, has_hosts, again, ContainerAnswer::Yes).ask
                == ContainerAsk::Start
        }),
{
}

/// What the daemon refuses fails the start, with the daemon's reason told.
pub proof fn law_refusals_fail_the_start(
    network: Seq<char>,
    name: Seq<char>,
    c: Container,
    has_hosts: bool,
    s: ContainerStartView,
    why: String,
)
    ensures
        ({
            let next = container_next(network, name, c, has_hosts, s, ContainerAnswer::No(why));
            let taken = text::has(why@, "409"@) || text::has(why@, "Conflict"@) || text::has(
                why@,
                "already in use"@,
            );
            &&& s.ask == ContainerAsk::Prepare ==> next.ask == ContainerAsk::Failed && next.error
                == Some(why@)
            &&& (s.ask == ContainerAsk::Create && !taken) || s.ask == ContainerAsk::CreateAgain
                ==> next.ask == ContainerAsk::Failed && next.error == Some(
                "Failed to create container: "@ + why@,
            )
            &&& s.ask == ContainerAsk::Start ==> next.ask == ContainerAsk::Failed && next.error
                == Some("Failed to start container "@ + name + ": "@ + why@)
            &&& s.ask != ContainerAsk::Done ==> next.ask == ContainerAsk::Done ==> s.ask
                == ContainerAsk::WriteHosts
        }),
{
}

} // verus!
