//! The container that holds a pod's network: its configuration, its address, and the
//! containers that hang on it.

use crate::api;
use crate::api::{Pod, Sysctl};
use crate::container;
use crate::container::{one_text, some_texts};
use crate::daemon::{ContainerSummary, NetworkSettings};
use crate::dns;
use crate::downward;
use crate::hosts;
use crate::mounts;
use crate::names;
use crate::ports;
use crate::ports::PortBinding;
use crate::runtime::ContainerRuntime;
use crate::security;
use crate::shell;
use crate::text;
use vstd::prelude::*;
use vstd::string::*;

verus! {

/// The image that the network holder runs.
pub const PAUSE_IMAGE: &'static str = "busybox:latest";

/// A container is in the network of the pod's holder, by its name or by its id.
pub open spec fn depends_on(mode: Option<String>, pause: Seq<char>, id: Option<Seq<char>>) -> bool {
    match mode {
        Some(m) => m@ == "container:"@ + pause || (id matches Some(i) && m@ == "container:"@ + i),
        None => false,
    }
}

/// One of the container's names holds `part`.
pub open spec fn named_with(c: ContainerSummary, part: Seq<char>) -> bool {
    match c.names {
        Some(ns) => container::any_has(text::texts(ns@), part),
        None => false,
    }
}

/// A container of a pod hangs on a network holder that is not the pod's present one.
pub open spec fn is_stranded(c: ContainerSummary, pod: Seq<char>, id: Option<Seq<char>>) -> bool {
    let pause = names::pause_name_text(pod);
    &&& !named_with(c, pause)
    &&& c.network_mode is Some
    &&& text::begins(c.network_mode->0@, "container:"@)
    &&& !depends_on(c.network_mode, pause, id)
}

/// The ids of those of the containers for which `f` holds and which have one, in order.
pub open spec fn ids_where(cs: Seq<ContainerSummary>, f: spec_fn(ContainerSummary) -> bool) -> Seq<
    Seq<char>,
>
    decreases cs.len(),
{
    if cs.len() == 0 {
        Seq::empty()
    } else {
        let rest = ids_where(cs.drop_last(), f);
        if f(cs.last()) && cs.last().id is Some {
            rest.push(cs.last().id->0@)
        } else {
            rest
        }
    }
}

/// Whether a network mode is that of the holder.
fn hangs_on(mode: &Option<String>, pause: &str, id: Option<&str>) -> (r: bool)
    ensures
        r == depends_on(*mode, pause@, dns::opt_str(id)),
{
    match mode {
        Some(m) => {
            let by_name = text::cat2("container:", pause);
            if text::same(m.as_str(), by_name.as_str()) {
                return true;
            }
            match id {
                Some(i) => {
                    let by_id = text::cat2("container:", i);
                    text::same(m.as_str(), by_id.as_str())
                },
                None => false,
            }
        },
        None => false,
    }
}

/// Whether one of the container's names holds `part`.
pub fn has_name_with(c: &ContainerSummary, part: &str) -> (r: bool)
    ensures
        r == named_with(*c, part@),
{
    match &c.names {
        None => false,
        Some(ns) => {
            let mut i: usize = 0;
            while i < ns.len()
                invariant
                    i <= ns@.len(),
                    c.names == Some(*ns),
                    forall|j: int| 0 <= j < i ==> !text::has(#[trigger] text::texts(ns@)[j], part@),
                decreases ns@.len() - i,
            {
                if text::contains(ns[i].as_str(), part) {
                    assert(text::has(text::texts(ns@)[i as int], part@));
                    return true;
                }
                i += 1;
            }
            false
        },
    }
}

/// What the daemon creates the network holder of a pod from.
pub struct PauseConfig {
    pub name: String,
    pub image: String,
    pub labels: Vec<(String, String)>,
    pub cmd: Vec<String>,
    pub hostname: String,
    pub exposed_ports: Option<Vec<String>>,
    pub network_mode: String,
    pub ipc_mode: String,
    pub dns: Option<Vec<String>>,
    pub dns_options: Option<Vec<String>>,
    pub port_bindings: Option<Vec<PortBinding>>,
    pub sysctls: Option<Vec<(String, String)>>,
}

/// The kernel settings of a list by name; a later one takes the place of an earlier.
pub open spec fn sysctl_map(s: Seq<Sysctl>) -> Seq<(Seq<char>, Seq<char>)>
    decreases s.len(),
{
    if s.len() == 0 {
        Seq::empty()
    } else {
        ports::put(sysctl_map(s.drop_last()), s.last().name@, s.last().value@)
    }
}

/// The kernel settings that a pod asks for.
pub open spec fn sysctls_of(pod: Pod) -> Option<Seq<(Seq<char>, Seq<char>)>> {
    match security::pod_context(pod) {
        Some(sc) => match sc.sysctls {
            Some(s) => Some(sysctl_map(s@)),
            None => None,
        },
        None => None,
    }
}

/// The ports of all of a pod's containers.
pub open spec fn pod_port_list(pod: Pod) -> Seq<api::ContainerPort> {
    match pod.spec {
        Some(s) => ports::all_ports(s.containers@),
        None => Seq::empty(),
    }
}

/// The address of the container in the named network, where it has one there.
pub open spec fn address_in(nets: Seq<(String, Option<String>)>, name: Seq<char>) -> Option<
    Seq<char>,
>
    decreases nets.len(),
{
    if nets.len() == 0 {
        None
    } else if nets[0].0@ == name {
        text::opt_text(nets[0].1)
    } else {
        address_in(nets.drop_first(), name)
    }
}

/// The address of the container in the named network.
pub open spec fn network_address(n: NetworkSettings, name: Seq<char>) -> Option<Seq<char>> {
    match n.networks {
        Some(nets) => address_in(nets@, name),
        None => None,
    }
}

/// `a` is the address of something.
pub open spec fn is_assigned(a: Seq<char>) -> bool {
    a.len() > 0 && a != "0.0.0.0"@
}

/// The address that a container was given: in the named network, or else by default.
pub open spec fn assigned_address(n: Option<NetworkSettings>, name: Seq<char>) -> Option<Seq<char>> {
    match n {
        None => None,
        Some(s) => match network_address(s, name) {
            Some(a) if is_assigned(a) => Some(a),
            _ => match s.ip_address {
                Some(a) if is_assigned(a@) => Some(a@),
                _ => None,
            },
        },
    }
}

/// What the daemon says of a network holder that exists.
#[derive(Clone, Debug, Default)]
pub struct ExistingPause {
    pub id: Option<String>,
    pub running: Option<bool>,
    pub network: Option<NetworkSettings>,
}

/// What to do about a pod's network holder before one is created.
#[derive(Clone, Debug)]
pub enum PauseStep {
    /// There is none: create it.
    Create,
    /// It runs and has the address: remove what is stranded, and use it.
    Use(String),
    /// It runs without an address: remove what is stranded, then what hangs on it and
    /// the holder itself, and create it anew.
    ReplaceRunning,
    /// It has ended: remove what hangs on it and the holder itself, and create it anew.
    Replace,
}

/// The address of a running holder in the runtime's network.
pub open spec fn holder_address(e: ExistingPause, network: Seq<char>) -> Option<Seq<char>> {
    match e.network {
        Some(n) => match network_address(n, network) {
            Some(a) if a.len() > 0 => Some(a),
            _ => None,
        },
        None => None,
    }
}

/// The address of the container in the named network.
fn address_of<'a>(n: &'a NetworkSettings, name: &str) -> (r: Option<&'a str>)
    ensures
        dns::opt_str(r) == network_address(*n, name@),
{
    match &n.networks {
        None => None,
        Some(nets) => {
            let mut i: usize = 0;
            assert(nets@.skip(0) == nets@);
            while i < nets.len()
                invariant
                    i <= nets@.len(),
                    n.networks == Some(*nets),
                    address_in(nets@, name@) == address_in(nets@.skip(i as int), name@),
                decreases nets@.len() - i,
            {
                assert(nets@.skip(i as int)[0] == nets@[i as int]);
                assert(nets@.skip(i as int).drop_first() == nets@.skip(i + 1));
                if text::same(nets[i].0.as_str(), name) {
                    return match &nets[i].1 {
                        Some(a) => Some(a.as_str()),
                        None => None,
                    };
                }
                i += 1;
            }
            None
        },
    }
}

/// Whether the text is the address of something.
pub fn assigned(a: &str) -> (r: bool)
    ensures
        r == is_assigned(a@),
{
    !a.is_empty() && !text::same(a, "0.0.0.0")
}

/// What comes next while a new network holder is not known to run.
#[derive(Clone, Debug)]
pub enum PauseWait {
    Running,
    Again,
    GiveUp(String),
}

/// The kernel settings that a pod asks for.
pub fn extract_sysctls(pod: &Pod) -> (r: Option<Vec<(String, String)>>)
    ensures
        (match r {
            Some(v) => Some(api::pair_texts(v@)),
            None => None::<Seq<(Seq<char>, Seq<char>)>>,
        }) == sysctls_of(*pod),
{
    let sc = match security::context_of(pod) {
        Some(sc) => sc,
        None => {
            return None;
        },
    };
    match &sc.sysctls {
        None => None,
        Some(s) => {
            let mut r: Vec<(String, String)> = Vec::new();
            let mut i: usize = 0;
            assert(s@.take(0) == Seq::<Sysctl>::empty());
            assert(api::pair_texts(r@) =~= Seq::<(Seq<char>, Seq<char>)>::empty());
            while i < s.len()
                invariant
                    i <= s@.len(),
                    api::pair_texts(r@) == sysctl_map(s@.take(i as int)),
                decreases s@.len() - i,
            {
                assert(s@.take(i as int + 1).drop_last() == s@.take(i as int));
                assert(s@.take(i as int + 1).last() == s@[i as int]);
                mounts::put_pair(&mut r, s[i].name.as_str(), s[i].value.as_str());
                i += 1;
            }
            assert(s@.take(s@.len() as int) == s@);
            Some(r)
        },
    }
}

impl ContainerRuntime {
    /// The containers of a pod that hang on a network holder other than its present one.
    /// Nothing can attach them again: they have to be removed and made anew.
    pub fn remove_stranded_dependents(
        &self,
        pod_name: &str,
        pause_id: Option<&str>,
        containers: &Vec<ContainerSummary>,
    ) -> (r: Vec<String>)
        ensures
            text::texts(r@) == ids_where(
                containers@,
                |c: ContainerSummary| is_stranded(c, pod_name@, dns::opt_str(pause_id)),
            ),
    {
        let ghost f = |c: ContainerSummary| is_stranded(c, pod_name@, dns::opt_str(pause_id));
        let pause = names::pause_name(pod_name);
        let mut r: Vec<String> = Vec::new();
        let mut i: usize = 0;
        assert(containers@.take(0) == Seq::<ContainerSummary>::empty());
        assert(text::texts(r@) =~= Seq::<Seq<char>>::empty());
        while i < containers.len()
            invariant
                i <= containers@.len(),
                pause@ == names::pause_name_text(pod_name@),
                f == (|c: ContainerSummary| is_stranded(c, pod_name@, dns::opt_str(pause_id))),
                text::texts(r@) == ids_where(containers@.take(i as int), f),
            decreases containers@.len() - i,
        {
            let c = &containers[i];
            assert(containers@.take(i as int + 1).drop_last() == containers@.take(i as int));
            assert(containers@.take(i as int + 1).last() == containers@[i as int]);
            let stranded: bool = !has_name_with(c, pause.as_str()) && (match &c.network_mode {
                Some(m) => text::starts_with(m.as_str(), "container:"),
                None => false,
            }) && !hangs_on(&c.network_mode, pause.as_str(), pause_id);
            assert(stranded == f(containers@[i as int]));
            if stranded {
                if let Some(id) = &c.id {
                    text::push_text(&mut r, id.clone());
                }
            }
            i += 1;
        }
        assert(containers@.take(containers@.len() as int) == containers@);
        r
    }

    /// The containers that hang on a pod's network holder. The daemon reports the holder
    /// by its id once a container has joined it, whatever name it was joined by.
    pub fn pause_dependents(
        &self,
        pod_name: &str,
        pause_id: Option<&str>,
        containers: &Vec<ContainerSummary>,
    ) -> (r: Vec<String>)
        ensures
            text::texts(r@) == ids_where(
                containers@,
                |c: ContainerSummary| depends_on(
                    c.network_mode,
                    names::pause_name_text(pod_name@),
                    dns::opt_str(pause_id),
                ),
            ),
    {
        let ghost f = |c: ContainerSummary| depends_on(
            c.network_mode,
            names::pause_name_text(pod_name@),
            dns::opt_str(pause_id),
        );
        let pause = names::pause_name(pod_name);
        let mut r: Vec<String> = Vec::new();
        let mut i: usize = 0;
        assert(containers@.take(0) == Seq::<ContainerSummary>::empty());
        assert(text::texts(r@) =~= Seq::<Seq<char>>::empty());
        while i < containers.len()
            invariant
                i <= containers@.len(),
                pause@ == names::pause_name_text(pod_name@),
                f == (|c: ContainerSummary| depends_on(
                    c.network_mode,
                    names::pause_name_text(pod_name@),
                    dns::opt_str(pause_id),
                )),
                text::texts(r@) == ids_where(containers@.take(i as int), f),
            decreases containers@.len() - i,
        {
            let c = &containers[i];
            assert(containers@.take(i as int + 1).drop_last() == containers@.take(i as int));
            assert(containers@.take(i as int + 1).last() == containers@[i as int]);
            let hangs: bool = hangs_on(&c.network_mode, pause.as_str(), pause_id);
            assert(hangs == f(containers@[i as int]));
            if hangs {
                if let Some(id) = &c.id {
                    text::push_text(&mut r, id.clone());
                }
            }
            i += 1;
        }
        assert(containers@.take(containers@.len() as int) == containers@);
        r
    }

    /// What to do about a pod's network holder before one is created. Making a running
    /// one anew would take the network from every container that hangs on it, so one
    /// that has an address is used as it is.
    pub fn start_pause_container(&self, existing: &Option<ExistingPause>) -> (r: PauseStep)
        ensures
            match *existing {
                None => r is Create,
                Some(e) => if e.running == Some(true) {
                    match holder_address(e, self.network@) {
                        Some(a) => r matches PauseStep::Use(t) && t@ == a,
                        None => r is ReplaceRunning,
                    }
                } else {
                    r is Replace
                },
            },
    {
        let e = match existing {
            None => {
                return PauseStep::Create;
            },
            Some(e) => e,
        };
        let running: bool = match e.running {
            Some(b) => b,
            None => false,
        };
        if !running {
            return PauseStep::Replace;
        }
        if let Some(n) = &e.network {
            if let Some(a) = address_of(n, self.network.as_str()) {
                if !a.is_empty() {
                    return PauseStep::Use(String::from_str(a));
                }
            }
        }
        PauseStep::ReplaceRunning
    }

    /// The address that a container was given: in the runtime's network, or else by
    /// default.
    pub fn assigned_ip(&self, network: &Option<NetworkSettings>) -> (r: Option<String>)
        ensures
            text::opt_text(r) == assigned_address(*network, self.network@),
    {
        let n = match network {
            None => {
                return None;
            },
            Some(n) => n,
        };
        if let Some(a) = address_of(n, self.network.as_str()) {
            if assigned(a) {
                return Some(String::from_str(a));
            }
        }
        match &n.ip_address {
            Some(a) => if assigned(a.as_str()) {
                Some(a.clone())
            } else {
                None
            },
            None => None,
        }
    }

    /// The address of a network holder that has just been started, or why there is none.
    pub fn pause_ip(&self, network: &Option<NetworkSettings>) -> (r: Result<String, String>)
        ensures
            match assigned_address(*network, self.network@) {
                Some(a) => r matches Ok(t) && t@ == a,
                None => r matches Err(e) && e@
                    == "Pause container started but no IP address was assigned"@,
            },
    {
        match self.assigned_ip(network) {
            Some(a) => Ok(a),
            None => Err(
                String::from_str("Pause container started but no IP address was assigned"),
            ),
        }
    }

    /// What the daemon creates the network holder of a pod from. It declares the ports
    /// of all of the pod's containers, which cannot do so themselves.
    pub fn pause_config(&self, pod_name: &str, pod: &Pod) -> (k: PauseConfig)
        requires
            hosts::can_be_cut(
                match pod.spec {
                    Some(s) => downward::text_or(s.hostname, pod_name@),
                    None => pod_name@,
                },
            ),
        ensures
            k.name@ == names::pause_name_text(pod_name@),
            k.image@ == PAUSE_IMAGE@,
            k.labels@.len() == 2,
            k.labels@[0].0@ == crate::runtime::CLUSTER_LABEL@,
            k.labels@[0].1@ == self.network@,
            k.labels@[1].0@ == crate::runtime::POD_LABEL@,
            k.labels@[1].1@ == pod_name@,
            text::texts(k.cmd@) == seq!["sleep"@, "infinity"@],
            k.hostname@ == hosts::hostname_text(
                match pod.spec {
                    Some(s) => downward::text_or(s.hostname, pod_name@),
                    None => pod_name@,
                },
            ),
            shell::opt_texts(k.exposed_ports) == container::unless_empty(
                ports::exposed(pod_port_list(*pod)),
            ),
            k.network_mode@ == self.network@,
            k.ipc_mode@ == "shareable"@,
            shell::opt_texts(k.dns) == (if pod_name@ == "coredns"@ {
                None
            } else {
                Some(seq![self.cluster_dns@])
            }),
            shell::opt_texts(k.dns_options) == (if pod_name@ == "coredns"@ {
                None
            } else {
                Some(seq!["ndots:5"@])
            }),
            match k.port_bindings {
                Some(b) => b@.len() > 0 && ports::bindings_view(b@) == ports::bound(
                    pod_port_list(*pod),
                    true,
                ),
                None => ports::bound(pod_port_list(*pod), true).len() == 0,
            },
            (match k.sysctls {
                Some(v) => Some(api::pair_texts(v@)),
                None => None::<Seq<(Seq<char>, Seq<char>)>>,
            }) == sysctls_of(*pod),
    {
        let raw: &str = match &pod.spec {
            Some(s) => downward::str_or(&s.hostname, pod_name),
            None => pod_name,
        };
        let (keys, bindings) = ports::pod_ports(pod, true);
        let port_bindings = if bindings.len() == 0 {
            assert(ports::bindings_view(bindings@).len() == 0);
            None
        } else {
            Some(bindings)
        };
        let coredns: bool = text::same(pod_name, "coredns");
        let mut cmd: Vec<String> = Vec::new();
        cmd.push(String::from_str("sleep"));
        cmd.push(String::from_str("infinity"));
        assert(text::texts(cmd@) =~= seq!["sleep"@, "infinity"@]);
        PauseConfig {
            name: names::pause_name(pod_name),
            image: String::from_str(PAUSE_IMAGE),
            labels: self.ownership_labels(pod_name),
            cmd,
            hostname: hosts::pod_hostname(raw),
            exposed_ports: some_texts(keys),
            network_mode: self.network.clone(),
            ipc_mode: String::from_str("shareable"),
            dns: if coredns {
                None
            } else {
                Some(one_text(self.cluster_dns.as_str()))
            },
            dns_options: if coredns {
                None
            } else {
                Some(one_text("ndots:5"))
            },
            port_bindings,
            sysctls: extract_sysctls(pod),
        }
    }

    /// What comes next while a new network holder is not known to run. `inspected` says
    /// whether it runs, or why it could not be looked at; `late` that ten seconds have
    /// gone by.
    pub fn pause_wait(&self, pod_name: &str, inspected: &Result<bool, String>, late: bool) -> (r:
        PauseWait)
        ensures
            match *inspected {
                Ok(true) => r is Running,
                Ok(false) => if late {
                    r matches PauseWait::GiveUp(e) && e@ == "Pause container "@
                        + names::pause_name_text(pod_name@)
                        + " did not reach running state within 10s"@
                } else {
                    r is Again
                },
                Err(why) => if late {
                    r matches PauseWait::GiveUp(e) && e@ == "Pause container "@
                        + names::pause_name_text(pod_name@) + " inspect failed after 10s: "@
                        + why@
                } else {
                    r is Again
                },
            },
    {
        let pause = names::pause_name(pod_name);
        match inspected {
            Ok(running) => if *running {
                PauseWait::Running
            } else if late {
                PauseWait::GiveUp(
                    text::cat3(
                        "Pause container ",
                        pause.as_str(),
                        " did not reach running state within 10s",
                    ),
                )
            } else {
                PauseWait::Again
            },
            Err(why) => if late {
                PauseWait::GiveUp(
                    text::cat4(
                        "Pause container ",
                        pause.as_str(),
                        " inspect failed after 10s: ",
                        why.as_str(),
                    ),
                )
            } else {
                PauseWait::Again
            },
        }
    }

    /// Why a pod's network holder is not made anew, where its name is another cluster's:
    /// `inspected` are the labels of the container with the name, where the daemon shows
    /// it.
    pub fn refuse_pause_removal(
        &self,
        pod_name: &str,
        inspected: &Option<Option<Vec<(String, String)>>>,
    ) -> (r: Option<String>)
        ensures
            match *inspected {
                Some(labels) if api::opt_lookup(labels, crate::runtime::CLUSTER_LABEL@) != Some(
                    self.network@,
                ) => r matches Some(t) && t@ == "Pause container name "@ + names::pause_name_text(
                    pod_name@,
                )
                    + " is already in use by a container this cluster did not create; refusing to remove it"@,
                _ => r is None,
            },
    {
        match inspected {
            Some(labels) => {
                if self.is_owned_by_this_cluster(labels) {
                    None
                } else {
                    let pause = names::pause_name(pod_name);
                    Some(
                        text::cat3(
                            "Pause container name ",
                            pause.as_str(),
                            " is already in use by a container this cluster did not create; refusing to remove it",
                        ),
                    )
                }
            },
            None => None,
        }
    }
}

/// A container in the pod's present network is never taken for a stranded one, and a
/// stranded one never hangs on the present holder.
pub proof fn law_stranded_and_dependent_exclude_each_other(
    c: ContainerSummary,
    pod: Seq<char>,
    id: Option<Seq<char>>,
)
    ensures
        !(is_stranded(c, pod, id) && depends_on(c.network_mode, names::pause_name_text(pod), id)),
{
}

proof fn lemma_ids(cs: Seq<ContainerSummary>, f: spec_fn(ContainerSummary) -> bool, x: Seq<char>)
    ensures
        ids_where(cs, f).contains(x) <==> exists|i: int|
            0 <= i < cs.len() && f(#[trigger] cs[i]) && cs[i].id is Some && cs[i].id->0@ == x,
    decreases cs.len(),
{
    let r = ids_where(cs, f);
    if cs.len() > 0 {
        let d = cs.drop_last();
        lemma_ids(d, f, x);
        let rest = ids_where(d, f);
        if r.contains(x) {
            let k = choose|k: int| 0 <= k < r.len() && r[k] == x;
            if k < rest.len() {
                assert(rest[k] == x);
                let i = choose|i: int|
                    0 <= i < d.len() && f(#[trigger] d[i]) && d[i].id is Some && d[i].id->0@ == x;
                assert(cs[i] == d[i]);
            } else {
                assert(cs[cs.len() - 1] == cs.last());
            }
        }
        if exists|i: int|
            0 <= i < cs.len() && f(#[trigger] cs[i]) && cs[i].id is Some && cs[i].id->0@ == x {
            let i = choose|i: int|
                0 <= i < cs.len() && f(#[trigger] cs[i]) && cs[i].id is Some && cs[i].id->0@ == x;
            if i < d.len() {
                assert(d[i] == cs[i]);
                let k = choose|k: int| 0 <= k < rest.len() && rest[k] == x;
                assert(r[k] == x);
            } else {
                assert(r[r.len() - 1] == x);
            }
        }
    }
}

/// Where a pod's network has a new holder, the containers that joined another one are
/// removed, by their identities, and no others: not those in the present holder's network,
/// by its name or its identity, not those with a network of their own, and not the holder.
pub proof fn law_exactly_the_stranded_are_removed(
    cs: Seq<ContainerSummary>,
    pod: Seq<char>,
    id: Option<Seq<char>>,
    x: Seq<char>,
)
    ensures
        ids_where(cs, |c: ContainerSummary| is_stranded(c, pod, id)).contains(x) <==> exists|i: int|
            0 <= i < cs.len() && joined_another(#[trigger] cs[i], pod, id) && cs[i].id is Some
                && cs[i].id->0@ == x,
{
    let f = |c: ContainerSummary| is_stranded(c, pod, id);
    lemma_ids(cs, f, x);
    assert forall|i: int| 0 <= i < cs.len() implies f(#[trigger] cs[i]) == joined_another(
        cs[i],
        pod,
        id,
    ) by {
        lemma_joined_another(cs[i], pod, id);
    }
}

/// The container is in the network of a container that is not the pod's holder, and is not
/// the holder itself.
pub open spec fn joined_another(c: ContainerSummary, pod: Seq<char>, id: Option<Seq<char>>) -> bool {
    &&& c.network_mode matches Some(m) && text::begins(m@, "container:"@) && m@ != "container:"@
        + pod + "_pause"@ && (id is Some ==> m@ != "container:"@ + id->0)
    &&& c.names is Some ==> forall|j: int|
        0 <= j < c.names->0@.len() ==> !text::has((#[trigger] c.names->0@[j])@, pod + "_pause"@)
}

proof fn lemma_joined_another(c: ContainerSummary, pod: Seq<char>, id: Option<Seq<char>>)
    ensures
        is_stranded(c, pod, id) == joined_another(c, pod, id),
{
    let pause = pod + "_pause"@;
    assert("container:"@ + pause =~= "container:"@ + pod + "_pause"@);
    if c.names is Some {
        let ns = c.names->0@;
        assert forall|j: int| 0 <= j < ns.len() implies text::texts(ns)[j] == (#[trigger] ns[j])@ by {
        }
        if named_with(c, pause) {
            let j = choose|j: int|
                0 <= j < text::texts(ns).len() && text::has(#[trigger] text::texts(ns)[j], pause);
            assert(text::has(ns[j]@, pause));
        } else {
            assert forall|j: int| 0 <= j < ns.len() implies !text::has(
                (#[trigger] ns[j])@,
                pause,
            ) by {
                assert(text::texts(ns)[j] == ns[j]@);
            }
        }
    }
}

/// Before a pod's network holder goes, exactly the containers in its network go, whether they
/// joined it by its name or by its identity.
pub proof fn law_exactly_the_dependents_are_removed(
    cs: Seq<ContainerSummary>,
    pod: Seq<char>,
    id: Option<Seq<char>>,
    x: Seq<char>,
)
    ensures
        ids_where(
            cs,
            |c: ContainerSummary| depends_on(c.network_mode, names::pause_name_text(pod), id),
        ).contains(x) <==> exists|i: int|
            0 <= i < cs.len() && joined_holder(#[trigger] cs[i], pod, id) && cs[i].id is Some
                && cs[i].id->0@ == x,
{
    let f = |c: ContainerSummary| depends_on(c.network_mode, names::pause_name_text(pod), id);
    lemma_ids(cs, f, x);
    assert("container:"@ + (pod + "_pause"@) =~= "container:"@ + pod + "_pause"@);
    assert forall|i: int| 0 <= i < cs.len() implies f(#[trigger] cs[i]) == joined_holder(
        cs[i],
        pod,
        id,
    ) by {}
}

/// The container is in the network of the pod's holder.
pub open spec fn joined_holder(c: ContainerSummary, pod: Seq<char>, id: Option<Seq<char>>) -> bool {
    c.network_mode is Some && (c.network_mode->0@ == "container:"@ + pod + "_pause"@ || (id is Some
        && c.network_mode->0@ == "container:"@ + id->0))
}

/// A container's address is the one in the named network; where it has none there, the one
/// that it has by default. No address and `0.0.0.0` count for none.
pub proof fn law_addresses_are_those_of_the_network(n: NetworkSettings, name: Seq<char>, i: int)
    ensures
        ({
            let own = n.networks is Some && 0 <= i < n.networks->0@.len()
                && n.networks->0@[i].0@ == name && forall|j: int|
                0 <= j < i ==> (#[trigger] n.networks->0@[j]).0@ != name;
            let nowhere = n.networks is None || forall|j: int|
                0 <= j < n.networks->0@.len() ==> (#[trigger] n.networks->0@[j]).0@ != name;
            let there = n.networks->0@[i].1;
            let usable = there is Some && there->0@.len() > 0 && there->0@ != "0.0.0.0"@;
            let r = assigned_address(Some(n), name);
            &&& own && usable ==> r == Some(there->0@)
            &&& (own && !usable) || nowhere ==> r == (if n.ip_address is Some
                && n.ip_address->0@.len() > 0 && n.ip_address->0@ != "0.0.0.0"@ {
                Some(n.ip_address->0@)
            } else {
                None
            })
        }),
        assigned_address(None, name) is None,
{
    if n.networks is Some {
        let nets = n.networks->0@;
        if 0 <= i < nets.len() && nets[i].0@ == name && forall|j: int|
            0 <= j < i ==> (#[trigger] nets[j]).0@ != name {
            lemma_address_at(nets, name, i);
        }
        if forall|j: int| 0 <= j < nets.len() ==> (#[trigger] nets[j]).0@ != name {
            lemma_address_nowhere(nets, name);
        }
    }
}

proof fn lemma_address_at(nets: Seq<(String, Option<String>)>, name: Seq<char>, i: int)
    requires
        0 <= i < nets.len(),
        nets[i].0@ == name,
        forall|j: int| 0 <= j < i ==> (#[trigger] nets[j]).0@ != name,
    ensures
        address_in(nets, name) == text::opt_text(nets[i].1),
    decreases nets.len(),
{
    if i > 0 {
        assert(nets[0].0@ != name);
        let d = nets.drop_first();
        assert(d[i - 1] == nets[i]);
        assert forall|j: int| 0 <= j < i - 1 implies (#[trigger] d[j]).0@ != name by {
            assert(d[j] == nets[j + 1]);
        }
        lemma_address_at(d, name, i - 1);
    }
}

proof fn lemma_address_nowhere(nets: Seq<(String, Option<String>)>, name: Seq<char>)
    requires
        forall|j: int| 0 <= j < nets.len() ==> (#[trigger] nets[j]).0@ != name,
    ensures
        address_in(nets, name) is None,
    decreases nets.len(),
{
    if nets.len() > 0 {
        let d = nets.drop_first();
        assert forall|j: int| 0 <= j < d.len() implies (#[trigger] d[j]).0@ != name by {
            assert(d[j] == nets[j + 1]);
        }
        lemma_address_nowhere(d, name);
    }
}

/// A running holder with an address in the runtime's network has that address.
pub proof fn law_holders_have_their_networks_address(e: ExistingPause, name: Seq<char>, i: int)
    requires
        e.network is Some,
        e.network->0.networks is Some,
        0 <= i < e.network->0.networks->0@.len(),
        e.network->0.networks->0@[i].0@ == name,
        forall|j: int| 0 <= j < i ==> (#[trigger] e.network->0.networks->0@[j]).0@ != name,
    ensures
        holder_address(e, name) == (match e.network->0.networks->0@[i].1 {
            Some(a) => if a@.len() > 0 {
                Some(a@)
            } else {
                None
            },
            None => None,
        }),
{
    lemma_address_at(e.network->0.networks->0@, name, i);
}

/// Each kernel setting that a pod asks for is set to the value that it asks for, the last one
/// where it asks for several, and no other is set.
pub proof fn law_kernel_settings_are_set(pod: Pod, i: int, other: Seq<char>)
    requires
        pod.spec is Some,
        pod.spec->0.security_context is Some,
        pod.spec->0.security_context->0.sysctls is Some,
    ensures
        ({
            let s = pod.spec->0.security_context->0.sysctls->0@;
            let r = sysctls_of(pod);
            &&& r is Some
            &&& 0 <= i < s.len() && (forall|j: int| i < j < s.len() ==> (#[trigger] s[j]).name@
                != s[i].name@) ==> ports::bound_to(r->0, s[i].name@) == Some(s[i].value@)
            &&& (forall|j: int| 0 <= j < s.len() ==> (#[trigger] s[j]).name@ != other)
                ==> ports::bound_to(r->0, other) is None
        }),
{
    let s = pod.spec->0.security_context->0.sysctls->0@;
    if 0 <= i < s.len() && (forall|j: int| i < j < s.len() ==> (#[trigger] s[j]).name@
        != s[i].name@) {
        lemma_setting(s, i);
    }
    if forall|j: int| 0 <= j < s.len() ==> (#[trigger] s[j]).name@ != other {
        lemma_no_setting(s, other);
    }
}

proof fn lemma_setting(s: Seq<Sysctl>, i: int)
    requires
        0 <= i < s.len(),
        forall|j: int| i < j < s.len() ==> (#[trigger] s[j]).name@ != s[i].name@,
    ensures
        ports::bound_to(sysctl_map(s), s[i].name@) == Some(s[i].value@),
    decreases s.len(),
{
    let d = s.drop_last();
    ports::law_put_changes_one_key(sysctl_map(d), s.last().name@, s.last().value@, s[i].name@);
    if i < s.len() - 1 {
        assert(s[s.len() - 1].name@ != s[i].name@);
        assert forall|j: int| i < j < d.len() implies (#[trigger] d[j]).name@ != d[i].name@ by {
            assert(s[j].name@ != s[i].name@);
        }
        lemma_setting(d, i);
    }
}

proof fn lemma_no_setting(s: Seq<Sysctl>, other: Seq<char>)
    requires
        forall|j: int| 0 <= j < s.len() ==> (#[trigger] s[j]).name@ != other,
    ensures
        ports::bound_to(sysctl_map(s), other) is None,
    decreases s.len(),
{
    if s.len() > 0 {
        let d = s.drop_last();
        assert(s[s.len() - 1].name@ != other);
        assert forall|j: int| 0 <= j < d.len() implies (#[trigger] d[j]).name@ != other by {
            assert(s[j].name@ != other);
        }
        lemma_no_setting(d, other);
        ports::law_put_changes_one_key(sysctl_map(d), s.last().name@, s.last().value@, other);
    }
}

/// The network holder of a pod declares the ports of all of its containers.
pub proof fn law_holders_declare_all_ports(pod: Pod, i: int, p: api::ContainerPort)
    requires
        pod.spec is Some,
        0 <= i < pod.spec->0.containers@.len(),
        pod.spec->0.containers@[i].ports is Some,
        pod.spec->0.containers@[i].ports->0@.contains(p),
    ensures
        pod_port_list(pod).contains(p),
{
    ports::law_a_pods_ports_are_its_containers_ports(pod.spec->0.containers@, i, p);
}

} // verus!
