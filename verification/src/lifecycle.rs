//! Lifecycle hooks: what a hook asks for, where it is sent, and what its outcome means.

use crate::api;
use crate::api::{Container, HTTPGetAction, HTTPHeader, LifecycleHandler};
use crate::daemon::NetworkSettings;
use crate::ip;
use crate::names;
use crate::number;
use crate::probe;
use crate::probe::HttpRequest;
use crate::runtime::ContainerRuntime;
use crate::status;
use crate::text;
use vstd::prelude::*;
use vstd::string::*;

verus! {

/// What a hook asks for.
#[derive(Clone, Debug)]
pub enum LifecycleStep {
    /// Run its command in the container.
    Exec(Vec<String>),
    /// Send its request, to the port.
    Http(u16),
    /// Connect to the port.
    Tcp(u16),
    /// Wait for so many seconds.
    Sleep(u64),
    /// Nothing.
    Nothing,
    /// It cannot be done, for the reason given.
    Refuse(String),
}

/// What a hook asks for, its texts in characters.
pub ghost enum StepView {
    Exec(Seq<Seq<char>>),
    Http(u16),
    Tcp(u16),
    Sleep(u64),
    Nothing,
    Refuse(Seq<char>),
}

/// What a hook asks for, its texts in characters.
pub open spec fn step_view(s: LifecycleStep) -> StepView {
    match s {
        LifecycleStep::Exec(c) => StepView::Exec(text::texts(c@)),
        LifecycleStep::Http(p) => StepView::Http(p),
        LifecycleStep::Tcp(p) => StepView::Tcp(p),
        LifecycleStep::Sleep(n) => StepView::Sleep(n),
        LifecycleStep::Nothing => StepView::Nothing,
        LifecycleStep::Refuse(r) => StepView::Refuse(r@),
    }
}

/// Why a hook whose port has no number cannot be done.
pub open spec fn unresolvable(kind: Seq<char>, port: Seq<char>, container: Seq<char>) -> Seq<char> {
    "Lifecycle "@ + kind + " handler port "@ + port + " unresolvable for container "@ + container
}

/// What a hook asks for, by the first of its actions.
pub open spec fn hook_step(h: LifecycleHandler, name: Seq<char>, c: Container) -> StepView {
    if h.exec_action is Some {
        StepView::Exec(text::texts(h.exec_action->0.command@))
    } else if h.http_get is Some {
        match probe::port_number(h.http_get->0.port, c) {
            Some(p) => StepView::Http(p),
            None => StepView::Refuse(
                unresolvable("HTTP"@, probe::port_text(h.http_get->0.port), name),
            ),
        }
    } else if h.tcp_socket is Some {
        match probe::port_number(h.tcp_socket->0.port, c) {
            Some(p) => StepView::Tcp(p),
            None => StepView::Refuse(
                unresolvable("TCP"@, probe::port_text(h.tcp_socket->0.port), name),
            ),
        }
    } else if h.sleep is Some {
        StepView::Sleep(h.sleep->0.seconds as u64)
    } else {
        StepView::Nothing
    }
}

/// Why a hook whose port has no number cannot be done.
fn refuse_port(kind: &str, port: &api::IntOrString, container: &str) -> (r: LifecycleStep)
    ensures
        step_view(r) == StepView::Refuse(unresolvable(kind@, probe::port_text(*port), container@)),
{
    let p = probe::show_port(port);
    let head = text::cat4("Lifecycle ", kind, " handler port ", p.as_str());
    LifecycleStep::Refuse(text::cat3(head.as_str(), " unresolvable for container ", container))
}

/// A pod, as far as a hook looks it up.
#[derive(Clone, Debug, Default)]
pub struct PodAddress {
    pub name: String,
    pub namespace: Option<String>,
    pub ip: Option<String>,
}

/// The first pod with the name.
pub open spec fn pod_named(ps: Seq<PodAddress>, name: Seq<char>) -> Option<PodAddress>
    decreases ps.len(),
{
    if ps.len() == 0 {
        None
    } else if ps[0].name@ == name {
        Some(ps[0])
    } else {
        pod_named(ps.drop_first(), name)
    }
}

/// The first pod with the name in the namespace.
pub open spec fn pod_in(ps: Seq<PodAddress>, name: Seq<char>, namespace: Seq<char>) -> Option<
    PodAddress,
>
    decreases ps.len(),
{
    if ps.len() == 0 {
        None
    } else if ps[0].name@ == name && text::opt_text(ps[0].namespace) == Some(namespace) {
        Some(ps[0])
    } else {
        pod_in(ps.drop_first(), name, namespace)
    }
}

/// The namespace in which a container's hook looks up names: that of the container's
/// pod, `default` where it has none.
pub open spec fn lookup_namespace(ps: Seq<PodAddress>, container: Seq<char>) -> Seq<char> {
    match pod_named(ps, text::before_last(container, '_')) {
        Some(p) => match p.namespace {
            Some(n) => n@,
            None => "default"@,
        },
        None => "default"@,
    }
}

/// The address of a service, where it has one of its own.
pub open spec fn service_address(cluster_ip: Option<Seq<char>>) -> Option<Seq<char>> {
    match cluster_ip {
        Some(a) if a.len() > 0 && a != "None"@ => Some(a),
        _ => None,
    }
}

/// The address of the named pod, where it has one.
pub open spec fn pod_address(ps: Seq<PodAddress>, name: Seq<char>, namespace: Seq<char>) -> Option<
    Seq<char>,
> {
    match pod_in(ps, name, namespace) {
        Some(p) => match p.ip {
            Some(a) if a@.len() > 0 => Some(a@),
            _ => None,
        },
        None => None,
    }
}

/// What was looked up for the host that a hook names.
#[derive(Clone, Debug, Default)]
pub struct HostFacts {
    /// The address that the name service gives.
    pub resolved: Option<String>,
    /// There is storage to look services and pods up in.
    pub storage: bool,
    /// The address of the service with that name in the container's namespace.
    pub cluster_ip: Option<String>,
    /// All pods.
    pub pods: Vec<PodAddress>,
}

/// Where a hook that names a host is sent: the host itself if it is an address, else what
/// the name service gives, else the service or the pod of that name, else the host.
pub open spec fn host_address(host: Seq<char>, container: Seq<char>, f: HostFacts) -> Seq<char> {
    if ip::is_address(host) {
        host
    } else {
        match f.resolved {
            Some(a) => a@,
            None => if !f.storage {
                host
            } else {
                match service_address(text::opt_text(f.cluster_ip)) {
                    Some(a) => a,
                    None => match pod_address(
                        f.pods@,
                        host,
                        lookup_namespace(f.pods@, container),
                    ) {
                        Some(a) => a,
                        None => host,
                    },
                }
            },
        }
    }
}

/// An address that is not empty.
pub open spec fn given(a: Option<String>) -> Option<Seq<char>> {
    match a {
        Some(x) if x@.len() > 0 => Some(x@),
        _ => None,
    }
}

/// The address of a pause container: in its first network, or else its own.
pub open spec fn pause_address(n: NetworkSettings) -> Option<Seq<char>> {
    let first = match n.networks {
        Some(nets) if nets@.len() > 0 => given(nets@[0].1),
        _ => None,
    };
    match first {
        Some(a) => Some(a),
        None => given(n.ip_address),
    }
}

/// Where a hook that names no host is sent: the container's own address, or else that of
/// its pod's pause container, or else this host.
pub open spec fn own_address(
    own: Option<NetworkSettings>,
    pause: Option<NetworkSettings>,
) -> Seq<char> {
    let mine = match own {
        Some(n) => given(n.ip_address),
        None => None,
    };
    match mine {
        Some(a) => a,
        None => match pause {
            Some(n) => match pause_address(n) {
                Some(a) => a,
                None => "127.0.0.1"@,
            },
            None => "127.0.0.1"@,
        },
    }
}

/// An address that is not empty.
fn given_address(a: &Option<String>) -> (r: Option<String>)
    ensures
        text::opt_text(r) == given(*a),
{
    match a {
        Some(x) => {
            if x.as_str().is_empty() {
                assert(x@.len() == 0);
                None
            } else {
                Some(x.clone())
            }
        },
        None => None,
    }
}

/// The namespace in which a container's hook looks up names.
pub fn handler_namespace(pods: &Vec<PodAddress>, container_name: &str) -> (r: String)
    ensures
        r@ == lookup_namespace(pods@, container_name@),
{
    let pod = text::head_before_last(container_name, '_');
    let mut i: usize = 0;
    assert(pods@.skip(0) == pods@);
    while i < pods.len()
        invariant
            i <= pods@.len(),
            pod@ == text::before_last(container_name@, '_'),
            pod_named(pods@, pod@) == pod_named(pods@.skip(i as int), pod@),
        decreases pods@.len() - i,
    {
        assert(pods@.skip(i as int).drop_first() == pods@.skip(i as int + 1));
        assert(pods@.skip(i as int)[0] == pods@[i as int]);
        if text::same(pods[i].name.as_str(), pod) {
            return match &pods[i].namespace {
                Some(n) => n.clone(),
                None => "default".to_string(),
            };
        }
        i += 1;
    }
    "default".to_string()
}

/// The address of the named pod, where it has one.
fn address_of_pod(pods: &Vec<PodAddress>, name: &str, namespace: &str) -> (r: Option<String>)
    ensures
        text::opt_text(r) == pod_address(pods@, name@, namespace@),
{
    let mut i: usize = 0;
    assert(pods@.skip(0) == pods@);
    while i < pods.len()
        invariant
            i <= pods@.len(),
            pod_in(pods@, name@, namespace@) == pod_in(pods@.skip(i as int), name@, namespace@),
        decreases pods@.len() - i,
    {
        assert(pods@.skip(i as int).drop_first() == pods@.skip(i as int + 1));
        assert(pods@.skip(i as int)[0] == pods@[i as int]);
        if text::same(pods[i].name.as_str(), name) && status::is_text(
            &pods[i].namespace,
            namespace,
        ) {
            return given_address(&pods[i].ip);
        }
        i += 1;
    }
    None
}

/// Where a hook that names a host is sent.
pub fn resolve_handler_host(host: &str, container_name: &str, f: &HostFacts) -> (r: String)
    ensures
        r@ == host_address(host@, container_name@, *f),
{
    if ip::address(host) {
        return String::from_str(host);
    }
    if let Some(a) = &f.resolved {
        return a.clone();
    }
    if f.storage {
        if let Some(a) = &f.cluster_ip {
            let blank = a.as_str().is_empty();
            assert(blank == (a@.len() == 0));
            if !blank && !text::same(a.as_str(), "None") {
                return a.clone();
            }
        }
        let namespace = handler_namespace(&f.pods, container_name);
        if let Some(a) = address_of_pod(&f.pods, host, namespace.as_str()) {
            return a;
        }
    }
    String::from_str(host)
}

/// Where a hook that names no host is sent.
pub fn own_handler_address(
    own: &Option<NetworkSettings>,
    pause: &Option<NetworkSettings>,
) -> (r: String)
    ensures
        r@ == own_address(*own, *pause),
{
    if let Some(n) = own {
        if let Some(a) = given_address(&n.ip_address) {
            return a;
        }
    }
    if let Some(n) = pause {
        if let Some(nets) = &n.networks {
            if nets.len() > 0 {
                if let Some(a) = given_address(&nets[0].1) {
                    return a;
                }
            }
        }
        if let Some(a) = given_address(&n.ip_address) {
            return a;
        }
    }
    "127.0.0.1".to_string()
}

/// The container of whose network a hook looks up an address when its own has none.
pub fn handler_pause_name(container_name: &str) -> (r: String)
    ensures
        r@ == names::pause_name_text(text::before_last(container_name@, '_')),
{
    names::pause_name(text::head_before_last(container_name, '_'))
}

/// The headers with their texts as characters.
pub open spec fn header_texts(hs: Seq<HTTPHeader>) -> Seq<(Seq<char>, Seq<char>)> {
    hs.map_values(|h: HTTPHeader| (h.name@, h.value@))
}

/// The request of a hook to an address and port, with all of its headers.
pub fn handler_request(g: &HTTPGetAction, ip: &str, port: u16) -> (r: HttpRequest)
    ensures
        r.url@ == probe::url_text(*g, ip@, port),
        api::pair_texts(r.headers@) == (match g.http_headers {
            Some(hs) => header_texts(hs@),
            None => Seq::empty(),
        }),
{
    let mut headers: Vec<(String, String)> = Vec::new();
    if let Some(hs) = &g.http_headers {
        let mut i: usize = 0;
        while i < hs.len()
            invariant
                i <= hs@.len(),
                headers@.len() == i,
                forall|j: int|
                    0 <= j < i ==> (#[trigger] headers@[j]).0@ == hs@[j].name@ && headers@[j].1@
                        == hs@[j].value@,
            decreases hs@.len() - i,
        {
            headers.push((hs[i].name.clone(), hs[i].value.clone()));
            i += 1;
        }
        assert(api::pair_texts(headers@) =~= header_texts(hs@));
    } else {
        assert(api::pair_texts(headers@) =~= Seq::<(Seq<char>, Seq<char>)>::empty());
    }
    HttpRequest { url: probe::request_url(g, ip, port), headers }
}

/// Where a hook connects to: the container's own address, or this host where none is
/// given, and the port.
pub fn handler_tcp_address(own: &Option<NetworkSettings>, port: u16) -> (r: String)
    ensures
        r@ == (match *own {
            Some(n) => match n.ip_address {
                Some(a) => a@,
                None => "127.0.0.1"@,
            },
            None => "127.0.0.1"@,
        }) + ":"@ + number::decimal(port as int),
{
    let p = number::show_u64(port as u64);
    let ip: &str = match own {
        Some(n) => match &n.ip_address {
            Some(a) => a.as_str(),
            None => "127.0.0.1",
        },
        None => "127.0.0.1",
    };
    text::cat3(ip, ":", p.as_str())
}

/// Whether a hook's command did what it was to do. One whose code is not known ended
/// with 1.
pub fn exec_outcome(exit_code: Option<i64>) -> (r: Result<(), String>)
    ensures
        ({
            let code: i64 = match exit_code {
                Some(c) => c,
                None => 1,
            };
            match r {
                Ok(_) => code == 0,
                Err(e) => code != 0 && e@ == "Lifecycle exec handler exited with code "@
                    + number::decimal(code as int),
            }
        }),
{
    let code: i64 = match exit_code {
        Some(c) => c,
        None => 1,
    };
    if code != 0 {
        let n = number::show_i64(code);
        Err(text::cat2("Lifecycle exec handler exited with code ", n.as_str()))
    } else {
        Ok(())
    }
}

/// Whether a hook's request did what it was to do: any answer will do.
pub fn http_outcome(error: &Option<String>) -> (r: Result<(), String>)
    ensures
        match r {
            Ok(_) => error is None,
            Err(e) => error is Some && e@ == "Lifecycle HTTP handler failed: "@ + error->0@,
        },
{
    match error {
        Some(e) => Err(text::cat2("Lifecycle HTTP handler failed: ", e.as_str())),
        None => Ok(()),
    }
}

/// How an attempt to connect ended.
#[derive(Clone, Debug)]
pub enum Connection {
    Made,
    Failed(String),
    TimedOut,
}

/// Whether a hook's connection did what it was to do.
pub fn tcp_outcome(c: &Connection) -> (r: Result<(), String>)
    ensures
        match *c {
            Connection::Made => r is Ok,
            Connection::Failed(e) => r matches Err(m) && m@ == "Lifecycle TCP handler failed: "@
                + e@,
            Connection::TimedOut => r matches Err(m) && m@ == "Lifecycle TCP handler timed out"@,
        },
{
    match c {
        Connection::Made => Ok(()),
        Connection::Failed(e) => Err(text::cat2("Lifecycle TCP handler failed: ", e.as_str())),
        Connection::TimedOut => Err("Lifecycle TCP handler timed out".to_string()),
    }
}

impl ContainerRuntime {
    /// What a hook of a container asks for.
    pub fn execute_lifecycle_handler(
        &self,
        handler: &LifecycleHandler,
        container_name: &str,
        container: &Container,
    ) -> (r: LifecycleStep)
        ensures
            step_view(r) == hook_step(*handler, container_name@, *container),
    {
        if let Some(e) = &handler.exec_action {
            return LifecycleStep::Exec(text::copy_list(&e.command));
        }
        if let Some(g) = &handler.http_get {
            return match probe::resolve_probe_port(&g.port, container) {
                Some(p) => LifecycleStep::Http(p),
                None => refuse_port("HTTP", &g.port, container_name),
            };
        }
        if let Some(t) = &handler.tcp_socket {
            return match probe::resolve_probe_port(&t.port, container) {
                Some(p) => LifecycleStep::Tcp(p),
                None => refuse_port("TCP", &t.port, container_name),
            };
        }
        if let Some(s) = &handler.sleep {
            return LifecycleStep::Sleep(s.seconds as u64);
        }
        LifecycleStep::Nothing
    }
}

/// A hook does the first of the things that it names, in the order command, request,
/// connection, pause: it runs exactly its command, or sends to the number of its port, and is
/// refused where the port has none.
pub proof fn law_hooks_do_what_they_name(h: LifecycleHandler, name: Seq<char>, c: Container)
    ensures
        ({
            let s = hook_step(h, name, c);
            &&& h.exec_action matches Some(e) ==> s == StepView::Exec(text::texts(e.command@))
            &&& h.exec_action is None ==> (h.http_get matches Some(g) ==> {
                let port = probe::port_number(g.port, c);
                &&& port matches Some(p) ==> s == StepView::Http(p)
                &&& port is None ==> s is Refuse
            })
            &&& h.exec_action is None && h.http_get is None ==> (h.tcp_socket matches Some(t) ==> {
                let port = probe::port_number(t.port, c);
                &&& port matches Some(p) ==> s == StepView::Tcp(p)
                &&& port is None ==> s is Refuse
            })
            &&& h.exec_action is None && h.http_get is None && h.tcp_socket is None ==> (
            h.sleep matches Some(p) ==> p.seconds >= 0 ==> (s matches StepView::Sleep(n) && n
                == p.seconds))
            &&& h.exec_action is None && h.http_get is None && h.tcp_socket is None && h.sleep is None
                ==> s == StepView::Nothing
        }),
{
}

/// A hook that names a host is sent to it where it is an address; else to what the name service
/// gives; else, where there is storage, to the service of that name that has an address, else
/// to the pod of that name in the container's namespace; else to the host as it is named.
pub proof fn law_hooks_are_sent_to_their_host(host: Seq<char>, container: Seq<char>, f: HostFacts)
    ensures
        ({
            let a = host_address(host, container, f);
            let service = f.cluster_ip is Some && f.cluster_ip->0@.len() > 0 && f.cluster_ip->0@
                != "None"@;
            let pod = pod_in(f.pods@, host, lookup_namespace(f.pods@, container));
            let known = pod is Some && pod->0.ip is Some && pod->0.ip->0@.len() > 0;
            &&& ip::is_address(host) ==> a == host
            &&& !ip::is_address(host) ==> {
                &&& f.resolved matches Some(x) ==> a == x@
                &&& f.resolved is None && !f.storage ==> a == host
                &&& f.resolved is None && f.storage && service ==> a == f.cluster_ip->0@
                &&& f.resolved is None && f.storage && !service && known ==> a == pod->0.ip->0@
                &&& f.resolved is None && f.storage && !service && !known ==> a == host
            }
        }),
{
}

/// A hook that names no host is sent to its container's own address, else to the address of its
/// pod's sandbox, in its first network or its own; else to this host.
pub proof fn law_hooks_without_host_stay_in_the_pod(
    own: Option<NetworkSettings>,
    pause: Option<NetworkSettings>,
)
    ensures
        ({
            let a = own_address(own, pause);
            let mine = own is Some && own->0.ip_address is Some && own->0.ip_address->0@.len() > 0;
            let nets = if pause is Some && pause->0.networks is Some {
                pause->0.networks->0@
            } else {
                Seq::empty()
            };
            let first = nets.len() > 0 && nets[0].1 is Some && nets[0].1->0@.len() > 0;
            let theirs = pause is Some && pause->0.ip_address is Some
                && pause->0.ip_address->0@.len() > 0;
            &&& mine ==> a == own->0.ip_address->0@
            &&& !mine && first ==> a == nets[0].1->0@
            &&& !mine && !first && theirs ==> a == pause->0.ip_address->0@
            &&& !mine && !first && !theirs ==> a == "127.0.0.1"@
        }),
{
}

/// The pod of a name in a namespace is the first that has both.
pub proof fn law_pods_are_found_by_name_and_namespace(
    ps: Seq<PodAddress>,
    name: Seq<char>,
    namespace: Seq<char>,
    k: int,
)
    requires
        0 <= k <= ps.len(),
        forall|j: int|
            0 <= j < k ==> !((#[trigger] ps[j]).name@ == name && text::opt_text(ps[j].namespace)
                == Some(namespace)),
    ensures
        k < ps.len() && ps[k].name@ == name && text::opt_text(ps[k].namespace) == Some(namespace)
            ==> pod_in(ps, name, namespace) == Some(ps[k]),
        k == ps.len() ==> pod_in(ps, name, namespace) is None,
    decreases ps.len(),
{
    if ps.len() > 0 && k > 0 {
        let rest = ps.drop_first();
        assert(!(ps[0].name@ == name && text::opt_text(ps[0].namespace) == Some(namespace)));
        assert forall|j: int| 0 <= j < k - 1 implies !((#[trigger] rest[j]).name@ == name
            && text::opt_text(rest[j].namespace) == Some(namespace)) by {
            assert(rest[j] == ps[j + 1]);
        }
        law_pods_are_found_by_name_and_namespace(rest, name, namespace, k - 1);
        if k < ps.len() {
            assert(rest[k - 1] == ps[k]);
        }
    }
}

/// All headers of a hook are sent, in order.
pub proof fn law_all_headers_are_sent(hs: Seq<HTTPHeader>)
    ensures
        header_texts(hs).len() == hs.len(),
        forall|i: int|
            0 <= i < hs.len() ==> header_texts(hs)[i] == ((#[trigger] hs[i]).name@, hs[i].value@),
{
}

/// A hook's host is looked for in the namespace of the pod that the container's name begins
/// with, the first of that name; where that is not known, in the default one.
pub proof fn law_hosts_are_looked_for_in_the_pods_namespace(
    ps: Seq<PodAddress>,
    pod: Seq<char>,
    name: Seq<char>,
    k: int,
)
    requires
        !name.contains('_'),
        0 <= k <= ps.len(),
        forall|j: int| 0 <= j < k ==> (#[trigger] ps[j]).name@ != pod,
    ensures
        k == ps.len() ==> lookup_namespace(ps, pod + seq!['_'] + name) == "default"@,
        k < ps.len() && ps[k].name@ == pod ==> lookup_namespace(ps, pod + seq!['_'] + name) == (
        match ps[k].namespace {
            Some(n) => n@,
            None => "default"@,
        }),
{
    text::law_texts_are_cut_at_a_character(pod, name, '_');
    lemma_pod_named(ps, pod, k);
}

proof fn lemma_pod_named(ps: Seq<PodAddress>, name: Seq<char>, k: int)
    requires
        0 <= k <= ps.len(),
        forall|j: int| 0 <= j < k ==> (#[trigger] ps[j]).name@ != name,
    ensures
        k == ps.len() ==> pod_named(ps, name) is None,
        k < ps.len() && ps[k].name@ == name ==> pod_named(ps, name) == Some(ps[k]),
    decreases ps.len(),
{
    if k > 0 {
        assert(ps[0].name@ != name);
        let d = ps.drop_first();
        assert forall|j: int| 0 <= j < k - 1 implies (#[trigger] d[j]).name@ != name by {
            assert(d[j] == ps[j + 1]);
        }
        if k < ps.len() {
            assert(d[k - 1] == ps[k]);
        }
        lemma_pod_named(d, name, k - 1);
    }
}

/// A step says what its fields hold.
pub proof fn law_hook_steps_say_what_they_hold(s: LifecycleStep)
    ensures
        s matches LifecycleStep::Exec(c) ==> step_view(s) == StepView::Exec(text::texts(c@)),
        s matches LifecycleStep::Http(p) ==> step_view(s) == StepView::Http(p),
        s matches LifecycleStep::Tcp(p) ==> step_view(s) == StepView::Tcp(p),
        s matches LifecycleStep::Sleep(n) ==> step_view(s) == StepView::Sleep(n),
        s is Nothing ==> step_view(s) is Nothing,
        s is Refuse ==> step_view(s) is Refuse,
{
}

} // verus!
