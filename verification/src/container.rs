//! Starting a container: what to do with one that is there already, the configuration
//! that the daemon creates it from, and what to make of a name that is taken.

use crate::api;
use crate::api::{Container, Pod};
use crate::dns;
use crate::downward;
use crate::env;
use crate::env::EnvFacts;
use crate::expand;
use crate::hosts;
use crate::mounts;
use crate::mounts::{ConfigError, Mounts};
use crate::names;
use crate::ports;
use crate::ports::PortBinding;
use crate::quantity;
use crate::quantity::DecimalCores;
use crate::runtime::ContainerRuntime;
use crate::security;
use crate::shell;
use crate::text;
use vstd::prelude::*;
use vstd::string::*;

verus! {

/// The daemon's word for what a container is doing.
#[derive(Clone, Copy, Debug, PartialEq, Eq, Structural)]
pub enum ContainerStatusKind {
    Created,
    Running,
    Paused,
    Restarting,
    Removing,
    Exited,
    Dead,
    Empty,
}

/// What the daemon says of a container that exists.
#[derive(Clone, Copy, Debug, PartialEq, Eq, Structural)]
pub struct ExistingContainer {
    pub running: Option<bool>,
    pub status: Option<ContainerStatusKind>,
}

/// What starting a container begins with.
#[derive(Clone, Copy, Debug, PartialEq, Eq, Structural)]
pub enum StartStep {
    /// There is no such container: create it.
    Create,
    /// It is there and is left alone.
    Leave,
    /// It has ended: remove it, then create it anew.
    Replace,
}

/// What starting a container begins with, given what the daemon says of its name.
pub open spec fn start_step(existing: Option<ExistingContainer>) -> StartStep {
    match existing {
        None => StartStep::Create,
        Some(e) => if e.running != Some(true) && (e.status == Some(ContainerStatusKind::Exited)
            || e.status == Some(ContainerStatusKind::Dead)) {
            StartStep::Replace
        } else {
            StartStep::Leave
        },
    }
}

/// What starting a container begins with. One that runs, is about to start, or is in a
/// state that says nothing about its end is left alone.
pub fn first_step(existing: Option<ExistingContainer>) -> (r: StartStep)
    ensures
        r == start_step(existing),
{
    match existing {
        None => StartStep::Create,
        Some(e) => {
            let running: bool = match e.running {
                Some(b) => b,
                None => false,
            };
            if running {
                return StartStep::Leave;
            }
            match e.status {
                Some(ContainerStatusKind::Exited) => StartStep::Replace,
                Some(ContainerStatusKind::Dead) => StartStep::Replace,
                _ => StartStep::Leave,
            }
        },
    }
}

/// The limits that the kernel enforces on a container.
#[derive(Clone, Copy, Debug, PartialEq, Eq, Structural)]
pub struct Limits {
    pub memory: Option<i64>,
    pub cpu_period: Option<i64>,
    pub cpu_quota: Option<i64>,
    pub cpu_shares: Option<i64>,
}

/// The processor quantity that a container's share is measured by: its request, or else
/// its limit.
pub open spec fn share_basis(c: Container) -> Option<Seq<char>> {
    match downward::request_of(c, "cpu"@) {
        Some(q) => Some(q),
        None => downward::limit_of(c, "cpu"@),
    }
}

/// The memory limit in bytes, where it is above 0.
pub open spec fn memory_limit(c: Container) -> Option<int> {
    match downward::limit_of(c, "memory"@) {
        Some(q) if quantity::memory_bytes(q) > 0 => Some(quantity::memory_bytes(q)),
        _ => None,
    }
}

/// The processor time in microseconds that a container gets of each tenth of a second,
/// where it is limited.
pub open spec fn cpu_quota(c: Container, readings: Seq<(String, i64)>) -> Option<int> {
    match downward::limit_of(c, "cpu"@) {
        Some(q) if quantity::millicores(q, readings) > 0 => Some(
            quantity::millicores(q, readings) * 100,
        ),
        _ => None,
    }
}

/// The container's weight when processors are scarce: 1024 for a core, 2 at least.
pub open spec fn cpu_shares(c: Container, readings: Seq<(String, i64)>) -> int {
    match share_basis(c) {
        Some(q) if quantity::millicores(q, readings) > 0 => {
            let s = quantity::millicores(q, readings) * 1024 / 1000;
            if s > 2 {
                s
            } else {
                2
            }
        },
        _ => 2,
    }
}

/// The quantities of a container, and the products formed of them, fit in an `i64`.
pub open spec fn quantities_fit(c: Container, readings: Seq<(String, i64)>) -> bool {
    &&& downward::limit_of(c, "memory"@) matches Some(q) ==> quantity::memory_fits(q)
    &&& downward::limit_of(c, "cpu"@) matches Some(q) ==> quantity::millicores(q, readings)
        * 100_000 <= i64::MAX
    &&& share_basis(c) matches Some(q) ==> quantity::millicores(q, readings) * 1024 <= i64::MAX
}

/// An optional number without its type's bounds.
pub open spec fn opt_int(o: Option<i64>) -> Option<int> {
    match o {
        Some(n) => Some(n as int),
        None => None,
    }
}

/// `l` is what the kernel enforces on `c`.
pub open spec fn limits_of(l: Limits, c: Container, readings: Seq<(String, i64)>) -> bool {
    &&& opt_int(l.memory) == memory_limit(c)
    &&& opt_int(l.cpu_quota) == cpu_quota(c, readings)
    &&& l.cpu_period == (if cpu_quota(c, readings) is Some {
        Some(100_000i64)
    } else {
        None
    })
    &&& opt_int(l.cpu_shares) == Some(cpu_shares(c, readings))
}

/// Whether the quantities of a container, and the products formed of them, fit.
pub fn container_quantities_fit(c: &Container, readings: &DecimalCores) -> (r: bool)
    ensures
        r == quantities_fit(*c, readings@),
{
    let res = match &c.resources {
        Some(res) => res,
        None => {
            return true;
        },
    };
    if let Some(q) = api::opt_get(&res.limits, "memory") {
        if !quantity::memory_quantity_fits(q) {
            return false;
        }
    }
    let limit = api::opt_get(&res.limits, "cpu");
    if let Some(q) = limit {
        if quantity::parse_cpu_quantity(q, readings) as i128 * 100_000 > 0x7fff_ffff_ffff_ffff {
            return false;
        }
    }
    let basis = match api::opt_get(&res.requests, "cpu") {
        Some(q) => Some(q),
        None => limit,
    };
    match basis {
        Some(q) => quantity::parse_cpu_quantity(q, readings) as i128 * 1024
            <= 0x7fff_ffff_ffff_ffff,
        None => true,
    }
}

/// The limits that the kernel enforces on a container.
pub fn container_limits(c: &Container, readings: &DecimalCores) -> (r: Limits)
    requires
        quantities_fit(*c, readings@),
    ensures
        limits_of(r, *c, readings@),
{
    let mut l = Limits { memory: None, cpu_period: None, cpu_quota: None, cpu_shares: Some(2) };
    if let Some(res) = &c.resources {
        if let Some(q) = api::opt_get(&res.limits, "memory") {
            let n: i64 = quantity::parse_memory_quantity(q);
            if n > 0 {
                l.memory = Some(n);
            }
        }
        let limit = api::opt_get(&res.limits, "cpu");
        if let Some(q) = limit {
            let m: i64 = quantity::parse_cpu_quantity(q, readings);
            if m > 0 {
                l.cpu_period = Some(100_000);
                l.cpu_quota = Some((m * 100_000) / 1000);
            }
        }
        let basis = match api::opt_get(&res.requests, "cpu") {
            Some(q) => Some(q),
            None => limit,
        };
        if let Some(q) = basis {
            let m: i64 = quantity::parse_cpu_quantity(q, readings);
            if m > 0 {
                let s: i64 = (m * 1024) / 1000;
                l.cpu_shares = Some(
                    if s > 2 {
                        s
                    } else {
                        2
                    },
                );
            }
        }
    }
    l
}

/// What the daemon creates a container from.
pub struct ContainerConfig {
    pub name: String,
    pub image: String,
    pub labels: Vec<(String, String)>,
    pub env: Option<Vec<String>>,
    pub working_dir: Option<String>,
    pub open_stdin: Option<bool>,
    pub attach_stdin: Option<bool>,
    pub stdin_once: Option<bool>,
    pub tty: Option<bool>,
    pub user: Option<String>,
    pub hostname: Option<String>,
    pub exposed_ports: Option<Vec<String>>,
    pub command: shell::CommandLine,
    pub port_bindings: Option<Vec<PortBinding>>,
    pub binds: Option<Vec<String>>,
    pub tmpfs: Option<Vec<(String, String)>>,
    pub dns: Option<Vec<String>>,
    pub dns_search: Option<Vec<String>>,
    pub dns_options: Option<Vec<String>>,
    pub network_mode: String,
    pub ipc_mode: Option<String>,
    pub pid_mode: Option<String>,
    pub uts_mode: Option<String>,
    pub limits: Limits,
    pub readonly_rootfs: Option<bool>,
    pub security_opt: Option<Vec<String>>,
    pub cap_add: Option<Vec<String>>,
    pub cap_drop: Option<Vec<String>>,
    pub privileged: Option<bool>,
}

/// What a container's creation takes from outside the pod.
pub struct StartFacts {
    pub env: EnvFacts,
    /// What the host's resolver configuration holds, where it can be read.
    pub host_resolv_conf: Option<String>,
    /// What the list of the nameservers that the host forwards to holds, where it can be
    /// read.
    pub uplink_resolv_conf: Option<String>,
}

/// All that a container refers to was looked up and can be put in words, and its pod's
/// hostname can be cut.
pub open spec fn is_ready(pod: Pod, c: Container, f: StartFacts) -> bool {
    &&& env::facts_match(pod, c, f.env)
    &&& quantities_fit(c, f.env.readings@)
    &&& hosts::can_be_cut(hosts::wanted_hostname(pod))
}

/// Everything that creating a container takes.
pub struct StartPlan {
    pub config: ContainerConfig,
    /// The sub-paths that have to exist on the host.
    pub sub_paths: Vec<String>,
    /// The resolver configuration to write first: its path and its contents.
    pub resolv_conf: Option<(String, String)>,
    /// The file to empty first, which takes the container's termination message.
    pub termination_file: String,
}

/// One of the texts holds `part`.
pub open spec fn any_has(list: Seq<Seq<char>>, part: Seq<char>) -> bool {
    exists|i: int| 0 <= i < list.len() && text::has(#[trigger] list[i], part)
}

/// The container mounts something at `/etc/hosts`.
pub open spec fn mounts_hosts(c: Container) -> bool {
    exists|i: int|
        0 <= i < mounts::mounts_of(c).len() && (#[trigger] mounts::mounts_of(c)[i]).mount_path@
            == "/etc/hosts"@
}

/// A container's bind mounts: those of its volumes, the resolver configuration unless
/// something is there, the hosts file unless something is there, and the file for its
/// termination message.
pub open spec fn all_binds(
    own: Seq<Seq<char>>,
    c: Container,
    pod: Seq<char>,
    base: Seq<char>,
    with_resolv_conf: bool,
    hosts_file: Option<Seq<char>>,
) -> Seq<Seq<char>> {
    let resolv = names::pod_path_text(base, pod, "resolv.conf"@) + ":/etc/resolv.conf:ro"@;
    let a = if with_resolv_conf && !any_has(own, ":/etc/resolv.conf"@) {
        own.push(resolv)
    } else {
        own
    };
    let b = match hosts_file {
        Some(path) => if !mounts_hosts(c) && !any_has(a, ":/etc/hosts"@) {
            a.push(path + ":/etc/hosts"@)
        } else {
            a
        },
        None => a,
    };
    b.push(
        names::termination_file_text(base, pod, c.name@) + ":"@ + mounts::termination_path(
            c.termination_message_path,
        ),
    )
}

/// The namespaces of the pod's network holder.
pub open spec fn pause_mode(pod: Seq<char>) -> Seq<char> {
    "container:"@ + pod + "_pause"@
}

/// The container shares the pod's network holder's network rather than a namespace of
/// its own.
pub open spec fn joins_pause(use_cni: bool, netns: Option<Seq<char>>) -> bool {
    !use_cni && netns is None
}

/// A list of texts that stands for nothing when it is empty.
pub open spec fn unless_empty(s: Seq<Seq<char>>) -> Option<Seq<Seq<char>>> {
    if s.len() == 0 {
        None
    } else {
        Some(s)
    }
}

/// The containers of the pod share their processes.
pub open spec fn shares_processes(pod: Pod) -> bool {
    match pod.spec {
        Some(s) => s.share_process_namespace == Some(true),
        None => false,
    }
}

/// How the DNS settings of a container come out: on the container itself only where it
/// has a network of its own.
pub open spec fn dns_settings(
    pod: Pod,
    use_cni: bool,
    dns: Seq<char>,
    domain: Seq<char>,
) -> Option<(Seq<Seq<char>>, Seq<Seq<char>>, Seq<Seq<char>>)> {
    if pod.metadata.name@ == "coredns"@ || !use_cni {
        None
    } else {
        Some(
            (
                seq![dns],
                seq![
                    api::namespace_of(pod) + ".svc."@ + domain,
                    "svc."@ + domain,
                    domain,
                ],
                seq!["ndots:5"@],
            ),
        )
    }
}

/// The container's own security context grants or denies something.
pub open spec fn own_context<T>(c: Container, f: spec_fn(api::SecurityContext) -> Option<T>) -> Option<
    T,
> {
    match c.security_context {
        Some(sc) => f(sc),
        None => None,
    }
}

/// The characters of an optional list of texts within a container's capabilities.
pub open spec fn capabilities(c: Container, add: bool) -> Option<Seq<Seq<char>>> {
    match c.security_context {
        Some(sc) => match sc.capabilities {
            Some(k) => if add {
                shell::opt_texts(k.add)
            } else {
                shell::opt_texts(k.drop)
            },
            None => None,
        },
        None => None,
    }
}

impl ContainerRuntime {
    /// `k` is what the daemon creates the container `c` of `pod` from, given its
    /// environment and the outcome of its mounts.
    pub open spec fn configures(
        self,
        k: ContainerConfig,
        pod: Pod,
        c: Container,
        entries: Seq<Seq<char>>,
        m: mounts::MountsView,
        netns: Option<Seq<char>>,
        hosts_file: Option<Seq<char>>,
        with_resolv_conf: bool,
        readings: Seq<(String, i64)>,
    ) -> bool {
        let name = pod.metadata.name@;
        let pairs = expand::pairs_of(entries);
        let joins = joins_pause(self.use_cni, netns);
        let ps = if joins {
            Seq::empty()
        } else {
            ports::ports_of(c)
        };
        let d = dns_settings(pod, self.use_cni, self.cluster_dns@, self.cluster_domain@);
        &&& k.name@ == names::container_name_text(name, c.name@)
        &&& k.image@ == c.image@
        &&& k.labels@.len() == 2
        &&& k.labels@[0].0@ == crate::runtime::CLUSTER_LABEL@
        &&& k.labels@[0].1@ == self.network@
        &&& k.labels@[1].0@ == crate::runtime::POD_LABEL@
        &&& k.labels@[1].1@ == name
        &&& shell::opt_texts(k.env) == unless_empty(entries)
        &&& text::opt_text(k.working_dir) == text::opt_text(c.working_dir)
        &&& k.open_stdin == c.stdin
        &&& k.attach_stdin == c.stdin
        &&& k.stdin_once == c.stdin_once
        &&& k.tty == c.tty
        &&& text::opt_text(k.user) == security::user_text(pod, c)
        &&& text::opt_text(k.hostname) == (if joins {
            None
        } else {
            Some(hosts::hostname_text(hosts::wanted_hostname(pod)))
        })
        &&& shell::opt_texts(k.exposed_ports) == unless_empty(ports::exposed(ps))
        &&& shell::opt_texts(k.command.entrypoint) == shell::entrypoint_of(
            c,
            pairs,
            false,
            Seq::empty(),
            Seq::empty(),
        )
        &&& shell::opt_texts(k.command.cmd) == shell::cmd_of(
            c,
            pairs,
            false,
            Seq::empty(),
            Seq::empty(),
        )
        &&& match k.port_bindings {
            Some(b) => b@.len() > 0 && ports::bindings_view(b@) == ports::bound(ps, false),
            None => ports::bound(ps, false).len() == 0,
        }
        &&& shell::opt_texts(k.binds) == Some(
            all_binds(m.binds, c, name, self.volumes_base_path@, with_resolv_conf, hosts_file),
        )
        &&& match k.tmpfs {
            Some(t) => t@.len() > 0 && api::pair_texts(t@) == m.tmpfs,
            None => m.tmpfs.len() == 0,
        }
        &&& shell::opt_texts(k.dns) == (match d {
            Some(x) => Some(x.0),
            None => None,
        })
        &&& shell::opt_texts(k.dns_search) == (match d {
            Some(x) => Some(x.1),
            None => None,
        })
        &&& shell::opt_texts(k.dns_options) == (match d {
            Some(x) => Some(x.2),
            None => None,
        })
        &&& k.network_mode@ == (match netns {
            Some(ns) => "ns:"@ + ns,
            None => pause_mode(name),
        })
        &&& text::opt_text(k.ipc_mode) == (if self.use_cni {
            None
        } else {
            Some(pause_mode(name))
        })
        &&& text::opt_text(k.pid_mode) == (if shares_processes(pod) {
            Some(pause_mode(name))
        } else {
            None
        })
        &&& text::opt_text(k.uts_mode) == (if joins && self.supports_uts_container_mode {
            Some(pause_mode(name))
        } else {
            None
        })
        &&& limits_of(k.limits, c, readings)
        &&& k.readonly_rootfs == own_context(
            c,
            |sc: api::SecurityContext| sc.read_only_root_filesystem,
        )
        &&& shell::opt_texts(k.security_opt) == unless_empty(
            security::security_options(c.security_context, security::pod_context(pod)),
        )
        &&& shell::opt_texts(k.cap_add) == capabilities(c, true)
        &&& shell::opt_texts(k.cap_drop) == capabilities(c, false)
        &&& k.privileged == own_context(c, |sc: api::SecurityContext| sc.privileged)
    }
}

/// The words that come before the container that holds a name, in the daemon's refusal.
pub const HOLDER_MARK: &'static str = "already in use by container \"";

/// The daemon refused because a name is taken.
pub open spec fn name_taken(error: Seq<char>) -> bool {
    text::has(error, "409"@) || text::has(error, "Conflict"@) || text::has(error, "already in use"@)
}

/// The container that the daemon's refusal names as the holder of a name.
pub open spec fn holder_in(error: Seq<char>) -> Option<Seq<char>> {
    let k = text::first_at(error, HOLDER_MARK@);
    if k >= error.len() {
        None
    } else {
        let rest = error.skip(k + HOLDER_MARK@.len());
        let piece = rest.take(text::first_at(rest, HOLDER_MARK@));
        Some(piece.take(text::cut(piece, '"')))
    }
}

/// Whether the daemon refused because a name is taken.
pub fn name_is_taken(error: &str) -> (r: bool)
    ensures
        r == name_taken(error@),
{
    text::contains(error, "409") || text::contains(error, "Conflict") || text::contains(
        error,
        "already in use",
    )
}

/// The container that the daemon's refusal names as the holder of a name.
pub fn conflicting_id(error: &str) -> (r: Option<String>)
    ensures
        text::opt_text(r) == holder_in(error@),
{
    let v = text::chars_of(error);
    let mark = text::chars_of(HOLDER_MARK);
    proof {
        reveal_strlit("already in use by container \"");
    }
    let n: usize = v.len();
    let k: usize = text::find_first(&v, &mark);
    if k >= n {
        return None;
    }
    let rest: &[char] = &v[k + mark.len()..n];
    assert(rest@ =~= error@.skip(k + HOLDER_MARK@.len()));
    let e: usize = text::find_first(rest, &mark);
    let piece: &[char] = &rest[0..e];
    assert(piece@ =~= rest@.take(e as int));
    let q: usize = text::cut_at(piece, '"');
    assert(piece@.subrange(0, q as int) =~= piece@.take(q as int));
    Some(text::string_of(&piece[0..q]))
}

/// The command that puts a hosts file in place inside a container, whatever the daemon
/// made of the mounted one.
pub fn hosts_command(content: &str) -> (r: Vec<String>)
    ensures
        text::texts(r@) == seq![
            "sh"@,
            "-c"@,
            "cat > /etc/hosts << 'KUBEEOF'\n"@ + content@ + "KUBEEOF"@,
        ],
{
    let mut r: Vec<String> = Vec::new();
    r.push(String::from_str("sh"));
    r.push(String::from_str("-c"));
    r.push(text::cat3("cat > /etc/hosts << 'KUBEEOF'\n", content, "KUBEEOF"));
    assert(text::texts(r@) =~= seq![
        "sh"@,
        "-c"@,
        "cat > /etc/hosts << 'KUBEEOF'\n"@ + content@ + "KUBEEOF"@,
    ]);
    r
}

/// Whether one of the texts holds `part`.
fn some_has(list: &Vec<String>, part: &str) -> (r: bool)
    ensures
        r == any_has(text::texts(list@), part@),
{
    let mut i: usize = 0;
    while i < list.len()
        invariant
            i <= list@.len(),
            forall|j: int| 0 <= j < i ==> !text::has(#[trigger] text::texts(list@)[j], part@),
        decreases list@.len() - i,
    {
        if text::contains(list[i].as_str(), part) {
            assert(text::has(text::texts(list@)[i as int], part@));
            return true;
        }
        i += 1;
    }
    false
}

/// Whether the container mounts something at `/etc/hosts`.
fn has_hosts_mount(c: &Container) -> (r: bool)
    ensures
        r == mounts_hosts(*c),
{
    match &c.volume_mounts {
        None => false,
        Some(ms) => {
            let mut i: usize = 0;
            while i < ms.len()
                invariant
                    i <= ms@.len(),
                    ms@ == mounts::mounts_of(*c),
                    forall|j: int| 0 <= j < i ==> (#[trigger] ms@[j]).mount_path@ != "/etc/hosts"@,
                decreases ms@.len() - i,
            {
                if text::same(ms[i].mount_path.as_str(), "/etc/hosts") {
                    assert(mounts::mounts_of(*c)[i as int].mount_path@ == "/etc/hosts"@);
                    return true;
                }
                i += 1;
            }
            false
        },
    }
}

/// The list, or nothing where it is empty.
pub fn some_texts(v: Vec<String>) -> (r: Option<Vec<String>>)
    ensures
        shell::opt_texts(r) == unless_empty(text::texts(v@)),
{
    if v.len() == 0 {
        assert(text::texts(v@).len() == 0);
        None
    } else {
        assert(text::texts(v@).len() > 0);
        Some(v)
    }
}

/// The same optional texts once more.
fn copy_texts(o: &Option<Vec<String>>) -> (r: Option<Vec<String>>)
    ensures
        shell::opt_texts(r) == shell::opt_texts(*o),
{
    match o {
        Some(v) => Some(text::copy_list(v)),
        None => None,
    }
}

/// The same optional text once more.
pub fn copy_text(o: &Option<String>) -> (r: Option<String>)
    ensures
        text::opt_text(r) == text::opt_text(*o),
        r == *o,
{
    match o {
        Some(s) => Some(s.clone()),
        None => None,
    }
}

/// A list of one text.
pub fn one_text(s: &str) -> (r: Vec<String>)
    ensures
        text::texts(r@) == seq![s@],
{
    let mut r: Vec<String> = Vec::new();
    r.push(String::from_str(s));
    assert(text::texts(r@) =~= seq![s@]);
    r
}

impl ContainerRuntime {
    /// The namespaces of the pod's network holder.
    fn pause_ref(pod: &str) -> (r: String)
        ensures
            r@ == pause_mode(pod@),
    {
        text::cat3("container:", pod, "_pause")
    }

    /// The bind mounts of a container.
    fn bind_list(
        &self,
        own: &Vec<String>,
        c: &Container,
        pod: &str,
        with_resolv_conf: bool,
        hosts_file: Option<&str>,
    ) -> (r: Vec<String>)
        ensures
            text::texts(r@) == all_binds(
                text::texts(own@),
                *c,
                pod@,
                self.volumes_base_path@,
                with_resolv_conf,
                dns::opt_str(hosts_file),
            ),
    {
        let base = self.volumes_base_path.as_str();
        let mut r = text::copy_list(own);
        if with_resolv_conf && !some_has(&r, ":/etc/resolv.conf") {
            let p = names::pod_path(base, pod, "resolv.conf");
            text::push_text(&mut r, text::cat2(p.as_str(), ":/etc/resolv.conf:ro"));
        }
        if let Some(path) = hosts_file {
            if !has_hosts_mount(c) && !some_has(&r, ":/etc/hosts") {
                text::push_text(&mut r, text::cat2(path, ":/etc/hosts"));
            }
        }
        let f = names::termination_file(base, pod, c.name.as_str());
        let t = mounts::effective_termination_message_path(&c.termination_message_path);
        text::push_text(&mut r, text::cat3(f.as_str(), ":", t));
        r
    }

    /// What the daemon creates a container from, given its environment and its mounts.
    fn container_config(
        &self,
        pod: &Pod,
        c: &Container,
        entries: Vec<String>,
        pairs: &Vec<(String, String)>,
        m: Mounts,
        netns_path: Option<&str>,
        hosts_file_path: Option<&str>,
        with_resolv_conf: bool,
        readings: &DecimalCores,
    ) -> (k: ContainerConfig)
        requires
            quantities_fit(*c, readings@),
            hosts::can_be_cut(hosts::wanted_hostname(*pod)),
            api::pair_texts(pairs@) == expand::pairs_of(text::texts(entries@)),
        ensures
            self.configures(
                k,
                *pod,
                *c,
                text::texts(entries@),
                m.view_of(),
                dns::opt_str(netns_path),
                dns::opt_str(hosts_file_path),
                with_resolv_conf,
                readings@,
            ),
    {
        let name = pod.metadata.name.as_str();
        let joins: bool = !self.use_cni && netns_path.is_none();
        let (keys, bindings) = if joins {
            let keys: Vec<String> = Vec::new();
            let bindings: Vec<PortBinding> = Vec::new();
            assert(text::texts(keys@) =~= Seq::<Seq<char>>::empty());
            assert(ports::bindings_view(bindings@) =~= Seq::<
                (Seq<char>, (Seq<char>, Seq<char>)),
            >::empty());
            (keys, bindings)
        } else {
            ports::container_ports(c, false)
        };
        let hostname = if joins {
            None
        } else {
            let raw = match &pod.spec {
                Some(s) => downward::str_or(&s.hostname, name),
                None => name,
            };
            Some(hosts::pod_hostname(raw))
        };
        let binds = self.bind_list(&m.binds, c, name, with_resolv_conf, hosts_file_path);
        let (dns, dns_search, dns_options) = if text::same(name, "coredns") || !self.use_cni {
            (None, None, None)
        } else {
            let d = self.cluster_domain.as_str();
            let mut search: Vec<String> = Vec::new();
            search.push(text::cat3(pod.namespace(), ".svc.", d));
            search.push(text::cat2("svc.", d));
            search.push(String::from_str(d));
            assert(text::texts(search@) =~= seq![
                api::namespace_of(*pod) + ".svc."@ + d@,
                "svc."@ + d@,
                d@,
            ]);
            (
                Some(one_text(self.cluster_dns.as_str())),
                Some(search),
                Some(one_text("ndots:5")),
            )
        };
        let shares: bool = match &pod.spec {
            Some(s) => match s.share_process_namespace {
                Some(b) => b,
                None => false,
            },
            None => false,
        };
        let no_words: Vec<String> = Vec::new();
        let command = shell::command_line(
            c,
            pairs,
            shell::needs_umask_fix(false, false),
            &no_words,
            &no_words,
        );
        assert(no_words@ =~= Seq::<String>::empty());
        let network_mode = match netns_path {
            Some(ns) => text::cat2("ns:", ns),
            None => Self::pause_ref(name),
        };
        let own: Option<&api::SecurityContext> = match &c.security_context {
            Some(sc) => Some(sc),
            None => None,
        };
        let security_opt = security::security_opts_for(own, security::context_of(pod));
        let (cap_add, cap_drop) = match &c.security_context {
            Some(sc) => match &sc.capabilities {
                Some(k) => (copy_texts(&k.add), copy_texts(&k.drop)),
                None => (None, None),
            },
            None => (None, None),
        };
        let (readonly_rootfs, privileged) = match &c.security_context {
            Some(sc) => (sc.read_only_root_filesystem, sc.privileged),
            None => (None, None),
        };
        let port_bindings = if bindings.len() == 0 {
            assert(ports::bindings_view(bindings@).len() == 0);
            None
        } else {
            Some(bindings)
        };
        let tmpfs = if m.tmpfs.len() == 0 {
            assert(api::pair_texts(m.tmpfs@).len() == 0);
            None
        } else {
            Some(m.tmpfs)
        };
        ContainerConfig {
            name: names::container_name(name, c.name.as_str()),
            image: c.image.clone(),
            labels: self.ownership_labels(name),
            env: some_texts(entries),
            working_dir: copy_text(&c.working_dir),
            open_stdin: c.stdin,
            attach_stdin: c.stdin,
            stdin_once: c.stdin_once,
            tty: c.tty,
            user: security::run_as_user(pod, c),
            hostname,
            exposed_ports: some_texts(keys),
            command,
            port_bindings,
            binds: Some(binds),
            tmpfs,
            dns,
            dns_search,
            dns_options,
            network_mode,
            ipc_mode: if self.use_cni {
                None
            } else {
                Some(Self::pause_ref(name))
            },
            pid_mode: if shares {
                Some(Self::pause_ref(name))
            } else {
                None
            },
            uts_mode: if joins && self.supports_uts_container_mode {
                Some(Self::pause_ref(name))
            } else {
                None
            },
            limits: container_limits(c, readings),
            readonly_rootfs,
            security_opt,
            cap_add,
            cap_drop,
            privileged,
        }
    }

    /// Everything that creating a container of a pod takes: its configuration, the files
    /// to write first and the directories that have to be there. Refused where a
    /// sub-path must not be mounted, with the directories of the mounts before it.
    pub fn start_container(
        &self,
        pod: &Pod,
        container: &Container,
        volume_paths: &[(String, String)],
        netns_path: Option<&str>,
        hosts_file_path: Option<&str>,
        pod_ip: Option<&str>,
        facts: &StartFacts,
    ) -> (r: Result<StartPlan, ConfigError>)
        requires
            env::facts_match(*pod, *container, facts.env),
            quantities_fit(*container, facts.env.readings@),
            hosts::can_be_cut(hosts::wanted_hostname(*pod)),
        ensures
            self.starts(
                r,
                *pod,
                *container,
                volume_paths@,
                dns::opt_str(netns_path),
                dns::opt_str(hosts_file_path),
                dns::opt_str(pod_ip),
                *facts,
            ),
    {
        let entries = match self.container_environment(pod, container, pod_ip, &facts.env) {
            Some(e) => e,
            None => {
                return Err(ConfigError::Endless);
            },
        };
        let pairs = expand::entry_pairs(&entries);
        let m = match mounts::resolve_mounts(pod, container, &pairs, volume_paths) {
            Ok(m) => m,
            Err(e) => {
                return Err(e);
            },
        };
        let host: Option<&str> = match &facts.host_resolv_conf {
            Some(s) => Some(s.as_str()),
            None => None,
        };
        let uplink: Option<&str> = match &facts.uplink_resolv_conf {
            Some(s) => Some(s.as_str()),
            None => None,
        };
        let resolv_conf = match self.resolv_conf(pod, host, uplink) {
            Some(content) => Some(
                (
                    names::pod_path(
                        self.volumes_base_path.as_str(),
                        pod.metadata.name.as_str(),
                        "resolv.conf",
                    ),
                    content,
                ),
            ),
            None => None,
        };
        let sub_paths = text::copy_list(&m.sub_paths);
        let config = self.container_config(
            pod,
            container,
            entries,
            &pairs,
            m,
            netns_path,
            hosts_file_path,
            resolv_conf.is_some(),
            &facts.env.readings,
        );
        let termination_file = names::termination_file(
            self.volumes_base_path.as_str(),
            pod.metadata.name.as_str(),
            container.name.as_str(),
        );
        Ok(StartPlan { config, sub_paths, resolv_conf, termination_file })
    }

    /// Everything that creating a container of a pod takes, where all that it refers to
    /// was looked up and can be put in words and its hostname can be cut; nothing
    /// otherwise.
    pub fn start_container_if_ready(
        &self,
        pod: &Pod,
        container: &Container,
        volume_paths: &[(String, String)],
        netns_path: Option<&str>,
        hosts_file_path: Option<&str>,
        pod_ip: Option<&str>,
        facts: &StartFacts,
    ) -> (r: Option<Result<StartPlan, ConfigError>>)
        ensures
            match r {
                Some(plan) => {
                    &&& is_ready(*pod, *container, *facts)
                    &&& self.starts(
                        plan,
                        *pod,
                        *container,
                        volume_paths@,
                        dns::opt_str(netns_path),
                        dns::opt_str(hosts_file_path),
                        dns::opt_str(pod_ip),
                        *facts,
                    )
                },
                None => !is_ready(*pod, *container, *facts),
            },
    {
        if env::env_facts_ready(pod, container, &facts.env) && container_quantities_fit(
            container,
            &facts.env.readings,
        ) && hosts::pod_hostname_can_be_cut(pod) {
            Some(
                self.start_container(
                    pod,
                    container,
                    volume_paths,
                    netns_path,
                    hosts_file_path,
                    pod_ip,
                    facts,
                ),
            )
        } else {
            None
        }
    }

    /// Why a container that holds a wanted name is not removed, where it must not be:
    /// `labels` are its labels, where the daemon shows it, and it is another cluster's.
    pub fn refuse_removal(
        &self,
        container_name: &str,
        inspected: &Option<Option<Vec<(String, String)>>>,
    ) -> (r: Option<String>)
        ensures
            match *inspected {
                Some(labels) if api::opt_lookup(labels, crate::runtime::CLUSTER_LABEL@) != Some(
                    self.network@,
                ) => r matches Some(t) && t@ == "Container name "@ + container_name@
                    + " is already in use by a container this cluster did not create; refusing to remove it"@,
                _ => r is None,
            },
    {
        match inspected {
            Some(labels) => {
                if self.is_owned_by_this_cluster(labels) {
                    None
                } else {
                    Some(
                        text::cat3(
                            "Container name ",
                            container_name,
                            " is already in use by a container this cluster did not create; refusing to remove it",
                        ),
                    )
                }
            },
            None => None,
        }
    }

    /// `plan` is what creating the container takes, given its environment and the
    /// outcome of its mounts.
    pub open spec fn plans(
        self,
        plan: StartPlan,
        pod: Pod,
        c: Container,
        entries: Seq<Seq<char>>,
        m: mounts::MountsView,
        netns: Option<Seq<char>>,
        hosts_file: Option<Seq<char>>,
        facts: StartFacts,
    ) -> bool {
        let base = self.volumes_base_path@;
        let name = pod.metadata.name@;
        let content = dns::pod_resolv_conf(
            pod,
            self.cluster_dns@,
            self.cluster_domain@,
            text::opt_text(facts.host_resolv_conf),
            text::opt_text(facts.uplink_resolv_conf),
        );
        &&& self.configures(
            plan.config,
            pod,
            c,
            entries,
            m,
            netns,
            hosts_file,
            content is Some,
            facts.env.readings@,
        )
        &&& text::texts(plan.sub_paths@) == m.sub_paths
        &&& match plan.resolv_conf {
            Some((path, t)) => path@ == names::pod_path_text(base, name, "resolv.conf"@)
                && content == Some(t@),
            None => content is None,
        }
        &&& plan.termination_file@ == names::termination_file_text(base, name, c.name@)
    }

    /// `r` is the outcome of starting the container.
    pub open spec fn starts(
        self,
        r: Result<StartPlan, ConfigError>,
        pod: Pod,
        c: Container,
        paths: Seq<(String, String)>,
        netns: Option<Seq<char>>,
        hosts_file: Option<Seq<char>>,
        pod_ip: Option<Seq<char>>,
        facts: StartFacts,
    ) -> bool {
        match env::environment(self.kubernetes_service_host@, pod, c, pod_ip, facts.env) {
            None => r == Err::<StartPlan, ConfigError>(ConfigError::Endless),
            Some(entries) => self.starts_with(
                r,
                pod,
                c,
                entries,
                paths,
                netns,
                hosts_file,
                facts,
            ),
        }
    }

    /// `r` is the outcome of starting the container with the given environment.
    pub open spec fn starts_with(
        self,
        r: Result<StartPlan, ConfigError>,
        pod: Pod,
        c: Container,
        entries: Seq<Seq<char>>,
        paths: Seq<(String, String)>,
        netns: Option<Seq<char>>,
        hosts_file: Option<Seq<char>>,
        facts: StartFacts,
    ) -> bool {
        let ms = mounts::mounts_of(c);
        let pairs = expand::pairs_of(entries);
        if mounts::endless(pod, c.name@, ms, pairs, paths) {
            r == Err::<StartPlan, ConfigError>(ConfigError::Endless)
        } else {
            match mounts::mounted(pod, c.name@, ms, pairs, paths) {
                Err((e, made)) => r matches Err(ConfigError::Refused(t, v)) && t@ == e
                    && text::texts(v@) == made,
                Ok(m) => r matches Ok(plan) && self.plans(
                    plan,
                    pod,
                    c,
                    entries,
                    m,
                    netns,
                    hosts_file,
                    facts,
                ),
            }
        }
    }
}

/// What ended, and only that, is replaced; what is not there is created; what runs, or is in
/// any other state, is left alone.
pub proof fn law_only_what_ended_is_replaced(e: ExistingContainer)
    ensures
        start_step(None) == StartStep::Create,
        e.running == Some(true) ==> start_step(Some(e)) == StartStep::Leave,
        e.running != Some(true) && (e.status == Some(ContainerStatusKind::Exited) || e.status
            == Some(ContainerStatusKind::Dead)) ==> start_step(Some(e)) == StartStep::Replace,
        e.status != Some(ContainerStatusKind::Exited) && e.status != Some(ContainerStatusKind::Dead)
            ==> start_step(Some(e)) == StartStep::Leave,
{
}

/// The kernel holds a container to what it asks for: its memory to the limit where there is one
/// above 0, its processor time to the limit in every period, and its weight among the others to
/// its request, or else its limit, at 1024 for a core and 2 at least.
pub proof fn law_limits_are_what_is_asked_for(
    l: Limits,
    c: Container,
    readings: Seq<(String, i64)>,
)
    requires
        limits_of(l, c, readings),
    ensures
        ({
            let memory = downward::limit_of(c, "memory"@);
            let cpu = downward::limit_of(c, "cpu"@);
            let request = downward::request_of(c, "cpu"@);
            let basis = if request is Some {
                request
            } else {
                cpu
            };
            &&& memory is None ==> l.memory is None
            &&& memory matches Some(q) ==> {
                &&& quantity::memory_bytes(q) > 0 ==> (l.memory matches Some(b) && b
                    == quantity::memory_bytes(q))
                &&& quantity::memory_bytes(q) <= 0 ==> l.memory is None
            }
            &&& cpu is None ==> l.cpu_quota is None && l.cpu_period is None
            &&& cpu matches Some(q) ==> {
                let m = quantity::millicores(q, readings);
                &&& m > 0 ==> l.cpu_quota is Some && l.cpu_period == Some(100_000i64)
                    && l.cpu_quota->0 * 1000 == m * l.cpu_period->0
                &&& m <= 0 ==> l.cpu_quota is None && l.cpu_period is None
            }
            &&& l.cpu_shares is Some && l.cpu_shares->0 >= 2
            &&& basis is None ==> l.cpu_shares == Some(2i64)
            &&& basis matches Some(q) ==> {
                let m = quantity::millicores(q, readings);
                &&& m <= 0 ==> l.cpu_shares == Some(2i64)
                &&& m >= 3 ==> l.cpu_shares->0 * 1000 <= m * 1024 < (l.cpu_shares->0 + 1) * 1000
            }
        }),
{
}

/// A container that can be started is created from what it asks for: its own name in the pod,
/// its image, its environment, its command with all of its arguments, its mounts and the file
/// for its message, its user and privileges, its limits, and the network of its pod.
pub proof fn law_containers_are_created_as_asked(
    rt: ContainerRuntime,
    r: Result<StartPlan, ConfigError>,
    pod: Pod,
    c: Container,
    paths: Seq<(String, String)>,
    netns: Option<Seq<char>>,
    hosts_file: Option<Seq<char>>,
    pod_ip: Option<Seq<char>>,
    facts: StartFacts,
    entries: Seq<Seq<char>>,
    m: mounts::MountsView,
)
    requires
        rt.starts(r, pod, c, paths, netns, hosts_file, pod_ip, facts),
        env::environment(rt.kubernetes_service_host@, pod, c, pod_ip, facts.env) == Some(entries),
        !mounts::endless(pod, c.name@, mounts::mounts_of(c), expand::pairs_of(entries), paths),
        mounts::mounted(pod, c.name@, mounts::mounts_of(c), expand::pairs_of(entries), paths)
            == Ok::<mounts::MountsView, (Seq<char>, Seq<Seq<char>>)>(m),
    ensures
        r is Ok,
        ({
            let k = r->Ok_0.config;
            let name = pod.metadata.name@;
            let pairs = expand::pairs_of(entries);
            let message = rt.volumes_base_path@ + "/"@ + name + "/"@ + "termination"@ + "/"@
                + c.name@;
            &&& k.name@ == name + "_"@ + c.name@
            &&& k.image@ == c.image@
            &&& k.labels@.len() == 2 && k.labels@[1].1@ == name
            &&& entries.len() > 0 ==> (k.env matches Some(v) && text::texts(v@) == entries)
            &&& c.command is None ==> k.command.entrypoint is None
            &&& c.command matches Some(v) ==> (k.command.entrypoint matches Some(w)
                && shell::are_expanded(text::texts(w@), v@, pairs))
            &&& c.args matches Some(v) ==> (k.command.cmd matches Some(w) && shell::are_expanded(
                text::texts(w@),
                v@,
                pairs,
            ))
            &&& c.working_dir is None ==> k.working_dir is None
            &&& c.working_dir matches Some(d) ==> (k.working_dir matches Some(w) && w@ == d@)
            &&& k.open_stdin == c.stdin && k.attach_stdin == c.stdin && k.stdin_once == c.stdin_once
                && k.tty == c.tty
            &&& k.binds is Some && ({
                let b = text::texts(k.binds->0@);
                &&& m.binds.len() < b.len() <= m.binds.len() + 3
                &&& b.take(m.binds.len() as int) == m.binds
                &&& b.last() == message + ":"@ + mounts::termination_path(
                    c.termination_message_path,
                )
            })
            &&& r->Ok_0.termination_file@ == message
            &&& text::texts(r->Ok_0.sub_paths@) == m.sub_paths
            &&& m.tmpfs.len() > 0 ==> (k.tmpfs matches Some(t) && api::pair_texts(t@) == m.tmpfs)
            &&& netns is None ==> k.network_mode@ == "container:"@ + name + "_pause"@
            &&& netns matches Some(ns) ==> k.network_mode@ == "ns:"@ + ns
            &&& limits_of(k.limits, c, facts.env.readings@)
            &&& text::opt_text(k.user) == security::user_text(pod, c)
            &&& c.security_context is None ==> k.privileged is None && k.readonly_rootfs is None
                && k.cap_add is None && k.cap_drop is None
            &&& c.security_context matches Some(sc) ==> {
                &&& k.privileged == sc.privileged
                &&& k.readonly_rootfs == sc.read_only_root_filesystem
                &&& sc.capabilities matches Some(x) ==> shell::opt_texts(k.cap_add)
                    == shell::opt_texts(x.add) && shell::opt_texts(k.cap_drop) == shell::opt_texts(
                    x.drop,
                )
            }
            &&& !rt.use_cni && netns is None ==> k.exposed_ports is None && k.port_bindings is None
                && k.hostname is None
            &&& rt.use_cni || netns is Some ==> {
                &&& k.hostname matches Some(h) && h@ == hosts::hostname_text(
                    hosts::wanted_hostname(pod),
                )
                &&& c.ports matches Some(ps) ==> shell::opt_texts(k.exposed_ports) == unless_empty(
                    ports::exposed(ps@),
                ) && (ports::bound(ps@, false).len() > 0 ==> (k.port_bindings matches Some(b)
                    && ports::bindings_view(b@) == ports::bound(ps@, false)))
            }
            &&& (k.pid_mode is Some <==> pod.spec is Some && pod.spec->0.share_process_namespace
                == Some(true))
        }),
{
    let k = r->Ok_0.config;
    let pairs = expand::pairs_of(entries);
    shell::law_containers_run_what_they_ask_for(c, pairs, Seq::empty(), Seq::empty());
    let name = pod.metadata.name@;
    let b = text::texts(k.binds->0@);
    assert(ports::bound(Seq::<api::ContainerPort>::empty(), false).len() == 0);
    if let Some(bs) = k.port_bindings {
        assert(ports::bindings_view(bs@).len() == bs@.len());
    }
    assert(b.take(m.binds.len() as int) =~= m.binds);
    assert(b.last() =~= rt.volumes_base_path@ + "/"@ + name + "/"@ + "termination"@ + "/"@ + c.name@
        + ":"@ + mounts::termination_path(c.termination_message_path));
}

/// A container whose environment or mounts cannot be had is not created: a refused mount gives
/// its own reason, and references without an end are told as such.
pub proof fn law_containers_that_cannot_be_configured_are_refused(
    rt: ContainerRuntime,
    r: Result<StartPlan, ConfigError>,
    pod: Pod,
    c: Container,
    paths: Seq<(String, String)>,
    netns: Option<Seq<char>>,
    hosts_file: Option<Seq<char>>,
    pod_ip: Option<Seq<char>>,
    facts: StartFacts,
)
    requires
        rt.starts(r, pod, c, paths, netns, hosts_file, pod_ip, facts),
    ensures
        ({
            let es = env::environment(rt.kubernetes_service_host@, pod, c, pod_ip, facts.env);
            let ms = mounts::mounts_of(c);
            &&& es is None ==> r is Err && r->Err_0 is Endless
            &&& es matches Some(entries) ==> {
                let pairs = expand::pairs_of(entries);
                let endless = mounts::endless(pod, c.name@, ms, pairs, paths);
                &&& endless ==> r is Err && r->Err_0 is Endless
                &&& !endless ==> (mounts::mounted(pod, c.name@, ms, pairs, paths) matches Err(e)
                    ==> r is Err && (r->Err_0 matches ConfigError::Refused(t, made) && t@ == e.0
                    && text::texts(made@) == e.1))
            }
        }),
{
}

/// A container with the cluster's resolver configuration has it mounted read-only, and one with
/// a hosts file has that mounted, unless something is mounted there already.
pub proof fn law_resolver_and_hosts_are_mounted(
    own: Seq<Seq<char>>,
    c: Container,
    pod: Seq<char>,
    base: Seq<char>,
    hosts_file: Seq<char>,
)
    requires
        forall|i: int|
            0 <= i < own.len() ==> !text::has(#[trigger] own[i], ":/etc/resolv.conf"@) && !text::has(
                own[i],
                ":/etc/hosts"@,
            ),
    ensures
        all_binds(own, c, pod, base, true, Some(hosts_file)).contains(
            base + "/"@ + pod + "/"@ + "resolv.conf"@ + ":/etc/resolv.conf:ro"@,
        ),
        !mounts_hosts(c) ==> all_binds(own, c, pod, base, false, Some(hosts_file)).contains(
            hosts_file + ":/etc/hosts"@,
        ),
        all_binds(own, c, pod, base, false, None).len() == own.len() + 1,
{
    let x = base + "/"@ + pod + "/"@ + "resolv.conf"@ + ":/etc/resolv.conf:ro"@;
    let a = all_binds(own, c, pod, base, true, Some(hosts_file));
    assert(!any_has(own, ":/etc/resolv.conf"@));
    assert(!any_has(own, ":/etc/hosts"@));
    assert(a[own.len() as int] =~= x);
    assert(a.contains(x));
    if !mounts_hosts(c) {
        let b = all_binds(own, c, pod, base, false, Some(hosts_file));
        assert(b[own.len() as int] == hosts_file + ":/etc/hosts"@);
        assert(b.contains(hosts_file + ":/etc/hosts"@));
    }
}

/// A refusal is taken for one over a name exactly where it says that there is a conflict, in
/// figures or in words.
pub proof fn law_conflicts_are_told_by_their_words(error: Seq<char>)
    ensures
        name_taken(error) <==> text::has(error, "409"@) || text::has(error, "Conflict"@)
            || text::has(error, "already in use"@),
{
}

/// The container that a refusal names between quotes is the one that is taken for the holder
/// of the name; a refusal that names none gives none.
pub proof fn law_the_holder_of_a_name_is_found(pre: Seq<char>, id: Seq<char>, post: Seq<char>)
    requires
        !id.contains(' '),
        !id.contains('"'),
    ensures
        ({
            let mark = "already in use by container \""@;
            let error = pre + mark + id + "\""@ + post;
            &&& (forall|j: int| 0 <= j < pre.len() ==> !text::occurs_at(error, mark, j))
                ==> holder_in(error) == Some(id)
            &&& !text::has(pre, mark) ==> holder_in(pre) is None
        }),
{
    reveal_strlit("already in use by container \"");
    reveal_strlit("\"");
    let mark = "already in use by container \""@;
    let error = pre + mark + id + "\""@ + post;
    let rest = id + "\""@ + post;
    assert forall|j: int| 0 <= j < id.len() implies id[j] != ' ' && id[j] != '"' by {
        if id[j] == ' ' {
            assert(id.contains(' '));
        }
        if id[j] == '"' {
            assert(id.contains('"'));
        }
    }
    text::law_the_first_place_is_found(pre, mark, 0);
    if forall|j: int| 0 <= j < pre.len() ==> !text::occurs_at(error, mark, j) {
        let k = pre.len() as int;
        assert(error.subrange(k, k + mark.len()) =~= mark);
        assert(text::occurs_at(error, mark, k));
        text::law_the_first_place_is_found(error, mark, k);
        assert(error.skip(k + mark.len()) =~= rest);
        let m = text::first_at(rest, mark);
        lemma_first_bounds(rest, mark);
        assert(m > id.len()) by {
            if m <= id.len() && m < rest.len() {
                assert(text::occurs_at(rest, mark, m));
                assert(rest.subrange(m, m + mark.len()) == mark);
                if m + 7 < id.len() {
                    assert(rest.subrange(m, m + mark.len())[7] == rest[m + 7]);
                    assert(mark[7] == ' ');
                } else {
                    let o = id.len() - m;
                    assert(rest.subrange(m, m + mark.len())[o] == rest[id.len() as int]);
                    assert(rest[id.len() as int] == '"');
                    assert(mark[o] != '"');
                }
            }
        }
        let piece = rest.take(m);
        assert(piece[id.len() as int] == '"');
        assert forall|j: int| 0 <= j < id.len() implies piece[j] != '"' by {
            assert(piece[j] == id[j]);
        }
        text::lemma_cut_is(piece, '"', id.len() as int);
        assert(piece.take(id.len() as int) =~= id);
    }
}

proof fn lemma_first_bounds(s: Seq<char>, pat: Seq<char>)
    requires
        pat.len() > 0,
    ensures
        0 <= text::first_at(s, pat) <= s.len(),
        text::first_at(s, pat) < s.len() ==> text::occurs_at(s, pat, text::first_at(s, pat)),
    decreases s.len(),
{
    if s.len() < pat.len() || s.len() == 0 {
    } else if text::begins(s, pat) {
        assert(s.subrange(0, pat.len() as int) =~= s.take(pat.len() as int));
    } else {
        let d = s.drop_first();
        lemma_first_bounds(d, pat);
        let k = text::first_at(d, pat);
        if k < d.len() {
            assert(s.subrange(k + 1, k + 1 + pat.len()) =~= d.subrange(k, k + pat.len()));
        }
    }
}

/// A container without variables and limits is ready to be created once its pod's name fits
/// a hostname.
pub proof fn law_plain_containers_are_ready(pod: Pod, c: Container, f: StartFacts)
    requires
        c.env is None,
        c.env_from is None,
        f.env.env_from@.len() == 0,
        c.resources is None,
        hosts::can_be_cut(hosts::wanted_hostname(pod)),
    ensures
        is_ready(pod, c, f),
{
}

/// A container lives in its pod's world: it is marked as its cluster's and its pod's, shares
/// the network holder's namespaces, and asks the cluster's name server where its network does
/// not come from the holder; its security options are those that it and its pod ask for.
pub proof fn law_containers_live_in_their_pods_world(
    rt: ContainerRuntime,
    k: ContainerConfig,
    pod: Pod,
    c: Container,
    entries: Seq<Seq<char>>,
    m: mounts::MountsView,
    netns: Option<Seq<char>>,
    hosts_file: Option<Seq<char>>,
    with_resolv_conf: bool,
    readings: Seq<(String, i64)>,
)
    requires
        rt.configures(k, pod, c, entries, m, netns, hosts_file, with_resolv_conf, readings),
    ensures
        ({
            let name = pod.metadata.name@;
            let holder = "container:"@ + name + "_pause"@;
            let ns = match pod.metadata.namespace {
                Some(n) => n@,
                None => "default"@,
            };
            let asks = rt.use_cni && name != "coredns"@;
            &&& k.labels@[0].0@ == "rusternetes.io/cluster"@ && k.labels@[0].1@ == rt.network@
            &&& k.labels@[1].0@ == "rusternetes.io/pod"@ && k.labels@[1].1@ == name
            &&& entries.len() == 0 ==> k.env is None
            &&& rt.use_cni ==> k.ipc_mode is None
            &&& !rt.use_cni ==> text::opt_text(k.ipc_mode) == Some(holder)
            &&& pod.spec is Some && pod.spec->0.share_process_namespace == Some(true)
                ==> text::opt_text(k.pid_mode) == Some(holder)
            &&& !rt.use_cni && netns is None && rt.supports_uts_container_mode ==> text::opt_text(
                k.uts_mode,
            ) == Some(holder)
            &&& rt.use_cni || netns is Some || !rt.supports_uts_container_mode ==> k.uts_mode is None
            &&& !asks ==> k.dns is None && k.dns_search is None && k.dns_options is None
            &&& asks ==> {
                &&& shell::opt_texts(k.dns) == Some(seq![rt.cluster_dns@])
                &&& shell::opt_texts(k.dns_search) == Some(
                    seq![
                        ns + ".svc."@ + rt.cluster_domain@,
                        "svc."@ + rt.cluster_domain@,
                        rt.cluster_domain@,
                    ],
                )
                &&& shell::opt_texts(k.dns_options) == Some(seq!["ndots:5"@])
            }
            &&& ({
                let opts = security::security_options(
                    c.security_context,
                    match pod.spec {
                        Some(s) => s.security_context,
                        None => None,
                    },
                );
                &&& opts.len() == 0 ==> k.security_opt is None
                &&& opts.len() > 0 ==> shell::opt_texts(k.security_opt) == Some(opts)
            })
            &&& c.security_context is Some && c.security_context->0.capabilities is None
                ==> k.cap_add is None && k.cap_drop is None
            &&& m.tmpfs.len() == 0 ==> k.tmpfs is None
            &&& c.ports is None ==> k.exposed_ports is None && k.port_bindings is None
            &&& c.command is None && c.args is None ==> k.command.cmd is None
            &&& k.binds is Some
            &&& text::texts(k.binds->0@) == all_binds(
                m.binds,
                c,
                name,
                rt.volumes_base_path@,
                with_resolv_conf,
                hosts_file,
            )
        }),
{
    assert(ports::exposed(Seq::empty()).len() == 0);
    assert(ports::bound(Seq::empty(), false).len() == 0);
}

/// A container that is created comes with its pod's resolver configuration, where there is
/// one, which is written where it is mounted from.
pub proof fn law_the_resolver_configuration_is_written_and_mounted(
    rt: ContainerRuntime,
    plan: StartPlan,
    pod: Pod,
    c: Container,
    entries: Seq<Seq<char>>,
    m: mounts::MountsView,
    netns: Option<Seq<char>>,
    hosts_file: Option<Seq<char>>,
    facts: StartFacts,
)
    requires
        rt.plans(plan, pod, c, entries, m, netns, hosts_file, facts),
        forall|i: int|
            0 <= i < m.binds.len() ==> !text::has(#[trigger] m.binds[i], ":/etc/resolv.conf"@)
                && !text::has(m.binds[i], ":/etc/hosts"@),
    ensures
        ({
            let content = dns::pod_resolv_conf(
                pod,
                rt.cluster_dns@,
                rt.cluster_domain@,
                text::opt_text(facts.host_resolv_conf),
                text::opt_text(facts.uplink_resolv_conf),
            );
            let path = rt.volumes_base_path@ + "/"@ + pod.metadata.name@ + "/"@ + "resolv.conf"@;
            let binds = text::texts(plan.config.binds->0@);
            &&& content is None ==> plan.resolv_conf is None
            &&& content matches Some(t) ==> {
                &&& plan.resolv_conf matches Some(x) && x.0@ == path && x.1@ == t
                &&& binds.contains(path + ":/etc/resolv.conf:ro"@)
            }
            &&& content is None && hosts_file is Some && !mounts_hosts(c) ==> binds.contains(
                hosts_file->0 + ":/etc/hosts"@,
            )
        }),
{
    law_resolver_and_hosts_are_mounted(
        m.binds,
        c,
        pod.metadata.name@,
        rt.volumes_base_path@,
        if hosts_file is Some {
            hosts_file->0
        } else {
            Seq::empty()
        },
    );
    let content = dns::pod_resolv_conf(
        pod,
        rt.cluster_dns@,
        rt.cluster_domain@,
        text::opt_text(facts.host_resolv_conf),
        text::opt_text(facts.uplink_resolv_conf),
    );
    if content is Some {
        let name = pod.metadata.name@;
        let base = rt.volumes_base_path@;
        let resolv = base + "/"@ + name + "/"@ + "resolv.conf"@ + ":/etc/resolv.conf:ro"@;
        let b = all_binds(m.binds, c, name, base, true, hosts_file);
        assert(!any_has(m.binds, ":/etc/resolv.conf"@));
        assert(b[m.binds.len() as int] == resolv);
    }
}

/// A container whose variables have values or stand for keys, and whose quantities fit, is
/// ready to be created once everything that it refers to was looked up.
pub proof fn law_ordinary_containers_are_ready(pod: Pod, c: Container, f: StartFacts)
    requires
        c.env_from matches Some(v) ==> f.env.env_from@.len() == v@.len(),
        c.env_from is None ==> f.env.env_from@.len() == 0,
        c.env matches Some(v) ==> f.env.key_values@.len() == v@.len() && forall|i: int|
            0 <= i < v@.len() ==> (#[trigger] v@[i]).value is Some || (v@[i].value_from is Some && (
            v@[i].value_from->0.config_map_key_ref is Some
                || v@[i].value_from->0.secret_key_ref is Some)),
        downward::limit_of(c, "memory"@) matches Some(q) ==> 0 <= quantity::memory_bytes(q)
            <= i64::MAX,
        downward::limit_of(c, "cpu"@) matches Some(q) ==> 0 <= quantity::millicores(
            q,
            f.env.readings@,
        ) <= 1_000_000_000,
        downward::request_of(c, "cpu"@) matches Some(q) ==> 0 <= quantity::millicores(
            q,
            f.env.readings@,
        ) <= 1_000_000_000,
        hosts::can_be_cut(hosts::wanted_hostname(pod)),
    ensures
        is_ready(pod, c, f),
{
}

} // verus!
