//! A container's environment: the address of the API server, the services of the
//! namespace, whole config maps and secrets, and the container's own variables.

use crate::api;
use crate::api::{Container, EnvVar, Pod, Service, ServicePort};
use crate::downward;
use crate::expand;
use crate::number;
use crate::quantity::DecimalCores;
use crate::runtime::ContainerRuntime;
use crate::text;
use vstd::prelude::*;
use vstd::string::*;
use vstd::utf8::*;

verus! {

/// What one `envFrom` source was found to hold. A part is missing where the source
/// does not name it, or where it is not in storage.
#[derive(Clone, Debug, Default)]
pub struct EnvFromData {
    pub config_map: Option<Vec<(String, String)>>,
    pub secret: Option<Vec<(String, Vec<u8>)>>,
}

/// What a container's environment takes from outside the pod.
#[derive(Clone, Debug, Default)]
pub struct EnvFacts {
    /// The API server's address is set by hand rather than that of its service.
    pub host_override: bool,
    /// The API server's port, where it is set by hand.
    pub port_override: Option<String>,
    /// The services of the pod's namespace, where storage could list them.
    pub services: Option<Vec<Service>>,
    /// For each `envFrom` source of the container, what it holds.
    pub env_from: Vec<EnvFromData>,
    /// For each variable of the container that refers to a key of a config map or a
    /// secret, the value of the key.
    pub key_values: Vec<Option<String>>,
    /// Plain decimal processor quantities as floating point reads them.
    pub readings: DecimalCores,
}

/// `name=value`.
pub open spec fn entry(name: Seq<char>, value: Seq<char>) -> Seq<char> {
    name + "="@ + value
}

/// The port at which pods reach the API server.
pub open spec fn api_port(host_override: bool, port_override: Option<String>) -> Seq<char> {
    if host_override {
        downward::text_or(port_override, "6443"@)
    } else {
        "443"@
    }
}

/// The variables by which a pod finds the API server.
pub open spec fn api_entries(host: Seq<char>, port: Seq<char>) -> Seq<Seq<char>> {
    let url = "tcp://"@ + host + ":"@ + port;
    seq![
        entry("KUBERNETES_SERVICE_HOST"@, host),
        entry("KUBERNETES_SERVICE_PORT"@, port),
        entry("KUBERNETES_SERVICE_PORT_HTTPS"@, port),
        entry("KUBERNETES_PORT"@, url),
        entry("KUBERNETES_PORT_443_TCP"@, url),
        entry("KUBERNETES_PORT_443_TCP_PROTO"@, "tcp"@),
        entry("KUBERNETES_PORT_443_TCP_PORT"@, port),
        entry("KUBERNETES_PORT_443_TCP_ADDR"@, host),
    ]
}

/// A name as part of a variable's name: upper case, with `_` for `-`.
pub open spec fn env_word(name: Seq<char>) -> Seq<char> {
    text::replaced(text::upper(name), '-', "_"@)
}

/// A service port's protocol in lower case, `tcp` where it names none.
pub open spec fn protocol_text(p: ServicePort) -> Seq<char> {
    text::lower(downward::text_or(p.protocol, "TCP"@))
}

/// The variables that describe one port of a service.
pub open spec fn port_entries(svc: Seq<char>, ip: Seq<char>, p: ServicePort) -> Seq<Seq<char>> {
    let port = number::decimal(p.port as int);
    let proto = protocol_text(p);
    let stem = svc + "_PORT_"@ + port + "_"@ + text::upper(proto);
    seq![
        entry(stem, proto + "://"@ + ip + ":"@ + port),
        entry(stem + "_PROTO"@, proto),
        entry(stem + "_PORT"@, port),
        entry(stem + "_ADDR"@, ip),
    ]
}

/// The variable that a port has by its name.
pub open spec fn named_port_entries(svc: Seq<char>, p: ServicePort) -> Seq<Seq<char>> {
    match p.name {
        Some(n) => seq![
            entry(svc + "_SERVICE_PORT_"@ + env_word(n@), number::decimal(p.port as int)),
        ],
        None => Seq::empty(),
    }
}

/// The variables of a service's first port.
pub open spec fn first_port_entries(svc: Seq<char>, ip: Seq<char>, p: ServicePort) -> Seq<
    Seq<char>,
> {
    let port = number::decimal(p.port as int);
    seq![
        entry(svc + "_SERVICE_PORT"@, port),
        entry(svc + "_PORT"@, protocol_text(p) + "://"@ + ip + ":"@ + port),
    ] + port_entries(svc, ip, p) + named_port_entries(svc, p)
}

/// The variables of the ports `ps`, which follow a service's first one.
pub open spec fn later_port_entries(svc: Seq<char>, ip: Seq<char>, ps: Seq<ServicePort>) -> Seq<
    Seq<char>,
>
    decreases ps.len(),
{
    if ps.len() == 0 {
        Seq::empty()
    } else {
        later_port_entries(svc, ip, ps.drop_last()) + named_port_entries(svc, ps.last())
            + port_entries(svc, ip, ps.last())
    }
}

/// A service has variables: it is not the API server's own, and it has an address.
pub open spec fn service_is_linked(s: Service) -> bool {
    s.name@ != "kubernetes"@ && s.cluster_ip is Some && s.cluster_ip->0@ != "None"@
        && s.cluster_ip->0@.len() > 0
}

/// The variables of a service.
pub open spec fn service_entries(s: Service) -> Seq<Seq<char>> {
    if service_is_linked(s) {
        let svc = env_word(s.name@);
        let ip = s.cluster_ip->0@;
        let host = seq![entry(svc + "_SERVICE_HOST"@, ip)];
        if s.ports@.len() == 0 {
            host
        } else {
            host + first_port_entries(svc, ip, s.ports@[0]) + later_port_entries(
                svc,
                ip,
                s.ports@.skip(1),
            )
        }
    } else {
        Seq::empty()
    }
}

/// The variables of all services of a list, in its order.
pub open spec fn all_service_entries(ss: Seq<Service>) -> Seq<Seq<char>>
    decreases ss.len(),
{
    if ss.len() == 0 {
        Seq::empty()
    } else {
        all_service_entries(ss.drop_last()) + service_entries(ss.last())
    }
}

/// The pod wants the services of its namespace in its environment.
pub open spec fn wants_service_links(pod: Pod) -> bool {
    match pod.spec {
        Some(s) => match s.enable_service_links {
            Some(b) => b,
            None => true,
        },
        None => true,
    }
}

/// The variables that a pod of an indexed job gets.
pub open spec fn job_entries(pod: Pod) -> Seq<Seq<char>> {
    match api::opt_lookup(
        pod.metadata.annotations,
        "batch.kubernetes.io/job-completion-index"@,
    ) {
        Some(i) => seq![entry("JOB_COMPLETION_INDEX"@, i)],
        None => Seq::empty(),
    }
}

/// The variables of a config map's keys.
pub open spec fn text_entries(prefix: Seq<char>, data: Seq<(String, String)>) -> Seq<Seq<char>>
    decreases data.len(),
{
    if data.len() == 0 {
        Seq::empty()
    } else {
        text_entries(prefix, data.drop_last()).push(
            entry(prefix + data.last().0@, data.last().1@),
        )
    }
}

/// The variables of those keys of a secret whose bytes are text.
pub open spec fn byte_entries(prefix: Seq<char>, data: Seq<(String, Vec<u8>)>) -> Seq<Seq<char>>
    decreases data.len(),
{
    if data.len() == 0 {
        Seq::empty()
    } else {
        let rest = byte_entries(prefix, data.drop_last());
        if valid_utf8(data.last().1@) {
            rest.push(entry(prefix + data.last().0@, decode_utf8(data.last().1@)))
        } else {
            rest
        }
    }
}

/// The variables of one `envFrom` source.
pub open spec fn source_entries(prefix: Option<String>, d: EnvFromData) -> Seq<Seq<char>> {
    let p = downward::text_or(prefix, Seq::empty());
    (match d.config_map {
        Some(m) => text_entries(p, m@),
        None => Seq::empty(),
    }) + (match d.secret {
        Some(m) => byte_entries(p, m@),
        None => Seq::empty(),
    })
}

/// The variables of the first `n` of a container's `envFrom` sources.
pub open spec fn sources_entries(c: Container, d: Seq<EnvFromData>, n: nat) -> Seq<Seq<char>>
    decreases n,
{
    match c.env_from {
        None => Seq::empty(),
        Some(v) => if n == 0 {
            Seq::empty()
        } else {
            sources_entries(c, d, (n - 1) as nat) + source_entries(v@[n - 1].prefix, d[n - 1])
        },
    }
}

/// The variables of the namespace's services, where the pod wants them.
pub open spec fn linked_entries(pod: Pod, f: EnvFacts) -> Seq<Seq<char>> {
    if wants_service_links(pod) {
        match f.services {
            Some(s) => all_service_entries(s@),
            None => Seq::empty(),
        }
    } else {
        Seq::empty()
    }
}

/// The variables that stand before the container's own.
pub open spec fn given_entries(host: Seq<char>, pod: Pod, c: Container, f: EnvFacts) -> Seq<
    Seq<char>,
> {
    api_entries(host, api_port(f.host_override, f.port_override)) + job_entries(pod)
        + linked_entries(pod, f) + sources_entries(c, f.env_from@, f.env_from@.len())
}

/// What a variable adds to the environment `before` it: nothing, or one entry. `None`
/// where its value's references have no end.
pub open spec fn variable_entries(
    pod: Pod,
    v: EnvVar,
    key_value: Option<String>,
    pod_ip: Option<Seq<char>>,
    readings: Seq<(String, i64)>,
    before: Seq<Seq<char>>,
) -> Option<Seq<Seq<char>>> {
    match v.value {
        Some(value) => match expand::value_expansion(value@, before, u64::MAX as nat) {
            Some(t) => Some(seq![entry(v.name@, t)]),
            None => None,
        },
        None => Some(
            match v.value_from {
                None => Seq::empty(),
                Some(from) => if from.config_map_key_ref is Some || from.secret_key_ref is Some {
                    match key_value {
                        Some(t) => seq![entry(v.name@, t@)],
                        None => Seq::empty(),
                    }
                } else if from.field_ref is Some {
                    let path = from.field_ref->0.field_path@;
                    match downward::field_value(pod, path) {
                        Ok(t) => seq![
                            entry(
                                v.name@,
                                if t.len() == 0 && path == "status.podIP"@ {
                                    downward::seq_or(pod_ip, Seq::empty())
                                } else {
                                    t
                                },
                            ),
                        ],
                        Err(_) => Seq::empty(),
                    }
                } else if from.resource_field_ref is Some {
                    match downward::resource_value(pod, from.resource_field_ref->0, readings) {
                        Ok(t) => seq![entry(v.name@, t)],
                        Err(_) => Seq::empty(),
                    }
                } else {
                    Seq::empty()
                },
            },
        ),
    }
}

/// The environment after the first `n` of the variables `vs` have been added.
pub open spec fn with_variables(
    pod: Pod,
    vs: Seq<EnvVar>,
    key_values: Seq<Option<String>>,
    pod_ip: Option<Seq<char>>,
    readings: Seq<(String, i64)>,
    given: Seq<Seq<char>>,
    n: nat,
) -> Option<Seq<Seq<char>>>
    decreases n,
{
    if n == 0 {
        Some(given)
    } else {
        match with_variables(pod, vs, key_values, pod_ip, readings, given, (n - 1) as nat) {
            None => None,
            Some(before) => match variable_entries(
                pod,
                vs[n - 1],
                key_values[n - 1],
                pod_ip,
                readings,
                before,
            ) {
                None => None,
                Some(more) => Some(before + more),
            },
        }
    }
}

/// A container's whole environment, as `name=value` entries in the order in which they
/// are set. `None` where a value's references have no end.
pub open spec fn environment(
    host: Seq<char>,
    pod: Pod,
    c: Container,
    pod_ip: Option<Seq<char>>,
    f: EnvFacts,
) -> Option<Seq<Seq<char>>> {
    let given = given_entries(host, pod, c, f);
    match c.env {
        None => Some(given),
        Some(vs) => with_variables(
            pod,
            vs@,
            f.key_values@,
            pod_ip,
            f.readings@,
            given,
            vs@.len(),
        ),
    }
}

/// Everything that a container refers to was looked up, and what it refers to can be
/// put in words: one set of data for each source, one value for each variable, keys of
/// labels that are closed, amounts that fit.
pub open spec fn facts_match(pod: Pod, c: Container, f: EnvFacts) -> bool {
    &&& match c.env_from {
        Some(v) => f.env_from@.len() == v@.len(),
        None => f.env_from@.len() == 0,
    }
    &&& match c.env {
        Some(v) => f.key_values@.len() == v@.len() && forall|i: int|
            0 <= i < v@.len() ==> variable_is_plain(pod, #[trigger] v@[i], f.readings@),
        None => true,
    }
}

/// A variable's field and resource references can be put in words.
pub open spec fn variable_is_plain(pod: Pod, v: EnvVar, readings: Seq<(String, i64)>) -> bool {
    v.value is None && v.value_from is Some ==> {
        let from = v.value_from->0;
        if from.config_map_key_ref is Some || from.secret_key_ref is Some {
            true
        } else if from.field_ref is Some {
            downward::key_is_closed(from.field_ref->0.field_path@)
        } else {
            from.resource_field_ref is Some ==> downward::resource_fits(
                pod,
                from.resource_field_ref->0,
                readings,
            )
        }
    }
}

/// An environment that cannot be continued stays so.
proof fn lemma_none_from(
    pod: Pod,
    vs: Seq<EnvVar>,
    key_values: Seq<Option<String>>,
    pod_ip: Option<Seq<char>>,
    readings: Seq<(String, i64)>,
    given: Seq<Seq<char>>,
    k: nat,
    n: nat,
)
    requires
        k <= n,
        with_variables(pod, vs, key_values, pod_ip, readings, given, k) is None,
    ensures
        with_variables(pod, vs, key_values, pod_ip, readings, given, n) is None,
    decreases n,
{
    if k < n {
        lemma_none_from(pod, vs, key_values, pod_ip, readings, given, k, (n - 1) as nat);
    }
}

/// Adds one entry to a list.
fn push_entry(list: &mut Vec<String>, name: &str, value: &str)
    ensures
        text::texts(final(list)@) == text::texts(old(list)@).push(entry(name@, value@)),
{
    let e = text::cat3(name, "=", value);
    list.push(e);
    assert(text::texts(list@) =~= text::texts(old(list)@).push(entry(name@, value@)));
}

/// A name as part of a variable's name.
pub fn to_env_word(name: &str) -> (r: String)
    ensures
        r@ == env_word(name@),
{
    let u = name.to_uppercase();
    text::replace_char(u.as_str(), '-', "_")
}

fn push_api_entries(list: &mut Vec<String>, host: &str, port: &str)
    ensures
        text::texts(final(list)@) == text::texts(old(list)@) + api_entries(host@, port@),
{
    let url = text::cat4("tcp://", host, ":", port);
    push_entry(list, "KUBERNETES_SERVICE_HOST", host);
    push_entry(list, "KUBERNETES_SERVICE_PORT", port);
    push_entry(list, "KUBERNETES_SERVICE_PORT_HTTPS", port);
    push_entry(list, "KUBERNETES_PORT", url.as_str());
    push_entry(list, "KUBERNETES_PORT_443_TCP", url.as_str());
    push_entry(list, "KUBERNETES_PORT_443_TCP_PROTO", "tcp");
    push_entry(list, "KUBERNETES_PORT_443_TCP_PORT", port);
    push_entry(list, "KUBERNETES_PORT_443_TCP_ADDR", host);
    assert(text::texts(list@) =~= text::texts(old(list)@) + api_entries(host@, port@));
}

fn push_port_entries(list: &mut Vec<String>, svc: &str, ip: &str, p: &ServicePort)
    ensures
        text::texts(final(list)@) == text::texts(old(list)@) + port_entries(svc@, ip@, *p),
{
    let port = number::show_i64(p.port as i64);
    let proto = downward::str_or(&p.protocol, "TCP").to_lowercase();
    let upper = proto.as_str().to_uppercase();
    let stem = text::cat5(svc, "_PORT_", port.as_str(), "_", upper.as_str());
    let url = text::cat5(proto.as_str(), "://", ip, ":", port.as_str());
    push_entry(list, stem.as_str(), url.as_str());
    let k1 = text::cat2(stem.as_str(), "_PROTO");
    push_entry(list, k1.as_str(), proto.as_str());
    let k2 = text::cat2(stem.as_str(), "_PORT");
    push_entry(list, k2.as_str(), port.as_str());
    let k3 = text::cat2(stem.as_str(), "_ADDR");
    push_entry(list, k3.as_str(), ip);
    assert(text::texts(list@) =~= text::texts(old(list)@) + port_entries(svc@, ip@, *p));
}

fn push_named_port(list: &mut Vec<String>, svc: &str, p: &ServicePort)
    ensures
        text::texts(final(list)@) == text::texts(old(list)@) + named_port_entries(svc@, *p),
{
    match &p.name {
        Some(n) => {
            let w = to_env_word(n.as_str());
            let k = text::cat3(svc, "_SERVICE_PORT_", w.as_str());
            let port = number::show_i64(p.port as i64);
            push_entry(list, k.as_str(), port.as_str());
        },
        None => {},
    }
    assert(text::texts(list@) =~= text::texts(old(list)@) + named_port_entries(svc@, *p));
}

fn push_service_entries(list: &mut Vec<String>, s: &Service)
    ensures
        text::texts(final(list)@) == text::texts(old(list)@) + service_entries(*s),
{
    let ghost start = text::texts(list@);
    let ip: &str = match &s.cluster_ip {
        Some(ip) => {
            if text::same(s.name.as_str(), "kubernetes") || text::same(ip.as_str(), "None")
                || ip.as_str().is_empty() {
                assert(start + service_entries(*s) =~= start);
                return;
            }
            ip.as_str()
        },
        None => {
            assert(start + service_entries(*s) =~= start);
            return;
        },
    };
    let svc = to_env_word(s.name.as_str());
    let host_key = text::cat2(svc.as_str(), "_SERVICE_HOST");
    push_entry(list, host_key.as_str(), ip);
    let ghost host = seq![entry(svc@ + "_SERVICE_HOST"@, ip@)];
    assert(text::texts(list@) =~= start + host);
    if s.ports.len() > 0 {
        let p = &s.ports[0];
        let ghost first = first_port_entries(svc@, ip@, *p);
        let port = number::show_i64(p.port as i64);
        let k = text::cat2(svc.as_str(), "_SERVICE_PORT");
        push_entry(list, k.as_str(), port.as_str());
        let proto = downward::str_or(&p.protocol, "TCP").to_lowercase();
        let url = text::cat5(proto.as_str(), "://", ip, ":", port.as_str());
        let k2 = text::cat2(svc.as_str(), "_PORT");
        push_entry(list, k2.as_str(), url.as_str());
        push_port_entries(list, svc.as_str(), ip, p);
        push_named_port(list, svc.as_str(), p);
        assert(text::texts(list@) =~= start + host + first);
        let ghost later = s.ports@.skip(1);
        let mut i: usize = 1;
        assert(later.take(0) == Seq::<ServicePort>::empty());
        assert(text::texts(list@) =~= start + host + first + later_port_entries(
            svc@,
            ip@,
            later.take(0),
        ));
        while i < s.ports.len()
            invariant
                1 <= i <= s.ports@.len(),
                later == s.ports@.skip(1),
                text::texts(list@) == start + host + first + later_port_entries(
                    svc@,
                    ip@,
                    later.take(i - 1),
                ),
            decreases s.ports@.len() - i,
        {
            let ghost done = later.take(i - 1);
            let ghost x = later[i - 1];
            assert(later.take(i as int).drop_last() == done);
            assert(later.take(i as int).last() == x);
            push_named_port(list, svc.as_str(), &s.ports[i]);
            push_port_entries(list, svc.as_str(), ip, &s.ports[i]);
            assert(text::texts(list@) =~= start + host + first + later_port_entries(
                svc@,
                ip@,
                later.take(i as int),
            ));
            i += 1;
        }
        assert(later.take(later.len() as int) == later);
        assert(start + (host + first + later_port_entries(svc@, ip@, later)) =~= start + host
            + first + later_port_entries(svc@, ip@, later));
    }
}

fn push_text_entries(list: &mut Vec<String>, prefix: &str, data: &Vec<(String, String)>)
    ensures
        text::texts(final(list)@) == text::texts(old(list)@) + text_entries(prefix@, data@),
{
    let ghost start = text::texts(list@);
    let mut i: usize = 0;
    assert(data@.take(0) == Seq::<(String, String)>::empty());
    assert(start + text_entries(prefix@, data@.take(0)) =~= start);
    while i < data.len()
        invariant
            i <= data@.len(),
            text::texts(list@) == start + text_entries(prefix@, data@.take(i as int)),
        decreases data@.len() - i,
    {
        assert(data@.take(i as int + 1).drop_last() == data@.take(i as int));
        let k = text::cat2(prefix, data[i].0.as_str());
        push_entry(list, k.as_str(), data[i].1.as_str());
        assert(text::texts(list@) =~= start + text_entries(prefix@, data@.take(i as int + 1)));
        i += 1;
    }
    assert(data@.take(data@.len() as int) == data@);
}

fn push_byte_entries(list: &mut Vec<String>, prefix: &str, data: &Vec<(String, Vec<u8>)>)
    ensures
        text::texts(final(list)@) == text::texts(old(list)@) + byte_entries(prefix@, data@),
{
    let ghost start = text::texts(list@);
    let mut i: usize = 0;
    assert(data@.take(0) == Seq::<(String, Vec<u8>)>::empty());
    assert(start + byte_entries(prefix@, data@.take(0)) =~= start);
    while i < data.len()
        invariant
            i <= data@.len(),
            text::texts(list@) == start + byte_entries(prefix@, data@.take(i as int)),
        decreases data@.len() - i,
    {
        assert(data@.take(i as int + 1).drop_last() == data@.take(i as int));
        assert(data@.take(i as int + 1).last() == data@[i as int]);
        match text::utf8_text(&data[i].1) {
            Some(v) => {
                let k = text::cat2(prefix, data[i].0.as_str());
                push_entry(list, k.as_str(), v.as_str());
            },
            None => {},
        }
        assert(text::texts(list@) =~= start + byte_entries(prefix@, data@.take(i as int + 1)));
        i += 1;
    }
    assert(data@.take(data@.len() as int) == data@);
}

/// The variables that stand before the container's own.
fn given_environment(host: &str, pod: &Pod, c: &Container, f: &EnvFacts) -> (list: Vec<String>)
    requires
        facts_match(*pod, *c, *f),
    ensures
        text::texts(list@) == given_entries(host@, *pod, *c, *f),
{
    let mut list: Vec<String> = Vec::new();
    let port: &str = if f.host_override {
        downward::str_or(&f.port_override, "6443")
    } else {
        "443"
    };
    push_api_entries(&mut list, host, port);
    let ghost base = api_entries(host@, port@);
    assert(text::texts(list@) =~= base);
    match api::opt_get(&pod.metadata.annotations, "batch.kubernetes.io/job-completion-index") {
        Some(i) => {
            push_entry(&mut list, "JOB_COMPLETION_INDEX", i);
        },
        None => {},
    }
    let ghost with_job = base + job_entries(*pod);
    assert(text::texts(list@) =~= with_job);
    let links: bool = match &pod.spec {
        Some(s) => match s.enable_service_links {
            Some(b) => b,
            None => true,
        },
        None => true,
    };
    if links {
        match &f.services {
            Some(ss) => {
                let mut i: usize = 0;
                assert(ss@.take(0) == Seq::<Service>::empty());
                assert(with_job + all_service_entries(ss@.take(0)) =~= with_job);
                while i < ss.len()
                    invariant
                        i <= ss@.len(),
                        text::texts(list@) == with_job + all_service_entries(ss@.take(i as int)),
                    decreases ss@.len() - i,
                {
                    assert(ss@.take(i as int + 1).drop_last() == ss@.take(i as int));
                    push_service_entries(&mut list, &ss[i]);
                    assert(text::texts(list@) =~= with_job + all_service_entries(
                        ss@.take(i as int + 1),
                    ));
                    i += 1;
                }
                assert(ss@.take(ss@.len() as int) == ss@);
            },
            None => {},
        }
    }
    let ghost with_services = with_job + linked_entries(*pod, *f);
    assert(text::texts(list@) =~= with_services);
    match &c.env_from {
        Some(v) => {
            let mut i: usize = 0;
            assert(with_services + sources_entries(*c, f.env_from@, 0) =~= with_services);
            while i < v.len()
                invariant
                    i <= v@.len(),
                    v@.len() == f.env_from@.len(),
                    c.env_from == Some(*v),
                    text::texts(list@) == with_services + sources_entries(
                        *c,
                        f.env_from@,
                        i as nat,
                    ),
                decreases v@.len() - i,
            {
                let prefix: &str = downward::str_or(&v[i].prefix, "");
                proof {
                    reveal_strlit("");
                    assert(""@ =~= Seq::<char>::empty());
                }
                let ghost mid = text::texts(list@);
                match &f.env_from[i].config_map {
                    Some(m) => {
                        push_text_entries(&mut list, prefix, m);
                    },
                    None => {},
                }
                match &f.env_from[i].secret {
                    Some(m) => {
                        push_byte_entries(&mut list, prefix, m);
                    },
                    None => {},
                }
                assert(text::texts(list@) =~= mid + source_entries(
                    v@[i as int].prefix,
                    f.env_from@[i as int],
                ));
                assert(text::texts(list@) =~= with_services + sources_entries(
                    *c,
                    f.env_from@,
                    (i + 1) as nat,
                ));
                i += 1;
            }
        },
        None => {
            assert(with_services + sources_entries(*c, f.env_from@, 0) =~= with_services);
        },
    }
    list
}

impl ContainerRuntime {
    /// The environment of a pod's container, in the order in which it is set. `None`
    /// where the references in a variable's value have no end.
    pub fn container_environment(
        &self,
        pod: &Pod,
        container: &Container,
        pod_ip: Option<&str>,
        facts: &EnvFacts,
    ) -> (r: Option<Vec<String>>)
        requires
            facts_match(*pod, *container, *facts),
        ensures
            (match r {
                Some(v) => Some(text::texts(v@)),
                None => None::<Seq<Seq<char>>>,
            }) == environment(
                self.kubernetes_service_host@,
                *pod,
                *container,
                match pod_ip {
                    Some(ip) => Some(ip@),
                    None => None,
                },
                *facts,
            ),
    {
        let mut list = given_environment(
            self.kubernetes_service_host.as_str(),
            pod,
            container,
            facts,
        );
        let ghost given = text::texts(list@);
        let ghost ip: Option<Seq<char>> = match pod_ip {
            Some(ip) => Some(ip@),
            None => None,
        };
        let vs = match &container.env {
            Some(vs) => vs,
            None => {
                return Some(list);
            },
        };
        let ghost values = facts.key_values@;
        let ghost readings = facts.readings@;
        let mut i: usize = 0;
        while i < vs.len()
            invariant
                i <= vs@.len(),
                vs@.len() == facts.key_values@.len(),
                values == facts.key_values@,
                readings == facts.readings@,
                ip == (match pod_ip {
                    Some(ip) => Some(ip@),
                    None => None,
                }),
                forall|k: int|
                    0 <= k < vs@.len() ==> variable_is_plain(*pod, #[trigger] vs@[k], readings),
                Some(text::texts(list@)) == with_variables(
                    *pod,
                    vs@,
                    values,
                    ip,
                    readings,
                    given,
                    i as nat,
                ),
                environment(self.kubernetes_service_host@, *pod, *container, ip, *facts)
                    == with_variables(*pod, vs@, values, ip, readings, given, vs@.len()),
            decreases vs@.len() - i,
        {
            let ghost before = text::texts(list@);
            let v = &vs[i];
            assert(variable_is_plain(*pod, vs@[i as int], readings));
            let ghost more = variable_entries(
                *pod,
                *v,
                facts.key_values@[i as int],
                ip,
                readings,
                before,
            );
            match &v.value {
                Some(value) => {
                    match expand::expand_value(value.as_str(), &list, u64::MAX) {
                        Some(t) => {
                            push_entry(&mut list, v.name.as_str(), t.as_str());
                            assert(more == Some(seq![entry(v.name@, t@)]));
                        },
                        None => {
                            assert(with_variables(
                                *pod,
                                vs@,
                                values,
                                ip,
                                readings,
                                given,
                                (i + 1) as nat,
                            ) is None);
                            proof {
                                lemma_none_from(
                                    *pod,
                                    vs@,
                                    values,
                                    ip,
                                    readings,
                                    given,
                                    (i + 1) as nat,
                                    vs@.len(),
                                );
                            }
                            return None;
                        },
                    }
                },
                None => {
                    match &v.value_from {
                        None => {
                            assert(more == Some(Seq::<Seq<char>>::empty()));
                        },
                        Some(from) => {
                            if from.config_map_key_ref.is_some() || from.secret_key_ref.is_some() {
                                match &facts.key_values[i] {
                                    Some(t) => {
                                        push_entry(&mut list, v.name.as_str(), t.as_str());
                                        assert(more == Some(seq![entry(v.name@, t@)]));
                                    },
                                    None => {
                                        assert(more == Some(Seq::<Seq<char>>::empty()));
                                    },
                                }
                            } else if let Some(field) = &from.field_ref {
                                match self.get_pod_field_value(pod, field.field_path.as_str()) {
                                    Ok(t) => {
                                        let resolved: &str = if t.as_str().is_empty()
                                            && text::same(
                                            field.field_path.as_str(),
                                            "status.podIP",
                                        ) {
                                            match pod_ip {
                                                Some(x) => x,
                                                None => "",
                                            }
                                        } else {
                                            t.as_str()
                                        };
                                        proof {
                                            reveal_strlit("");
                                            assert(""@ =~= Seq::<char>::empty());
                                        }
                                        push_entry(&mut list, v.name.as_str(), resolved);
                                        assert(more == Some(seq![entry(v.name@, resolved@)]));
                                    },
                                    Err(_) => {
                                        assert(more == Some(Seq::<Seq<char>>::empty()));
                                    },
                                }
                            } else if let Some(res) = &from.resource_field_ref {
                                match self.get_container_resource_value(
                                    pod,
                                    res,
                                    &facts.readings,
                                ) {
                                    Ok(t) => {
                                        push_entry(&mut list, v.name.as_str(), t.as_str());
                                        assert(more == Some(seq![entry(v.name@, t@)]));
                                    },
                                    Err(_) => {
                                        assert(more == Some(Seq::<Seq<char>>::empty()));
                                    },
                                }
                            } else {
                                assert(more == Some(Seq::<Seq<char>>::empty()));
                            }
                        },
                    }
                },
            }
            assert(text::texts(list@) =~= before + more->0);
            i += 1;
        }
        Some(list)
    }
}

/// Whether everything that a container refers to was looked up, and can be put in words.
pub fn env_facts_ready(pod: &Pod, c: &Container, f: &EnvFacts) -> (r: bool)
    ensures
        r == facts_match(*pod, *c, *f),
{
    let sources: usize = match &c.env_from {
        Some(v) => v.len(),
        None => 0,
    };
    if f.env_from.len() != sources {
        return false;
    }
    if let Some(v) = &c.env {
        if f.key_values.len() != v.len() {
            return false;
        }
        let mut i: usize = 0;
        while i < v.len()
            invariant
                i <= v@.len(),
                c.env == Some(*v),
                f.key_values@.len() == v@.len(),
                forall|j: int|
                    0 <= j < i ==> variable_is_plain(*pod, #[trigger] v@[j], f.readings@),
            decreases v@.len() - i,
        {
            if !variable_plain(pod, &v[i], &f.readings) {
                let ghost all = c.env->0@;
                assert(!variable_is_plain(*pod, all[i as int], f.readings@));
                return false;
            }
            i += 1;
        }
    }
    true
}

/// Whether a variable's references can be put in words.
fn variable_plain(pod: &Pod, v: &EnvVar, readings: &DecimalCores) -> (r: bool)
    ensures
        r == variable_is_plain(*pod, *v, readings@),
{
    if v.value.is_some() {
        return true;
    }
    match &v.value_from {
        None => true,
        Some(from) => {
            if from.config_map_key_ref.is_some() || from.secret_key_ref.is_some() {
                return true;
            }
            match &from.field_ref {
                Some(x) => !text::same(x.field_path.as_str(), "metadata.labels[']")
                    && !text::same(x.field_path.as_str(), "metadata.annotations[']"),
                None => match &from.resource_field_ref {
                    Some(x) => downward::resource_value_fits(pod, x, readings),
                    None => true,
                },
            }
        },
    }
}

proof fn lemma_contains_kept(a: Seq<Seq<char>>, b: Seq<Seq<char>>, x: Seq<char>)
    ensures
        a.contains(x) ==> (a + b).contains(x),
        b.contains(x) ==> (a + b).contains(x),
{
    if a.contains(x) {
        let i = choose|i: int| 0 <= i < a.len() && a[i] == x;
        assert((a + b)[i] == x);
    }
    if b.contains(x) {
        let i = choose|i: int| 0 <= i < b.len() && b[i] == x;
        assert((a + b)[a.len() + i] == x);
    }
}

/// One of the entries gives the name the value.
pub open spec fn gives(es: Seq<Seq<char>>, name: Seq<char>, value: Seq<char>) -> bool {
    es.contains(name + "="@ + value)
}

/// A variable of the container is among the entries `es`, with the value that it asks for: its
/// own with the references to what was set before it replaced, or that of a key, a field or a
/// resource.
pub open spec fn is_set(
    es: Seq<Seq<char>>,
    pod: Pod,
    v: EnvVar,
    key_value: Option<String>,
    pod_ip: Option<Seq<char>>,
    readings: Seq<(String, i64)>,
) -> bool {
    &&& v.value matches Some(value) ==> {
        &&& !value@.contains('$') ==> gives(es, v.name@, value@)
        &&& exists|n: int|
            0 <= n < es.len() && expand::value_expansion(
                value@,
                #[trigger] es.take(n),
                u64::MAX as nat,
            ) is Some && es[n] == v.name@ + "="@ + expand::value_expansion(
                value@,
                es.take(n),
                u64::MAX as nat,
            )->0
    }
    &&& v.value is None && v.value_from is Some ==> {
        let from = v.value_from->0;
        let keyed = from.config_map_key_ref is Some || from.secret_key_ref is Some;
        &&& keyed ==> (key_value matches Some(t) ==> gives(es, v.name@, t@))
        &&& !keyed && from.field_ref is Some ==> {
            let path = from.field_ref->0.field_path@;
            downward::field_value(pod, path) matches Ok(t) ==> {
                &&& t.len() > 0 || path != "status.podIP"@ ==> gives(es, v.name@, t)
                &&& t.len() == 0 && path == "status.podIP"@ ==> gives(
                    es,
                    v.name@,
                    match pod_ip {
                        Some(ip) => ip,
                        None => Seq::empty(),
                    },
                )
            }
        }
        &&& !keyed && from.field_ref is None && from.resource_field_ref is Some ==> (
        downward::resource_value(pod, from.resource_field_ref->0, readings) matches Ok(t) ==> gives(
            es,
            v.name@,
            t,
        ))
    }
}

proof fn lemma_is_set_kept(
    es: Seq<Seq<char>>,
    more: Seq<Seq<char>>,
    pod: Pod,
    v: EnvVar,
    key_value: Option<String>,
    pod_ip: Option<Seq<char>>,
    readings: Seq<(String, i64)>,
)
    requires
        is_set(es, pod, v, key_value, pod_ip, readings),
    ensures
        is_set(es + more, pod, v, key_value, pod_ip, readings),
{
    assert forall|name: Seq<char>, value: Seq<char>| gives(es, name, value) implies #[trigger] gives(
        es + more,
        name,
        value,
    ) by {
        lemma_contains_kept(es, more, name + "="@ + value);
    }
    if let Some(value) = v.value {
        let n = choose|n: int|
            0 <= n < es.len() && expand::value_expansion(
                value@,
                #[trigger] es.take(n),
                u64::MAX as nat,
            ) is Some && es[n] == v.name@ + "="@ + expand::value_expansion(
                value@,
                es.take(n),
                u64::MAX as nat,
            )->0;
        assert((es + more).take(n) =~= es.take(n));
        assert((es + more)[n] == es[n]);
    }
}

proof fn lemma_variable_is_set(
    before: Seq<Seq<char>>,
    pod: Pod,
    v: EnvVar,
    key_value: Option<String>,
    pod_ip: Option<Seq<char>>,
    readings: Seq<(String, i64)>,
)
    requires
        variable_entries(pod, v, key_value, pod_ip, readings, before) is Some,
    ensures
        is_set(
            before + variable_entries(pod, v, key_value, pod_ip, readings, before)->0,
            pod,
            v,
            key_value,
            pod_ip,
            readings,
        ),
        variable_entries(pod, v, key_value, pod_ip, readings, before)->0.len() <= 1,
{
    let more = variable_entries(pod, v, key_value, pod_ip, readings, before)->0;
    let es = before + more;
    if more.len() > 0 {
        assert(es[before.len() as int] == more[0]);
        assert(es.contains(more[0]));
    }
    if let Some(value) = v.value {
        let n = before.len() as int;
        assert(es.take(n) =~= before);
        assert(es[n] == more[0]);
        if !value@.contains('$') {
            assert(!Seq::<char>::empty().contains(')'));
            expand::law_values_are_expanded_from_left_to_right(
                value@,
                Seq::empty(),
                Seq::empty(),
                before,
                u64::MAX as nat,
            );
        }
    }
}

proof fn lemma_with_variables(
    pod: Pod,
    vs: Seq<EnvVar>,
    key_values: Seq<Option<String>>,
    pod_ip: Option<Seq<char>>,
    readings: Seq<(String, i64)>,
    given: Seq<Seq<char>>,
    n: nat,
)
    requires
        with_variables(pod, vs, key_values, pod_ip, readings, given, n) is Some,
    ensures
        ({
            let es = with_variables(pod, vs, key_values, pod_ip, readings, given, n)->0;
            &&& given.len() <= es.len() <= given.len() + n
            &&& es.take(given.len() as int) == given
            &&& forall|i: int|
                0 <= i < n ==> is_set(es, pod, #[trigger] vs[i], key_values[i], pod_ip, readings)
        }),
    decreases n,
{
    if n > 0 {
        let m = (n - 1) as nat;
        let before = with_variables(pod, vs, key_values, pod_ip, readings, given, m)->0;
        let more = variable_entries(
            pod,
            vs[n - 1],
            key_values[n - 1],
            pod_ip,
            readings,
            before,
        )->0;
        lemma_with_variables(pod, vs, key_values, pod_ip, readings, given, m);
        lemma_variable_is_set(before, pod, vs[n - 1], key_values[n - 1], pod_ip, readings);
        assert((before + more).take(given.len() as int) =~= given);
        assert forall|i: int| 0 <= i < n implies is_set(
            before + more,
            pod,
            #[trigger] vs[i],
            key_values[i],
            pod_ip,
            readings,
        ) by {
            if i < m {
                lemma_is_set_kept(
                    before,
                    more,
                    pod,
                    vs[i],
                    key_values[i],
                    pod_ip,
                    readings,
                );
            }
        }
    } else {
        assert(given.take(given.len() as int) =~= given);
    }
}

/// Each variable that a container asks for is in its environment, with the value that it asks
/// for; what the container is given otherwise stands before them, all of it.
pub proof fn law_a_containers_own_variables_are_set(
    host: Seq<char>,
    pod: Pod,
    c: Container,
    pod_ip: Option<Seq<char>>,
    f: EnvFacts,
    i: int,
)
    requires
        environment(host, pod, c, pod_ip, f) is Some,
        c.env is Some,
        0 <= i < c.env->0@.len(),
    ensures
        ({
            let es = environment(host, pod, c, pod_ip, f)->0;
            let given = given_entries(host, pod, c, f);
            &&& is_set(es, pod, c.env->0@[i], f.key_values@[i], pod_ip, f.readings@)
            &&& given.len() <= es.len() <= given.len() + c.env->0@.len()
            &&& es.take(given.len() as int) == given
        }),
{
    lemma_with_variables(
        pod,
        c.env->0@,
        f.key_values@,
        pod_ip,
        f.readings@,
        given_entries(host, pod, c, f),
        c.env->0@.len(),
    );
}

/// A container without variables of its own has just what it is given.
pub proof fn law_containers_without_variables_get_what_is_given(
    host: Seq<char>,
    pod: Pod,
    c: Container,
    pod_ip: Option<Seq<char>>,
    f: EnvFacts,
)
    requires
        c.env is None || c.env->0@.len() == 0,
    ensures
        environment(host, pod, c, pod_ip, f) == Some(given_entries(host, pod, c, f)),
{
}

/// A container finds the API server: its environment holds the server's address and port, 443
/// where the address is that of the service, else the port that is set, 6443 where none is.
pub proof fn law_containers_find_the_api_server(host: Seq<char>, pod: Pod, c: Container, f: EnvFacts)
    ensures
        ({
            let es = given_entries(host, pod, c, f);
            let port = if !f.host_override {
                "443"@
            } else if f.port_override is Some {
                f.port_override->0@
            } else {
                "6443"@
            };
            &&& gives(es, "KUBERNETES_SERVICE_HOST"@, host)
            &&& gives(es, "KUBERNETES_SERVICE_PORT"@, port)
            &&& gives(es, "KUBERNETES_SERVICE_PORT_HTTPS"@, port)
            &&& gives(es, "KUBERNETES_PORT"@, "tcp://"@ + host + ":"@ + port)
            &&& gives(es, "KUBERNETES_PORT_443_TCP"@, "tcp://"@ + host + ":"@ + port)
            &&& gives(es, "KUBERNETES_PORT_443_TCP_PROTO"@, "tcp"@)
            &&& gives(es, "KUBERNETES_PORT_443_TCP_PORT"@, port)
            &&& gives(es, "KUBERNETES_PORT_443_TCP_ADDR"@, host)
        }),
{
    let es = given_entries(host, pod, c, f);
    let port = api_port(f.host_override, f.port_override);
    let a = api_entries(host, port);
    assert forall|k: int| 0 <= k < a.len() implies es.contains(#[trigger] a[k]) by {
        assert(es[k] == a[k]);
    }
    assert(a[0] == "KUBERNETES_SERVICE_HOST"@ + "="@ + host);
    assert(a[1] == "KUBERNETES_SERVICE_PORT"@ + "="@ + port);
    assert(a[2] == "KUBERNETES_SERVICE_PORT_HTTPS"@ + "="@ + port);
    assert(a[3] == "KUBERNETES_PORT"@ + "="@ + ("tcp://"@ + host + ":"@ + port));
    assert(a[4] == "KUBERNETES_PORT_443_TCP"@ + "="@ + ("tcp://"@ + host + ":"@ + port));
    assert(a[5] == "KUBERNETES_PORT_443_TCP_PROTO"@ + "="@ + "tcp"@);
    assert(a[6] == "KUBERNETES_PORT_443_TCP_PORT"@ + "="@ + port);
    assert(a[7] == "KUBERNETES_PORT_443_TCP_ADDR"@ + "="@ + host);
}

/// The variables by which a container finds a port of a service.
pub open spec fn tells_port(es: Seq<Seq<char>>, s: Service, p: ServicePort) -> bool {
    let svc = env_word(s.name@);
    let ip = s.cluster_ip->0@;
    let port = number::decimal(p.port as int);
    let proto = text::lower(
        if p.protocol is Some {
            p.protocol->0@
        } else {
            "TCP"@
        },
    );
    let stem = svc + "_PORT_"@ + port + "_"@ + text::upper(proto);
    &&& gives(es, stem, proto + "://"@ + ip + ":"@ + port)
    &&& gives(es, stem + "_PROTO"@, proto)
    &&& gives(es, stem + "_PORT"@, port)
    &&& gives(es, stem + "_ADDR"@, ip)
    &&& p.name matches Some(n) ==> gives(es, svc + "_SERVICE_PORT_"@ + env_word(n@), port)
}

proof fn lemma_port_told(
    a: Seq<Seq<char>>,
    b: Seq<Seq<char>>,
    es: Seq<Seq<char>>,
    s: Service,
    p: ServicePort,
)
    requires
        a == port_entries(env_word(s.name@), s.cluster_ip->0@, p),
        b == named_port_entries(env_word(s.name@), p),
        forall|x: Seq<char>| a.contains(x) || b.contains(x) ==> #[trigger] es.contains(x),
    ensures
        tells_port(es, s, p),
{
    let svc = env_word(s.name@);
    let ip = s.cluster_ip->0@;
    let port = number::decimal(p.port as int);
    let proto = protocol_text(p);
    let stem = svc + "_PORT_"@ + port + "_"@ + text::upper(proto);
    assert(a[0] == stem + "="@ + (proto + "://"@ + ip + ":"@ + port));
    assert(a[1] == stem + "_PROTO"@ + "="@ + proto);
    assert(a[2] == stem + "_PORT"@ + "="@ + port);
    assert(a[3] == stem + "_ADDR"@ + "="@ + ip);
    assert(a.contains(a[0]) && a.contains(a[1]) && a.contains(a[2]) && a.contains(a[3]));
    if let Some(n) = p.name {
        assert(b[0] == svc + "_SERVICE_PORT_"@ + env_word(n@) + "="@ + port);
        assert(b.contains(b[0]));
    }
}

proof fn lemma_more_told(
    few: Seq<Seq<char>>,
    many: Seq<Seq<char>>,
    s: Service,
    p: ServicePort,
)
    requires
        tells_port(few, s, p),
        forall|x: Seq<char>| few.contains(x) ==> #[trigger] many.contains(x),
    ensures
        tells_port(many, s, p),
{
}

proof fn lemma_later_ports(s: Service, ps: Seq<ServicePort>)
    ensures
        forall|i: int|
            0 <= i < ps.len() ==> tells_port(
                later_port_entries(env_word(s.name@), s.cluster_ip->0@, ps),
                s,
                #[trigger] ps[i],
            ),
    decreases ps.len(),
{
    let svc = env_word(s.name@);
    let ip = s.cluster_ip->0@;
    if ps.len() > 0 {
        let short = ps.drop_last();
        let before = later_port_entries(svc, ip, short);
        let named = named_port_entries(svc, ps.last());
        let own = port_entries(svc, ip, ps.last());
        let all = later_port_entries(svc, ip, ps);
        lemma_later_ports(s, short);
        assert forall|x: Seq<char>|
            before.contains(x) || named.contains(x) || own.contains(x) implies #[trigger] all.contains(
            x,
        ) by {
            lemma_contains_kept(before, named, x);
            lemma_contains_kept(before + named, own, x);
        }
        assert forall|i: int| 0 <= i < ps.len() implies tells_port(all, s, #[trigger] ps[i]) by {
            if i < short.len() {
                assert(short[i] == ps[i]);
                lemma_more_told(before, all, s, ps[i]);
            } else {
                lemma_port_told(own, named, all, s, ps[i]);
            }
        }
    }
}

/// A service of the namespace is in a pod's environment by its address, its first port, and
/// each of its ports; one without an address, and the API server's own, is not.
pub proof fn law_services_are_in_the_environment(s: Service)
    ensures
        ({
            let es = service_entries(s);
            let svc = text::replaced(text::upper(s.name@), '-', "_"@);
            let linked = s.name@ != "kubernetes"@ && s.cluster_ip is Some && s.cluster_ip->0@
                != "None"@ && s.cluster_ip->0@.len() > 0;
            &&& !linked ==> es.len() == 0
            &&& linked ==> gives(es, svc + "_SERVICE_HOST"@, s.cluster_ip->0@)
            &&& linked && s.ports@.len() > 0 ==> {
                let p = s.ports@[0];
                let port = number::decimal(p.port as int);
                let proto = text::lower(
                    if p.protocol is Some {
                        p.protocol->0@
                    } else {
                        "TCP"@
                    },
                );
                &&& gives(es, svc + "_SERVICE_PORT"@, port)
                &&& gives(es, svc + "_PORT"@, proto + "://"@ + s.cluster_ip->0@ + ":"@ + port)
                &&& forall|i: int| 0 <= i < s.ports@.len() ==> tells_port(es, s, #[trigger] s.ports@[i])
            }
        }),
{
    let es = service_entries(s);
    if service_is_linked(s) {
        let svc = env_word(s.name@);
        let ip = s.cluster_ip->0@;
        let host = seq![entry(svc + "_SERVICE_HOST"@, ip)];
        assert(es[0] == host[0]);
        assert(es.contains(es[0]));
        if s.ports@.len() > 0 {
            let p = s.ports@[0];
            let port = number::decimal(p.port as int);
            let top = seq![
                entry(svc + "_SERVICE_PORT"@, port),
                entry(svc + "_PORT"@, protocol_text(p) + "://"@ + ip + ":"@ + port),
            ];
            let own = port_entries(svc, ip, p);
            let named = named_port_entries(svc, p);
            let later = later_port_entries(svc, ip, s.ports@.skip(1));
            assert(es == host + (top + own + named) + later);
            lemma_later_ports(s, s.ports@.skip(1));
            assert forall|x: Seq<char>|
                top.contains(x) || own.contains(x) || named.contains(x) || later.contains(
                    x,
                ) implies #[trigger] es.contains(x) by {
                lemma_contains_kept(top, own, x);
                lemma_contains_kept(top + own, named, x);
                lemma_contains_kept(host, top + own + named, x);
                lemma_contains_kept(host + (top + own + named), later, x);
            }
            assert(top.contains(top[0]) && top.contains(top[1]));
            assert forall|i: int| 0 <= i < s.ports@.len() implies tells_port(
                es,
                s,
                #[trigger] s.ports@[i],
            ) by {
                if i == 0 {
                    lemma_port_told(own, named, es, s, p);
                } else {
                    assert(s.ports@.skip(1)[i - 1] == s.ports@[i]);
                    lemma_more_told(later, es, s, s.ports@[i]);
                }
            }
        }
    }
}

proof fn lemma_service_listed(ss: Seq<Service>, i: int, x: Seq<char>)
    requires
        0 <= i < ss.len(),
        service_entries(ss[i]).contains(x),
    ensures
        all_service_entries(ss).contains(x),
    decreases ss.len(),
{
    let short = ss.drop_last();
    lemma_contains_kept(all_service_entries(short), service_entries(ss.last()), x);
    if i < ss.len() - 1 {
        assert(short[i] == ss[i]);
        lemma_service_listed(short, i, x);
    }
}

/// What a container is given holds the variables of all services of the namespace, unless its
/// pod wants none of them, and, in a pod of an indexed job, the pod's index.
pub proof fn law_containers_are_given_services_and_index(
    host: Seq<char>,
    pod: Pod,
    c: Container,
    f: EnvFacts,
    i: int,
    x: Seq<char>,
)
    ensures
        ({
            let es = given_entries(host, pod, c, f);
            let wants = !(pod.spec is Some && pod.spec->0.enable_service_links == Some(false));
            let index = api::opt_lookup(
                pod.metadata.annotations,
                "batch.kubernetes.io/job-completion-index"@,
            );
            &&& wants && f.services is Some && 0 <= i < f.services->0@.len() && service_entries(
                f.services->0@[i],
            ).contains(x) ==> es.contains(x)
            &&& !wants ==> linked_entries(pod, f).len() == 0
            &&& index matches Some(n) ==> gives(es, "JOB_COMPLETION_INDEX"@, n)
            &&& index is None ==> job_entries(pod).len() == 0
        }),
{
    let es = given_entries(host, pod, c, f);
    let a = api_entries(host, api_port(f.host_override, f.port_override));
    let b = job_entries(pod);
    let l = linked_entries(pod, f);
    let d = sources_entries(c, f.env_from@, f.env_from@.len());
    assert(es == a + b + l + d);
    if wants_service_links(pod) && f.services is Some && 0 <= i < f.services->0@.len()
        && service_entries(f.services->0@[i]).contains(x) {
        lemma_service_listed(f.services->0@, i, x);
        lemma_contains_kept(a + b, l, x);
        lemma_contains_kept(a + b + l, d, x);
    }
    if b.len() > 0 {
        let y = b[0];
        assert(b.contains(y));
        lemma_contains_kept(a, b, y);
        lemma_contains_kept(a + b, l, y);
        lemma_contains_kept(a + b + l, d, y);
    }
}

proof fn lemma_text_entries(prefix: Seq<char>, data: Seq<(String, String)>)
    ensures
        text_entries(prefix, data).len() == data.len(),
        forall|i: int|
            0 <= i < data.len() ==> text_entries(prefix, data)[i] == prefix + (
            #[trigger] data[i]).0@ + "="@ + data[i].1@,
    decreases data.len(),
{
    if data.len() > 0 {
        let short = data.drop_last();
        lemma_text_entries(prefix, short);
        assert forall|i: int| 0 <= i < data.len() implies text_entries(prefix, data)[i] == prefix + (
        #[trigger] data[i]).0@ + "="@ + data[i].1@ by {
            if i < short.len() {
                assert(short[i] == data[i]);
            }
        }
    }
}

proof fn lemma_byte_entries(prefix: Seq<char>, data: Seq<(String, Vec<u8>)>)
    ensures
        forall|i: int|
            0 <= i < data.len() && valid_utf8((#[trigger] data[i]).1@) ==> gives(
                byte_entries(prefix, data),
                prefix + data[i].0@,
                decode_utf8(data[i].1@),
            ),
    decreases data.len(),
{
    if data.len() > 0 {
        let short = data.drop_last();
        let before = byte_entries(prefix, short);
        let now = byte_entries(prefix, data);
        lemma_byte_entries(prefix, short);
        assert forall|i: int| 0 <= i < data.len() && valid_utf8((#[trigger] data[i]).1@) implies gives(
            now,
            prefix + data[i].0@,
            decode_utf8(data[i].1@),
        ) by {
            let x = prefix + data[i].0@ + "="@ + decode_utf8(data[i].1@);
            if i < short.len() {
                assert(short[i] == data[i]);
                assert(before.contains(x));
                let k = choose|k: int| 0 <= k < before.len() && before[k] == x;
                assert(now[k] == x);
            } else {
                assert(now[before.len() as int] == x);
            }
        }
    }
}

proof fn lemma_source_listed(c: Container, d: Seq<EnvFromData>, n: nat, i: int, x: Seq<char>)
    requires
        c.env_from is Some,
        0 <= i < n,
        source_entries(c.env_from->0@[i].prefix, d[i]).contains(x),
    ensures
        sources_entries(c, d, n).contains(x),
    decreases n,
{
    let m = (n - 1) as nat;
    lemma_contains_kept(
        sources_entries(c, d, m),
        source_entries(c.env_from->0@[n - 1].prefix, d[n - 1]),
        x,
    );
    if i < m {
        lemma_source_listed(c, d, m, i, x);
    }
}

/// What a container is given holds a variable for each key of each config map and secret that
/// it takes whole, named by the key behind the prefix that it asks for, with the key's text. A
/// key of a secret that is no text has none.
pub proof fn law_whole_maps_are_in_the_environment(
    host: Seq<char>,
    pod: Pod,
    c: Container,
    f: EnvFacts,
    i: int,
    k: int,
)
    requires
        facts_match(pod, c, f),
        c.env_from is Some,
        0 <= i < c.env_from->0@.len(),
    ensures
        ({
            let es = given_entries(host, pod, c, f);
            let prefix = match c.env_from->0@[i].prefix {
                Some(p) => p@,
                None => Seq::empty(),
            };
            let d = f.env_from@[i];
            &&& d.config_map is Some && 0 <= k < d.config_map->0@.len() ==> gives(
                es,
                prefix + d.config_map->0@[k].0@,
                d.config_map->0@[k].1@,
            )
            &&& d.secret is Some && 0 <= k < d.secret->0@.len() && valid_utf8(d.secret->0@[k].1@)
                ==> gives(es, prefix + d.secret->0@[k].0@, decode_utf8(d.secret->0@[k].1@))
        }),
{
    let es = given_entries(host, pod, c, f);
    let prefix = downward::text_or(c.env_from->0@[i].prefix, Seq::empty());
    let d = f.env_from@[i];
    let n = f.env_from@.len();
    let before = api_entries(host, api_port(f.host_override, f.port_override)) + job_entries(pod)
        + linked_entries(pod, f);
    let own = source_entries(c.env_from->0@[i].prefix, d);
    let texts = match d.config_map {
        Some(m) => text_entries(prefix, m@),
        None => Seq::empty(),
    };
    let bytes = match d.secret {
        Some(m) => byte_entries(prefix, m@),
        None => Seq::empty(),
    };
    assert(own == texts + bytes);
    if let Some(m) = d.config_map {
        if 0 <= k < m@.len() {
            lemma_text_entries(prefix, m@);
            let x = prefix + m@[k].0@ + "="@ + m@[k].1@;
            assert(texts[k] == x);
            assert(texts.contains(x));
            lemma_contains_kept(texts, bytes, x);
            lemma_source_listed(c, f.env_from@, n, i, x);
            lemma_contains_kept(before, sources_entries(c, f.env_from@, n), x);
        }
    }
    if let Some(m) = d.secret {
        if 0 <= k < m@.len() && valid_utf8(m@[k].1@) {
            lemma_byte_entries(prefix, m@);
            let x = prefix + m@[k].0@ + "="@ + decode_utf8(m@[k].1@);
            assert(gives(bytes, prefix + m@[k].0@, decode_utf8(m@[k].1@)));
            lemma_contains_kept(texts, bytes, x);
            lemma_source_listed(c, f.env_from@, n, i, x);
            lemma_contains_kept(before, sources_entries(c, f.env_from@, n), x);
        }
    }
}

/// A variable that stands for nothing, or for a key that was not found, is left out rather
/// than set to nothing.
pub proof fn law_what_is_not_found_is_left_out(
    pod: Pod,
    v: EnvVar,
    key_value: Option<String>,
    pod_ip: Option<Seq<char>>,
    readings: Seq<(String, i64)>,
    before: Seq<Seq<char>>,
)
    requires
        v.value is None,
    ensures
        ({
            let r = variable_entries(pod, v, key_value, pod_ip, readings, before);
            &&& r is Some
            &&& v.value_from is None ==> r->0.len() == 0
            &&& v.value_from matches Some(from) ==> {
                let keyed = from.config_map_key_ref is Some || from.secret_key_ref is Some;
                &&& keyed && key_value is None ==> r->0.len() == 0
                &&& !keyed && from.field_ref is Some && downward::field_value(
                    pod,
                    from.field_ref->0.field_path@,
                ) is Err ==> r->0.len() == 0
                &&& !keyed && from.field_ref is None && from.resource_field_ref is Some
                    && downward::resource_value(pod, from.resource_field_ref->0, readings) is Err
                    ==> r->0.len() == 0
            }
        }),
{
}

/// The environment of a container whose values refer to no variables can always be told.
pub proof fn law_environments_without_references_can_be_told(
    host: Seq<char>,
    pod: Pod,
    c: Container,
    pod_ip: Option<Seq<char>>,
    f: EnvFacts,
)
    requires
        c.env matches Some(vs) ==> forall|i: int|
            0 <= i < vs@.len() ==> ((#[trigger] vs@[i]).value is Some
                ==> !vs@[i].value->0@.contains('$')),
    ensures
        environment(host, pod, c, pod_ip, f) is Some,
{
    if let Some(vs) = c.env {
        lemma_told_up_to(
            pod,
            vs@,
            f.key_values@,
            pod_ip,
            f.readings@,
            given_entries(host, pod, c, f),
            vs@.len(),
        );
    }
}

proof fn lemma_told_up_to(
    pod: Pod,
    vs: Seq<EnvVar>,
    key_values: Seq<Option<String>>,
    pod_ip: Option<Seq<char>>,
    readings: Seq<(String, i64)>,
    given: Seq<Seq<char>>,
    n: nat,
)
    requires
        n <= vs.len(),
        forall|i: int|
            0 <= i < vs.len() ==> ((#[trigger] vs[i]).value is Some ==> !vs[i].value->0@.contains(
                '$',
            )),
    ensures
        with_variables(pod, vs, key_values, pod_ip, readings, given, n) is Some,
    decreases n,
{
    if n > 0 {
        lemma_told_up_to(pod, vs, key_values, pod_ip, readings, given, (n - 1) as nat);
        let before = with_variables(
            pod,
            vs,
            key_values,
            pod_ip,
            readings,
            given,
            (n - 1) as nat,
        )->0;
        let v = vs[n - 1];
        if v.value is Some {
            expand::law_values_are_expanded_from_left_to_right(
                v.value->0@,
                Seq::empty(),
                Seq::empty(),
                before,
                u64::MAX as nat,
            );
        }
    }
}

} // verus!
