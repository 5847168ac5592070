//! Probes: what is asked of a container, and what the answers decide.

use crate::api;
use crate::api::{Container, HTTPGetAction, HTTPHeader, IntOrString, Pod, Probe, Timestamp};
use crate::daemon::NetworkSettings;
use crate::downward;
use crate::mounts;
use crate::names;
use crate::number;
use crate::ports;
use crate::runtime::ContainerRuntime;
use crate::sandbox;
use crate::text;
use crate::time;
use vstd::prelude::*;
use vstd::string::*;
use vstd::utf8::*;

verus! {

/// Consecutive outcomes of one probe.
#[derive(Clone, Copy, Debug, PartialEq, Eq, Structural)]
pub struct ProbeState {
    pub consecutive_failures: i32,
    pub consecutive_successes: i32,
}

impl Default for ProbeState {
    fn default() -> (r: ProbeState)
        ensures
            r == fresh(),
    {
        ProbeState { consecutive_failures: 0, consecutive_successes: 0 }
    }
}

/// The state of a probe that has had no outcome.
pub open spec fn fresh() -> ProbeState {
    ProbeState { consecutive_failures: 0, consecutive_successes: 0 }
}

impl ProbeState {
    /// The state after one more outcome.
    pub open spec fn after(self, success: bool) -> ProbeState {
        if success {
            ProbeState {
                consecutive_failures: 0,
                consecutive_successes: (self.consecutive_successes + 1) as i32,
            }
        } else {
            ProbeState {
                consecutive_failures: (self.consecutive_failures + 1) as i32,
                consecutive_successes: 0,
            }
        }
    }

    /// Neither counter is at its end.
    pub open spec fn has_room(self) -> bool {
        self.consecutive_failures < i32::MAX && self.consecutive_successes < i32::MAX
    }

    /// Counts one more outcome.
    pub fn record(&mut self, success: bool)
        requires
            old(self).has_room(),
        ensures
            *final(self) == old(self).after(success),
    {
        if success {
            self.consecutive_successes = self.consecutive_successes + 1;
            self.consecutive_failures = 0;
        } else {
            self.consecutive_failures = self.consecutive_failures + 1;
            self.consecutive_successes = 0;
        }
    }
}

/// The states by the texts of their keys.
pub open spec fn states_view(v: Seq<(String, ProbeState)>) -> Seq<(Seq<char>, ProbeState)> {
    v.map_values(|p: (String, ProbeState)| (p.0@, p.1))
}

/// The state of a key, a fresh one where there is none.
pub open spec fn state_of(s: Seq<(Seq<char>, ProbeState)>, key: Seq<char>) -> ProbeState
    decreases s.len(),
{
    if s.len() == 0 {
        fresh()
    } else if s[0].0 == key {
        s[0].1
    } else {
        state_of(s.drop_first(), key)
    }
}

/// The states after one more outcome of the probe with the key.
pub open spec fn ticked(s: Seq<(Seq<char>, ProbeState)>, key: Seq<char>, success: bool) -> Seq<
    (Seq<char>, ProbeState),
> {
    ports::put(s, key, state_of(s, key).after(success))
}

/// A threshold, or its default.
pub open spec fn threshold_or(t: Option<i32>, default: i32) -> i32 {
    match t {
        Some(n) => n,
        None => default,
    }
}

/// The number behind an option, or its default.
fn int_or(t: Option<i32>, default: i32) -> (r: i32)
    ensures
        r == threshold_or(t, default),
{
    match t {
        Some(n) => n,
        None => default,
    }
}

/// All but the probes' counters is the same.
pub open spec fn same_settings(a: ContainerRuntime, b: ContainerRuntime) -> bool {
    &&& a.volumes_base_path == b.volumes_base_path
    &&& a.cluster_dns == b.cluster_dns
    &&& a.cluster_domain == b.cluster_domain
    &&& a.network == b.network
    &&& a.use_cni == b.use_cni
    &&& a.supports_uts_container_mode == b.supports_uts_container_mode
    &&& a.kubernetes_service_host == b.kubernetes_service_host
    &&& a.image_cache == b.image_cache
}

/// Sets the state of a key: in its place, or at the end.
fn put_state(v: &mut Vec<(String, ProbeState)>, key: &str, st: ProbeState)
    ensures
        states_view(final(v)@) == ports::put(states_view(old(v)@), key@, st),
{
    let ghost s = states_view(v@);
    let n: usize = v.len();
    let mut i: usize = 0;
    assert(s.skip(0) == s);
    assert(s.take(0) + ports::put(s, key@, st) =~= ports::put(s, key@, st));
    while i < n
        invariant
            i <= n,
            n == v@.len(),
            v@ == old(v)@,
            s == states_view(v@),
            ports::put(s, key@, st) == s.take(i as int) + ports::put(s.skip(i as int), key@, st),
        decreases n - i,
    {
        let ghost t = s.skip(i as int);
        assert(t[0] == (v@[i as int].0@, v@[i as int].1));
        assert(t.drop_first() == s.skip(i + 1));
        if text::same(v[i].0.as_str(), key) {
            v.set(i, (String::from_str(key), st));
            assert(states_view(v@) =~= s.take(i as int) + (seq![(key@, st)] + t.drop_first()));
            return;
        }
        assert(s.take(i as int) + (seq![t[0]] + ports::put(t.drop_first(), key@, st)) =~= s.take(
            i + 1,
        ) + ports::put(s.skip(i + 1), key@, st));
        i += 1;
    }
    assert(s.skip(n as int) =~= Seq::<(Seq<char>, ProbeState)>::empty());
    assert(s.take(n as int) == s);
    v.push((String::from_str(key), st));
    assert(states_view(v@) =~= s + seq![(key@, st)]);
}

/// The state of a key, a fresh one where there is none.
fn get_state(v: &Vec<(String, ProbeState)>, key: &str) -> (r: ProbeState)
    ensures
        r == state_of(states_view(v@), key@),
{
    let ghost s = states_view(v@);
    let mut i: usize = 0;
    assert(s.skip(0) == s);
    while i < v.len()
        invariant
            i <= v@.len(),
            s == states_view(v@),
            state_of(s, key@) == state_of(s.skip(i as int), key@),
        decreases v@.len() - i,
    {
        assert(s.skip(i as int).drop_first() == s.skip(i as int + 1));
        assert(s.skip(i as int)[0] == (v@[i as int].0@, v@[i as int].1));
        if text::same(v[i].0.as_str(), key) {
            return v[i].1;
        }
        i += 1;
    }
    ProbeState { consecutive_failures: 0, consecutive_successes: 0 }
}

/// The pairs whose key does not begin with `prefix`.
pub open spec fn without_prefix(s: Seq<(Seq<char>, ProbeState)>, prefix: Seq<char>) -> Seq<
    (Seq<char>, ProbeState),
>
    decreases s.len(),
{
    if s.len() == 0 {
        Seq::empty()
    } else {
        let rest = without_prefix(s.drop_last(), prefix);
        if text::begins(s.last().0, prefix) {
            rest
        } else {
            rest.push(s.last())
        }
    }
}

/// Clearing a pod's counters removes all that are its own and none that are not.
pub proof fn law_clearing_removes_exactly_the_pods_counters(
    s: Seq<(Seq<char>, ProbeState)>,
    prefix: Seq<char>,
    p: (Seq<char>, ProbeState),
)
    ensures
        without_prefix(s, prefix).contains(p) <==> s.contains(p) && !text::begins(p.0, prefix),
    decreases s.len(),
{
    if s.len() > 0 {
        let front = s.drop_last();
        law_clearing_removes_exactly_the_pods_counters(front, prefix, p);
        let r = without_prefix(s, prefix);
        let f = without_prefix(front, prefix);
        if s.contains(p) {
            let i = choose|i: int| 0 <= i < s.len() && s[i] == p;
            if i < front.len() {
                assert(front[i] == p);
            }
        }
        if front.contains(p) {
            let i = choose|i: int| 0 <= i < front.len() && front[i] == p;
            assert(s[i] == p);
        }
        assert(s[s.len() - 1] == s.last());
        if !text::begins(s.last().0, prefix) {
            assert(r == f.push(s.last()));
            assert(r[f.len() as int] == s.last());
            if f.contains(p) {
                let i = choose|i: int| 0 <= i < f.len() && f[i] == p;
                assert(r[i] == p);
            }
            if r.contains(p) {
                let i = choose|i: int| 0 <= i < r.len() && r[i] == p;
                if i < f.len() {
                    assert(f[i] == p);
                }
            }
        }
    }
}

/// What follows from one outcome of a liveness probe: the new counters, and whether the
/// container is restarted. After that it begins afresh.
pub open spec fn liveness_step(st: ProbeState, healthy: bool, failure_threshold: i32) -> (
    ProbeState,
    bool,
) {
    let next = st.after(healthy);
    if !healthy && next.consecutive_failures >= failure_threshold {
        (fresh(), true)
    } else {
        (next, false)
    }
}

/// The counters after `n` failures in a row, and whether any of them led to a restart.
pub open spec fn after_failures(st: ProbeState, failure_threshold: i32, n: nat) -> (
    ProbeState,
    bool,
)
    decreases n,
{
    if n == 0 {
        (st, false)
    } else {
        let (before, restarted) = after_failures(st, failure_threshold, (n - 1) as nat);
        let (next, now) = liveness_step(before, false, failure_threshold);
        (next, restarted || now)
    }
}

/// A container is restarted when its liveness probe has failed as often in a row as the
/// threshold says, and not before.
pub proof fn law_restart_only_at_the_threshold(
    st: ProbeState,
    failure_threshold: i32,
    n: nat,
)
    requires
        failure_threshold >= 1,
        st.consecutive_failures == 0,
        n < failure_threshold,
    ensures
        !after_failures(st, failure_threshold, n).1,
        n > 0 ==> after_failures(st, failure_threshold, n).0 == (ProbeState {
            consecutive_failures: n as i32,
            consecutive_successes: 0,
        }),
        n + 1 == failure_threshold ==> after_failures(st, failure_threshold, n + 1).1,
        n + 1 == failure_threshold ==> after_failures(st, failure_threshold, n + 1).0 == fresh(),
    decreases n,
{
    if n > 0 {
        law_restart_only_at_the_threshold(st, failure_threshold, (n - 1) as nat);
    }
    reveal_with_fuel(after_failures, 2);
}

/// A success in between sets the count of failures back.
pub proof fn law_a_success_forgives_failures(st: ProbeState, failure_threshold: i32)
    ensures
        liveness_step(st, true, failure_threshold).0.consecutive_failures == 0,
        !liveness_step(st, true, failure_threshold).1,
{
}

/// A probe's explicit host, one that is empty counting as none.
pub fn effective_probe_host(host: &Option<String>) -> (r: Option<&str>)
    ensures
        mounts::opt_str(r) == mounts::nonempty(*host),
{
    match host {
        Some(h) => {
            if h.as_str().is_empty() {
                assert(h@.len() == 0);
                None
            } else {
                Some(h.as_str())
            }
        },
        None => None,
    }
}

/// The number of the first port with the name.
pub open spec fn port_named(ps: Seq<api::ContainerPort>, name: Seq<char>) -> Option<u16>
    decreases ps.len(),
{
    if ps.len() == 0 {
        None
    } else if text::opt_text(ps[0].name) == Some(name) {
        Some(ps[0].container_port)
    } else {
        port_named(ps.drop_first(), name)
    }
}

/// The number of a port, which is given as such or by the name of one of the
/// container's ports.
pub open spec fn port_number(port: IntOrString, c: Container) -> Option<u16> {
    match port {
        IntOrString::Int(n) => if 1 <= n <= 65535 {
            Some(n as u16)
        } else {
            None
        },
        IntOrString::Str(s) => match c.ports {
            Some(ps) => port_named(ps@, s@),
            None => None,
        },
    }
}

/// The number of a port of a container.
pub fn resolve_probe_port(port: &IntOrString, container: &Container) -> (r: Option<u16>)
    ensures
        r == port_number(*port, *container),
{
    match port {
        IntOrString::Int(n) => {
            if 1 <= *n && *n <= 65535 {
                Some(*n as u16)
            } else {
                None
            }
        },
        IntOrString::Str(s) => {
            if let Some(ps) = &container.ports {
                let mut i: usize = 0;
                assert(ps@.skip(0) == ps@);
                while i < ps.len()
                    invariant
                        i <= ps@.len(),
                        container.ports == Some(*ps),
                        *port == IntOrString::Str(*s),
                        port_named(ps@, s@) == port_named(ps@.skip(i as int), s@),
                    decreases ps@.len() - i,
                {
                    assert(ps@.skip(i as int).drop_first() == ps@.skip(i as int + 1));
                    assert(ps@.skip(i as int)[0] == ps@[i as int]);
                    if let Some(n) = &ps[i].name {
                        if text::same(n.as_str(), s.as_str()) {
                            return Some(ps[i].container_port);
                        }
                    }
                    i += 1;
                }
                None
            } else {
                None
            }
        },
    }
}

/// A port in words.
pub open spec fn port_text(port: IntOrString) -> Seq<char> {
    match port {
        IntOrString::Int(n) => number::decimal(n as int),
        IntOrString::Str(s) => s@,
    }
}

/// A port in words.
pub fn show_port(port: &IntOrString) -> (r: String)
    ensures
        r@ == port_text(*port),
{
    match port {
        IntOrString::Int(n) => number::show_i64(*n as i64),
        IntOrString::Str(s) => s.clone(),
    }
}

/// The address of a request: the scheme in lower case, `HTTP` where none is given.
pub open spec fn url_text(g: HTTPGetAction, ip: Seq<char>, port: u16) -> Seq<char> {
    text::lower(downward::text_or(g.scheme, "HTTP"@)) + "://"@ + ip + ":"@ + number::decimal(
        port as int,
    ) + downward::text_or(g.path, "/"@)
}

/// The address of a request.
pub fn request_url(g: &HTTPGetAction, ip: &str, port: u16) -> (r: String)
    ensures
        r@ == url_text(*g, ip@, port),
{
    let scheme = downward::str_or(&g.scheme, "HTTP").to_lowercase();
    let n = number::show_u64(port as u64);
    let head = text::cat5(scheme.as_str(), "://", ip, ":", n.as_str());
    let r = text::cat2(head.as_str(), downward::str_or(&g.path, "/"));
    r
}

/// A byte that a header's name may hold.
pub open spec fn is_name_byte(b: u8) -> bool {
    ||| 48 <= b <= 57
    ||| 65 <= b <= 90
    ||| 94 <= b <= 122
    ||| b == 33 || 35 <= b <= 39 || b == 42 || b == 43 || b == 45 || b == 46
    ||| b == 124 || b == 126
}

/// The bytes are a header's name.
pub open spec fn is_header_name(b: Seq<u8>) -> bool {
    &&& 1 <= b.len() <= 65535
    &&& forall|i: int| 0 <= i < b.len() ==> is_name_byte(#[trigger] b[i])
}

/// The bytes are a header's value: a tab, or anything from the space on but DEL.
pub open spec fn is_header_value(b: Seq<u8>) -> bool {
    forall|i: int| 0 <= i < b.len() ==> (#[trigger] b[i] == 9 || (b[i] >= 32 && b[i] != 127))
}

/// Whether a text is a header's name: `http::header::HeaderName::from_bytes` accepts one to
/// 65535 letters, digits and ``!#$%&'*+-.^_`|~``.
#[verifier::external_body]
fn header_name_parses(name: &str) -> (r: bool)
    ensures
        r == is_header_name(encode_utf8(name@)),
{
    http::header::HeaderName::from_bytes(name.as_bytes()).is_ok()
}

/// Whether a text is a header's value: `http::header::HeaderValue::from_str` accepts bytes
/// from 32 on but 127, and tabs.
#[verifier::external_body]
fn header_value_parses(value: &str) -> (r: bool)
    ensures
        r == is_header_value(encode_utf8(value@)),
{
    http::header::HeaderValue::from_str(value).is_ok()
}

/// Those of the headers that can be sent.
pub open spec fn valid_headers(hs: Seq<HTTPHeader>) -> Seq<(Seq<char>, Seq<char>)>
    decreases hs.len(),
{
    if hs.len() == 0 {
        Seq::empty()
    } else {
        let rest = valid_headers(hs.drop_last());
        let h = hs.last();
        if is_header_name(encode_utf8(h.name@)) && is_header_value(encode_utf8(h.value@)) {
            rest.push((h.name@, h.value@))
        } else {
            rest
        }
    }
}

/// A request to send.
#[derive(Clone, Debug)]
pub struct HttpRequest {
    pub url: String,
    pub headers: Vec<(String, String)>,
}

/// The headers that a probe sends.
fn sendable_headers(hs: &Vec<HTTPHeader>) -> (r: Vec<(String, String)>)
    ensures
        api::pair_texts(r@) == valid_headers(hs@),
{
    let mut r: Vec<(String, String)> = Vec::new();
    let mut i: usize = 0;
    assert(hs@.take(0) == Seq::<HTTPHeader>::empty());
    assert(api::pair_texts(r@) =~= Seq::<(Seq<char>, Seq<char>)>::empty());
    while i < hs.len()
        invariant
            i <= hs@.len(),
            api::pair_texts(r@) == valid_headers(hs@.take(i as int)),
        decreases hs@.len() - i,
    {
        assert(hs@.take(i as int + 1).drop_last() == hs@.take(i as int));
        assert(hs@.take(i as int + 1).last() == hs@[i as int]);
        if header_name_parses(hs[i].name.as_str()) && header_value_parses(hs[i].value.as_str()) {
            let ghost before = api::pair_texts(r@);
            r.push((hs[i].name.clone(), hs[i].value.clone()));
            assert(api::pair_texts(r@) =~= before.push((hs@[i as int].name@, hs@[i as int].value@)));
        }
        i += 1;
    }
    assert(hs@.take(hs@.len() as int) == hs@);
    r
}

/// The request of an HTTP probe; none where its port has no number.
pub open spec fn http_request(
    g: HTTPGetAction,
    c: Container,
    ip: Seq<char>,
) -> Option<(Seq<char>, Seq<(Seq<char>, Seq<char>)>)> {
    match port_number(g.port, c) {
        Some(p) => Some(
            (
                url_text(g, ip, p),
                match g.http_headers {
                    Some(hs) => valid_headers(hs@),
                    None => Seq::empty(),
                },
            ),
        ),
        None => None,
    }
}

/// Whether an HTTP probe succeeds that is answered with the status.
pub fn http_status_ok(code: u16) -> (r: bool)
    ensures
        r == (200 <= code < 400),
{
    200 <= code && code < 400
}

/// Whether a health service says that it serves.
pub fn grpc_serving(status: i32) -> (r: bool)
    ensures
        r == (status == 1),
{
    status == 1
}

/// A number in groups of seven bits, the lowest first; every byte but the last says that
/// another follows.
pub open spec fn varint(n: nat) -> Seq<u8>
    decreases n,
{
    if n < 128 {
        seq![n as u8]
    } else {
        seq![(n % 128 + 128) as u8] + varint(n / 128)
    }
}

/// The number that groups of seven bits write.
pub open spec fn varint_value(s: Seq<u8>) -> nat
    decreases s.len(),
{
    if s.len() == 0 {
        0
    } else {
        (s[0] % 128) as nat + 128 * varint_value(s.drop_first())
    }
}

/// A number is read back from its groups, of which the last alone says that none follows.
pub proof fn law_varints_read_back(n: nat)
    ensures
        varint(n).len() > 0,
        varint_value(varint(n)) == n,
        varint(n).last() < 128,
        forall|i: int| 0 <= i < varint(n).len() - 1 ==> (#[trigger] varint(n)[i]) >= 128,
    decreases n,
{
    let v = varint(n);
    if n < 128 {
        assert(v.drop_first() == Seq::<u8>::empty());
        assert(varint_value(v.drop_first()) == 0);
    } else {
        law_varints_read_back(n / 128);
        let rest = varint(n / 128);
        assert(v.drop_first() == rest);
        assert(v.last() == rest.last());
        assert forall|i: int| 0 <= i < v.len() - 1 implies (#[trigger] v[i]) >= 128 by {
            if i > 0 {
                assert(v[i] == rest[i - 1]);
            }
        }
    }
}

/// The message that asks for a service's health: its name as the first field, behind the
/// name's length, nothing where it has none.
pub open spec fn health_request(service: Seq<char>) -> Seq<u8> {
    let b = encode_utf8(service);
    if service.len() == 0 {
        Seq::empty()
    } else {
        seq![0x0au8] + varint(b.len()) + b
    }
}

/// Adds a number in groups of seven bits.
fn push_varint(out: &mut Vec<u8>, n: usize)
    ensures
        final(out)@ == old(out)@ + varint(n as nat),
{
    let ghost start = out@;
    let mut left: usize = n;
    assert(start + varint(n as nat) == out@ + varint(left as nat));
    while left >= 128
        invariant
            start + varint(n as nat) == out@ + varint(left as nat),
        decreases left,
    {
        let ghost before = out@;
        out.push((left % 128 + 128) as u8);
        assert(before + varint(left as nat) =~= out@ + varint((left / 128) as nat));
        left = left / 128;
    }
    let ghost before = out@;
    out.push(left as u8);
    assert(before + varint(left as nat) =~= out@);
}

/// The message that asks for a service's health.
pub fn grpc_request(service: &Option<String>) -> (r: Vec<u8>)
    ensures
        r@ == health_request(downward::text_or(*service, ""@)),
{
    let name = downward::str_or(service, "");
    let mut out: Vec<u8> = Vec::new();
    if !name.is_empty() {
        let b = name.as_bytes_vec();
        let len: usize = b.len();
        out.push(0x0a);
        push_varint(&mut out, len);
        let ghost head = out@;
        let mut i: usize = 0;
        while i < b.len()
            invariant
                i <= b@.len(),
                out@ == head + b@.take(i as int),
            decreases b@.len() - i,
        {
            assert(b@.take(i as int + 1) == b@.take(i as int).push(b@[i as int]));
            out.push(b[i]);
            assert(out@ =~= head + b@.take(i as int + 1));
            i += 1;
        }
        assert(b@.take(b@.len() as int) == b@);
        assert(out@ =~= health_request(name@));
    } else {
        assert(name@.len() == 0);
    }
    out
}

/// What a probe asks for.
#[derive(Clone, Copy, Debug, PartialEq, Eq, Structural)]
pub enum ProbeKind {
    Http,
    Tcp,
    Exec,
    Grpc,
    /// Nothing: it always succeeds.
    Nothing,
}

/// What a probe asks for, by the first of its actions.
pub open spec fn kind_of(p: Probe) -> ProbeKind {
    if p.http_get is Some {
        ProbeKind::Http
    } else if p.tcp_socket is Some {
        ProbeKind::Tcp
    } else if p.exec_action is Some {
        ProbeKind::Exec
    } else if p.grpc is Some {
        ProbeKind::Grpc
    } else {
        ProbeKind::Nothing
    }
}

/// How many seconds a probe waits: one where it sets none, or less than that.
pub open spec fn timeout_of(p: Probe) -> u64 {
    match p.timeout_seconds {
        Some(t) if t >= 1 => t as u64,
        _ => 1,
    }
}

/// What a probe asks for, and how many seconds it waits for an answer.
pub fn check_probe(probe: &Probe) -> (r: (ProbeKind, u64))
    ensures
        r.0 == kind_of(*probe),
        r.1 == timeout_of(*probe),
{
    let seconds: u64 = match probe.timeout_seconds {
        Some(t) => {
            if t >= 1 {
                t as u64
            } else {
                1
            }
        },
        None => 1,
    };
    let kind = if probe.http_get.is_some() {
        ProbeKind::Http
    } else if probe.tcp_socket.is_some() {
        ProbeKind::Tcp
    } else if probe.exec_action.is_some() {
        ProbeKind::Exec
    } else if probe.grpc.is_some() {
        ProbeKind::Grpc
    } else {
        ProbeKind::Nothing
    };
    (kind, seconds)
}

/// The first address of the networks that is assigned.
pub open spec fn any_address(nets: Seq<(String, Option<String>)>) -> Option<Seq<char>>
    decreases nets.len(),
{
    if nets.len() == 0 {
        None
    } else {
        match nets[0].1 {
            Some(a) if sandbox::is_assigned(a@) => Some(a@),
            _ => any_address(nets.drop_first()),
        }
    }
}

/// The best address of a container: in the network of that name, in any other, of its
/// own; this host's where it has none.
pub open spec fn best_address(n: Option<NetworkSettings>, network: Seq<char>) -> Seq<char> {
    match n {
        None => "127.0.0.1"@,
        Some(s) => {
            let own = match s.networks {
                Some(nets) => match sandbox::address_in(nets@, network) {
                    Some(a) if sandbox::is_assigned(a) => Some(a),
                    _ => any_address(nets@),
                },
                None => None,
            };
            match own {
                Some(a) => a,
                None => match s.ip_address {
                    Some(a) if sandbox::is_assigned(a@) => a@,
                    _ => "127.0.0.1"@,
                },
            }
        },
    }
}

/// A container's network, as far as its address depends on it.
#[derive(Clone, Debug, Default)]
pub struct InspectedNetwork {
    pub network_mode: Option<String>,
    pub settings: Option<NetworkSettings>,
}

/// The container whose network a container uses.
pub open spec fn network_holder(mode: Option<String>) -> Option<Seq<char>> {
    match mode {
        Some(m) if text::begins(m@, "container:"@) => Some(
            text::trimmed_start_all(m@, "container:"@),
        ),
        _ => None,
    }
}

/// The address of a container: that of the container whose network it uses, where that
/// one has any, or else its own.
pub open spec fn effective_address(
    c: Option<InspectedNetwork>,
    holder: Option<Option<NetworkSettings>>,
    network: Seq<char>,
) -> Seq<char> {
    match c {
        None => "127.0.0.1"@,
        Some(i) => if network_holder(i.network_mode) is Some && holder is Some && best_address(
            holder->0,
            network,
        ) != "127.0.0.1"@ {
            best_address(holder->0, network)
        } else {
            best_address(i.settings, network)
        },
    }
}

/// The container whose network a container uses, where it uses another's.
pub fn holder_of(mode: &Option<String>) -> (r: Option<String>)
    ensures
        text::opt_text(r) == network_holder(*mode),
{
    match mode {
        Some(m) => {
            if text::starts_with(m.as_str(), "container:") {
                proof {
                    reveal_strlit("container:");
                }
                Some(String::from_str(text::trim_start_str(m.as_str(), "container:")))
            } else {
                None
            }
        },
        None => None,
    }
}

/// What is asked next while a pod's containers are checked for being alive.
#[derive(Clone, Copy, Debug, PartialEq, Eq, Structural)]
pub enum LivenessAsk {
    /// The startup probe of the container at the position.
    Startup(usize),
    /// When the container at the position started.
    StartTime(usize),
    /// The liveness probe of the container at the position.
    Liveness(usize),
    /// Nothing any more: whether a container has to be restarted.
    Done(bool),
}

/// The answer to what was asked.
#[derive(Clone, Copy, Debug, PartialEq, Eq, Structural)]
pub enum LivenessAnswer {
    /// A probe succeeded, or did not.
    Probed(bool),
    /// When the container started, where that is known, and what time it is.
    Started { at: Option<Timestamp>, now: Timestamp },
}

/// What is asked about a container once its startup probe is no hindrance.
pub open spec fn ask_liveness(cs: Seq<Container>, i: nat) -> Option<LivenessAsk> {
    match cs[i as int].liveness_probe {
        None => None,
        Some(p) => if threshold_or(p.initial_delay_seconds, 0) > 0 {
            Some(LivenessAsk::StartTime(i as usize))
        } else {
            Some(LivenessAsk::Liveness(i as usize))
        },
    }
}

/// What is asked about the containers from position `i` on.
pub open spec fn ask_from(cs: Seq<Container>, i: nat) -> LivenessAsk
    decreases cs.len() - i,
{
    if i >= cs.len() {
        LivenessAsk::Done(false)
    } else if cs[i as int].startup_probe is Some {
        LivenessAsk::Startup(i as usize)
    } else {
        match ask_liveness(cs, i) {
            Some(a) => a,
            None => ask_from(cs, i + 1),
        }
    }
}

/// What is asked after the startup probe of the container at `i`.
pub open spec fn ask_after_startup(cs: Seq<Container>, i: nat, passed: bool) -> LivenessAsk {
    if passed {
        match ask_liveness(cs, i) {
            Some(a) => a,
            None => ask_from(cs, i + 1),
        }
    } else {
        ask_from(cs, i + 1)
    }
}

/// A container that started at a known time is still within its initial delay.
pub open spec fn within_delay(delay: i32, at: Option<Timestamp>, now: Timestamp) -> bool {
    at matches Some(t) && time::seconds_between(now, t) < delay
}

/// A probe succeeded, and has done so as often in a row as its threshold says.
pub open spec fn has_passed(p: Probe, st: ProbeState, success: bool) -> bool {
    success && st.consecutive_successes >= threshold_or(p.success_threshold, 1)
}

/// The key of a container's probe.
pub open spec fn key_of(pod: Seq<char>, c: Container, probe: Seq<char>) -> Seq<char> {
    names::probe_key_text(pod, c.name@, probe)
}

/// How many questions may still follow about the liveness of containers.
pub open spec fn liveness_left(cs: Seq<Container>, ask: LivenessAsk) -> int {
    match ask {
        LivenessAsk::Startup(i) => 3 * (cs.len() - i) + 3,
        LivenessAsk::StartTime(i) => 3 * (cs.len() - i) + 2,
        LivenessAsk::Liveness(i) => 3 * (cs.len() - i) + 1,
        LivenessAsk::Done(_) => 0,
    }
}

proof fn lemma_ask_from_is_later(cs: Seq<Container>, i: nat)
    requires
        i <= cs.len() <= usize::MAX,
    ensures
        0 <= liveness_left(cs, ask_from(cs, i)) <= 3 * (cs.len() - i) + 3,
        ask_from(cs, i) is Done || liveness_left(cs, ask_from(cs, i)) > 0,
    decreases cs.len() - i,
{
    if i < cs.len() {
        lemma_ask_from_is_later(cs, i + 1);
    }
}

/// The answer fits what was asked, there is such a container, and the counter that it is
/// counted in is not at its end.
pub open spec fn answer_fits(
    states: Seq<(Seq<char>, ProbeState)>,
    pod: Seq<char>,
    cs: Seq<Container>,
    ask: LivenessAsk,
    answer: LivenessAnswer,
) -> bool {
    match ask {
        LivenessAsk::Startup(i) => {
            &&& answer is Probed
            &&& i < cs.len()
            &&& cs[i as int].startup_probe is Some
            &&& state_of(states, key_of(pod, cs[i as int], "startup"@)).has_room()
        },
        LivenessAsk::StartTime(i) => {
            &&& answer is Started
            &&& i < cs.len()
            &&& cs[i as int].liveness_probe is Some
        },
        LivenessAsk::Liveness(i) => {
            &&& answer is Probed
            &&& i < cs.len()
            &&& cs[i as int].liveness_probe is Some
            &&& state_of(states, key_of(pod, cs[i as int], "liveness"@)).has_room()
        },
        LivenessAsk::Done(_) => true,
    }
}

/// What is asked next, and the counters by then.
pub open spec fn liveness_next(
    states: Seq<(Seq<char>, ProbeState)>,
    pod: Seq<char>,
    cs: Seq<Container>,
    ask: LivenessAsk,
    answer: LivenessAnswer,
) -> (LivenessAsk, Seq<(Seq<char>, ProbeState)>) {
    match ask {
        LivenessAsk::Startup(i) => {
            let c = cs[i as int];
            let success = answer->Probed_0;
            let key = key_of(pod, c, "startup"@);
            let st = state_of(states, key).after(success);
            (
                ask_after_startup(cs, i as nat, has_passed(c.startup_probe->0, st, success)),
                ticked(states, key, success),
            )
        },
        LivenessAsk::StartTime(i) => {
            let delay = threshold_or(cs[i as int].liveness_probe->0.initial_delay_seconds, 0);
            (
                if within_delay(delay, answer->Started_at, answer->Started_now) {
                    ask_from(cs, (i + 1) as nat)
                } else {
                    LivenessAsk::Liveness(i)
                },
                states,
            )
        },
        LivenessAsk::Liveness(i) => {
            let c = cs[i as int];
            let healthy = answer->Probed_0;
            let key = key_of(pod, c, "liveness"@);
            let (st, restart) = liveness_step(
                state_of(states, key),
                healthy,
                threshold_or(c.liveness_probe->0.failure_threshold, 3),
            );
            (
                if restart {
                    LivenessAsk::Done(true)
                } else {
                    ask_from(cs, (i + 1) as nat)
                },
                ports::put(states, key, st),
            )
        },
        LivenessAsk::Done(b) => (LivenessAsk::Done(b), states),
    }
}

/// A check of liveness comes to an end, whatever the answers are; and a pod is said to
/// need a restart only upon a probe of liveness that failed.
pub proof fn law_liveness_checks_end(
    states: Seq<(Seq<char>, ProbeState)>,
    pod: Seq<char>,
    cs: Seq<Container>,
    ask: LivenessAsk,
    answer: LivenessAnswer,
)
    requires
        cs.len() <= usize::MAX,
        answer_fits(states, pod, cs, ask, answer),
    ensures
        ({
            let next = liveness_next(states, pod, cs, ask, answer).0;
            &&& ask !is Done ==> 0 <= liveness_left(cs, next) < liveness_left(cs, ask)
            &&& ask is Done ==> next == ask
            &&& ask !is Done && next == LivenessAsk::Done(true) ==> ask is Liveness && answer
                == LivenessAnswer::Probed(false)
        }),
{
    match ask {
        LivenessAsk::Startup(i) | LivenessAsk::StartTime(i) | LivenessAsk::Liveness(i) => {
            lemma_ask_from_is_later(cs, (i + 1) as nat);
            lemma_ask_from_asks_no_restart(cs, (i + 1) as nat);
        },
        LivenessAsk::Done(_) => {},
    }
}

proof fn lemma_ask_from_asks_no_restart(cs: Seq<Container>, i: nat)
    ensures
        ask_from(cs, i) != LivenessAsk::Done(true),
    decreases cs.len() - i,
{
    if i < cs.len() {
        lemma_ask_from_asks_no_restart(cs, i + 1);
    }
}

/// What is asked about the containers from position `i` on.
fn next_ask(cs: &Vec<Container>, i: usize) -> (r: LivenessAsk)
    requires
        i <= cs@.len(),
    ensures
        r == ask_from(cs@, i as nat),
{
    let mut k: usize = i;
    while k < cs.len()
        invariant
            k <= cs@.len(),
            ask_from(cs@, i as nat) == ask_from(cs@, k as nat),
        decreases cs@.len() - k,
    {
        if cs[k].startup_probe.is_some() {
            return LivenessAsk::Startup(k);
        }
        if let Some(a) = liveness_ask(cs, k) {
            return a;
        }
        k += 1;
    }
    LivenessAsk::Done(false)
}

/// What is asked about a container once its startup probe is no hindrance.
fn liveness_ask(cs: &Vec<Container>, i: usize) -> (r: Option<LivenessAsk>)
    requires
        i < cs@.len(),
    ensures
        r == ask_liveness(cs@, i as nat),
{
    match &cs[i].liveness_probe {
        None => None,
        Some(p) => {
            if int_or(p.initial_delay_seconds, 0) > 0 {
                Some(LivenessAsk::StartTime(i))
            } else {
                Some(LivenessAsk::Liveness(i))
            }
        },
    }
}

/// Whether a probe's readiness check is due: the container runs, has started up, and is
/// past its initial delay.
pub open spec fn readiness_is_due(
    c: Container,
    started_up: bool,
    running_since: Option<Timestamp>,
    now: Timestamp,
) -> bool {
    c.readiness_probe matches Some(p) && started_up && {
        let delay = threshold_or(p.initial_delay_seconds, 0);
        delay > 0 ==> running_since is Some && !within_delay(delay, running_since, now)
    }
}

/// A container has started up: it runs, and its startup probe, where it has one, has
/// succeeded often enough.
pub open spec fn has_started(c: Container, running: bool, st: ProbeState, success: bool) -> bool {
    running && (c.startup_probe matches Some(p) ==> has_passed(p, st, success))
}

/// A container is ready: it has started up, and its readiness probe, where it has one, is
/// due and has succeeded often enough.
pub open spec fn is_ready(
    c: Container,
    started_up: bool,
    running_since: Option<Timestamp>,
    now: Timestamp,
    st: ProbeState,
    success: bool,
) -> bool {
    started_up && (c.readiness_probe matches Some(p) ==> readiness_is_due(
        c,
        started_up,
        running_since,
        now,
    ) && has_passed(p, st, success))
}

/// A container is ready only if it runs and has started up, whatever its probes say.
pub proof fn law_ready_containers_have_started(
    c: Container,
    running: bool,
    startup: ProbeState,
    startup_success: bool,
    running_since: Option<Timestamp>,
    now: Timestamp,
    readiness: ProbeState,
    success: bool,
)
    ensures
        is_ready(
            c,
            has_started(c, running, startup, startup_success),
            running_since,
            now,
            readiness,
            success,
        ) ==> running && has_started(c, running, startup, startup_success),
        c.startup_probe is Some && !startup_success ==> !is_ready(
            c,
            has_started(c, running, startup, startup_success),
            running_since,
            now,
            readiness,
            success,
        ),
{
}

impl ContainerRuntime {
    /// Counts one more outcome of the probe with the key.
    fn tick(&mut self, key: &str, success: bool) -> (st: ProbeState)
        requires
            state_of(states_view(old(self).probe_states@), key@).has_room(),
        ensures
            same_settings(*old(self), *final(self)),
            st == state_of(states_view(old(self).probe_states@), key@).after(success),
            states_view(final(self).probe_states@) == ticked(
                states_view(old(self).probe_states@),
                key@,
                success,
            ),
    {
        let mut st = get_state(&self.probe_states, key);
        st.record(success);
        put_state(&mut self.probe_states, key, st);
        st
    }

    /// What is asked first to find out whether a pod's containers are alive.
    pub fn first_liveness_ask(&self, pod: &Pod) -> (r: LivenessAsk)
        requires
            pod.spec is Some,
        ensures
            r == ask_from(pod.spec->0.containers@, 0),
    {
        match &pod.spec {
            Some(s) => next_ask(&s.containers, 0),
            None => LivenessAsk::Done(false),
        }
    }

    /// Takes in the answer to what was asked, and says what is asked next. A container is
    /// restarted when its liveness probe has failed as often in a row as its threshold
    /// says; its liveness probe is not asked until its startup probe has passed.
    pub fn check_liveness(
        &mut self,
        pod: &Pod,
        ask: LivenessAsk,
        answer: LivenessAnswer,
    ) -> (r: LivenessAsk)
        requires
            pod.spec is Some,
            answer_fits(
                states_view(old(self).probe_states@),
                pod.metadata.name@,
                pod.spec->0.containers@,
                ask,
                answer,
            ),
        ensures
            same_settings(*old(self), *final(self)),
            (r, states_view(final(self).probe_states@)) == liveness_next(
                states_view(old(self).probe_states@),
                pod.metadata.name@,
                pod.spec->0.containers@,
                ask,
                answer,
            ),
    {
        let spec = match &pod.spec {
            Some(s) => s,
            None => {
                return LivenessAsk::Done(false);
            },
        };
        let cs = &spec.containers;
        let n: usize = cs.len();
        assert(n == cs@.len());
        let pod_name = pod.metadata.name.as_str();
        match (ask, answer) {
            (LivenessAsk::Startup(i), LivenessAnswer::Probed(success)) => {
                let key = names::probe_key(pod_name, cs[i].name.as_str(), "startup");
                let st = self.tick(key.as_str(), success);
                let needed: i32 = match &cs[i].startup_probe {
                    Some(p) => int_or(p.success_threshold, 1),
                    None => 1,
                };
                if success && st.consecutive_successes >= needed {
                    match liveness_ask(cs, i) {
                        Some(a) => a,
                        None => next_ask(cs, i + 1),
                    }
                } else {
                    next_ask(cs, i + 1)
                }
            },
            (LivenessAsk::StartTime(i), LivenessAnswer::Started { at, now }) => {
                let delay: i32 = match &cs[i].liveness_probe {
                    Some(p) => int_or(p.initial_delay_seconds, 0),
                    None => 0,
                };
                if let Some(t) = at {
                    if time::elapsed_seconds(now, t) < delay as i128 {
                        return next_ask(cs, i + 1);
                    }
                }
                LivenessAsk::Liveness(i)
            },
            (LivenessAsk::Liveness(i), LivenessAnswer::Probed(healthy)) => {
                let key = names::probe_key(pod_name, cs[i].name.as_str(), "liveness");
                let limit: i32 = match &cs[i].liveness_probe {
                    Some(p) => int_or(p.failure_threshold, 3),
                    None => 3,
                };
                let mut st = get_state(&self.probe_states, key.as_str());
                st.record(healthy);
                let restart = !healthy && st.consecutive_failures >= limit;
                if restart {
                    st = ProbeState { consecutive_failures: 0, consecutive_successes: 0 };
                }
                put_state(&mut self.probe_states, key.as_str(), st);
                if restart {
                    LivenessAsk::Done(true)
                } else {
                    next_ask(cs, i + 1)
                }
            },
            (a, _) => a,
        }
    }

    /// Whether the counter of a container's probe is not at its end.
    pub fn probe_counter_has_room(&self, pod_name: &str, container: &Container, probe: &str) -> (r:
        bool)
        ensures
            r == state_of(
                states_view(self.probe_states@),
                key_of(pod_name@, *container, probe@),
            ).has_room(),
    {
        let key = names::probe_key(pod_name, container.name.as_str(), probe);
        let st = get_state(&self.probe_states, key.as_str());
        st.consecutive_failures < i32::MAX && st.consecutive_successes < i32::MAX
    }

    /// Whether a container has started up: it runs, and its startup probe, which has just
    /// succeeded or not, has done so often enough. One without such a probe has started up
    /// once it runs.
    pub fn startup_passed(
        &mut self,
        pod_name: &str,
        container: &Container,
        running: bool,
        success: bool,
    ) -> (r: bool)
        requires
            running && container.startup_probe is Some ==> state_of(
                states_view(old(self).probe_states@),
                key_of(pod_name@, *container, "startup_status"@),
            ).has_room(),
        ensures
            same_settings(*old(self), *final(self)),
            ({
                let before = states_view(old(self).probe_states@);
                let key = key_of(pod_name@, *container, "startup_status"@);
                &&& r == has_started(
                    *container,
                    running,
                    state_of(before, key).after(success),
                    success,
                )
                &&& states_view(final(self).probe_states@) == (if running
                    && container.startup_probe is Some {
                    ticked(before, key, success)
                } else {
                    before
                })
            }),
    {
        if !running {
            return false;
        }
        match &container.startup_probe {
            Some(p) => {
                let key = names::probe_key(
                    pod_name,
                    container.name.as_str(),
                    "startup_status",
                );
                let st = self.tick(key.as_str(), success);
                success && st.consecutive_successes >= int_or(p.success_threshold, 1)
            },
            None => true,
        }
    }

    /// Whether a container's readiness probe is to be asked.
    pub fn readiness_due(
        &self,
        container: &Container,
        started_up: bool,
        running_since: Option<Timestamp>,
        now: Timestamp,
    ) -> (r: bool)
        ensures
            r == readiness_is_due(*container, started_up, running_since, now),
    {
        match &container.readiness_probe {
            Some(p) => {
                if !started_up {
                    return false;
                }
                let delay: i32 = int_or(p.initial_delay_seconds, 0);
                if delay > 0 {
                    match running_since {
                        Some(t) => time::elapsed_seconds(now, t) >= delay as i128,
                        None => false,
                    }
                } else {
                    true
                }
            },
            None => false,
        }
    }

    /// Whether a container is ready: it has started up, and its readiness probe, which has
    /// just succeeded or not where it is due, has done so often enough. One without such a
    /// probe is ready once it has started up.
    pub fn readiness(
        &mut self,
        pod_name: &str,
        container: &Container,
        started_up: bool,
        running_since: Option<Timestamp>,
        now: Timestamp,
        success: bool,
    ) -> (r: bool)
        requires
            readiness_is_due(*container, started_up, running_since, now) ==> state_of(
                states_view(old(self).probe_states@),
                key_of(pod_name@, *container, "readiness"@),
            ).has_room(),
        ensures
            same_settings(*old(self), *final(self)),
            ({
                let before = states_view(old(self).probe_states@);
                let key = key_of(pod_name@, *container, "readiness"@);
                &&& r == is_ready(
                    *container,
                    started_up,
                    running_since,
                    now,
                    state_of(before, key).after(success),
                    success,
                )
                &&& states_view(final(self).probe_states@) == (if readiness_is_due(
                    *container,
                    started_up,
                    running_since,
                    now,
                ) {
                    ticked(before, key, success)
                } else {
                    before
                })
            }),
    {
        match &container.readiness_probe {
            Some(p) => {
                if self.readiness_due(container, started_up, running_since, now) {
                    let key = names::probe_key(pod_name, container.name.as_str(), "readiness");
                    let st = self.tick(key.as_str(), success);
                    success && st.consecutive_successes >= int_or(p.success_threshold, 1)
                } else {
                    false
                }
            },
            None => started_up,
        }
    }

    /// Forgets the counters of all probes of a pod.
    pub fn clear_probe_states_for_pod(&mut self, pod_name: &str)
        ensures
            same_settings(*old(self), *final(self)),
            states_view(final(self).probe_states@) == without_prefix(
                states_view(old(self).probe_states@),
                pod_name@ + "/"@,
            ),
    {
        let prefix = text::cat2(pod_name, "/");
        let ghost all = states_view(self.probe_states@);
        let mut kept: Vec<(String, ProbeState)> = Vec::new();
        let mut i: usize = 0;
        assert(all.take(0) == Seq::<(Seq<char>, ProbeState)>::empty());
        assert(states_view(kept@) =~= Seq::<(Seq<char>, ProbeState)>::empty());
        while i < self.probe_states.len()
            invariant
                i <= self.probe_states@.len(),
                *self == *old(self),
                all == states_view(self.probe_states@),
                prefix@ == pod_name@ + "/"@,
                states_view(kept@) == without_prefix(all.take(i as int), prefix@),
            decreases self.probe_states@.len() - i,
        {
            assert(all.take(i as int + 1).drop_last() == all.take(i as int));
            assert(all.take(i as int + 1).last() == all[i as int]);
            if !text::starts_with(self.probe_states[i].0.as_str(), prefix.as_str()) {
                let ghost before = states_view(kept@);
                kept.push((self.probe_states[i].0.clone(), self.probe_states[i].1));
                assert(states_view(kept@) =~= before.push(all[i as int]));
            }
            i += 1;
        }
        assert(all.take(all.len() as int) == all);
        self.probe_states = kept;
    }

    /// The best address of a container.
    pub fn extract_container_ip(&self, settings: &Option<NetworkSettings>) -> (r: String)
        ensures
            r@ == best_address(*settings, self.network@),
    {
        if let Some(s) = settings {
            if let Some(nets) = &s.networks {
                let mut i: usize = 0;
                let mut own: bool = false;
                assert(nets@.skip(0) == nets@);
                while i < nets.len() && !own
                    invariant
                        i <= nets@.len(),
                        !own ==> sandbox::address_in(nets@, self.network@)
                            == sandbox::address_in(nets@.skip(i as int), self.network@),
                        own ==> i < nets@.len() && sandbox::address_in(nets@, self.network@) == (
                        match nets@[i as int].1 {
                            Some(a) => Some(a@),
                            None => None,
                        }),
                    decreases nets@.len() - i + (if own {
                        0int
                    } else {
                        1int
                    }),
                {
                    assert(nets@.skip(i as int).drop_first() == nets@.skip(i as int + 1));
                    assert(nets@.skip(i as int)[0] == nets@[i as int]);
                    if text::same(nets[i].0.as_str(), self.network.as_str()) {
                        own = true;
                    } else {
                        i += 1;
                    }
                }
                if own {
                    if let Some(a) = &nets[i].1 {
                        if sandbox::assigned(a.as_str()) {
                            return a.clone();
                        }
                    }
                }
                let mut j: usize = 0;
                while j < nets.len()
                    invariant
                        j <= nets@.len(),
                        any_address(nets@) == any_address(nets@.skip(j as int)),
                        s.networks == Some(*nets),
                        *settings == Some(*s),
                        !(sandbox::address_in(nets@, self.network@) matches Some(a)
                            && sandbox::is_assigned(a)),
                    decreases nets@.len() - j,
                {
                    assert(nets@.skip(j as int).drop_first() == nets@.skip(j as int + 1));
                    assert(nets@.skip(j as int)[0] == nets@[j as int]);
                    if let Some(a) = &nets[j].1 {
                        if sandbox::assigned(a.as_str()) {
                            return a.clone();
                        }
                    }
                    j += 1;
                }
            }
            if let Some(a) = &s.ip_address {
                if sandbox::assigned(a.as_str()) {
                    return a.clone();
                }
            }
        }
        "127.0.0.1".to_string()
    }

    /// The address of a container, of which and of the container whose network it uses
    /// the daemon has told what it knows.
    pub fn get_effective_container_ip(
        &self,
        inspected: &Option<InspectedNetwork>,
        holder: &Option<Option<NetworkSettings>>,
    ) -> (r: String)
        ensures
            r@ == effective_address(*inspected, *holder, self.network@),
    {
        match inspected {
            None => "127.0.0.1".to_string(),
            Some(c) => {
                if holder_of(&c.network_mode).is_some() {
                    if let Some(h) = holder {
                        let ip = self.extract_container_ip(h);
                        if !text::same(ip.as_str(), "127.0.0.1") {
                            return ip;
                        }
                    }
                }
                self.extract_container_ip(&c.settings)
            },
        }
    }

    /// The request of an HTTP probe of a container at an address; none where its port has
    /// no number. The address counts only where the probe names no host.
    pub fn check_http_probe(
        &self,
        container: &Container,
        http_get: &HTTPGetAction,
        container_ip: &str,
    ) -> (r: Option<HttpRequest>)
        ensures
            (match r {
                Some(q) => Some((q.url@, api::pair_texts(q.headers@))),
                None => None,
            }) == http_request(
                *http_get,
                *container,
                match mounts::nonempty(http_get.host) {
                    Some(h) => h,
                    None => container_ip@,
                },
            ),
    {
        let ip = match effective_probe_host(&http_get.host) {
            Some(h) => h,
            None => container_ip,
        };
        match resolve_probe_port(&http_get.port, container) {
            Some(p) => {
                let headers: Vec<(String, String)> = match &http_get.http_headers {
                    Some(hs) => sendable_headers(hs),
                    None => Vec::new(),
                };
                assert(http_get.http_headers is None ==> api::pair_texts(headers@) =~= Seq::<
                    (Seq<char>, Seq<char>),
                >::empty());
                Some(HttpRequest { url: request_url(http_get, ip, p), headers })
            },
            None => None,
        }
    }

    /// Where a TCP probe of a container at an address connects to; nowhere where its port
    /// has no number.
    pub fn check_tcp_probe(&self, container: &Container, port: &IntOrString, ip: &str) -> (r: Option<
        String,
    >)
        ensures
            text::opt_text(r) == (match port_number(*port, *container) {
                Some(p) => Some(ip@ + ":"@ + number::decimal(p as int)),
                None => None,
            }),
    {
        match resolve_probe_port(port, container) {
            Some(p) => {
                let n = number::show_u64(p as u64);
                Some(text::cat3(ip, ":", n.as_str()))
            },
            None => None,
        }
    }

    /// Whether a command probe succeeds whose command ends with the code. One whose code is
    /// not known fails.
    pub fn check_exec_probe(&self, exit_code: Option<i64>) -> (r: bool)
        ensures
            r == (exit_code == Some(0i64)),
    {
        match exit_code {
            Some(c) => c == 0,
            None => false,
        }
    }

    /// Where a health probe of a container at an address connects to; nowhere where its
    /// port has no number.
    pub fn check_grpc_probe(&self, container: &Container, port: &IntOrString, ip: &str) -> (r:
        Option<String>)
        ensures
            text::opt_text(r) == (match port_number(*port, *container) {
                Some(p) => Some("http://"@ + ip@ + ":"@ + number::decimal(p as int)),
                None => None,
            }),
    {
        match resolve_probe_port(port, container) {
            Some(p) => {
                let n = number::show_u64(p as u64);
                Some(text::cat4("http://", ip, ":", n.as_str()))
            },
            None => None,
        }
    }
}

/// While fewer seconds than its initial delay have passed since a container started, or while
/// it is not known when it did, its readiness probe is not asked and it is not ready, whatever
/// the probe would answer and has answered.
pub proof fn law_not_ready_before_the_delay(
    c: Container,
    started_up: bool,
    running_since: Option<Timestamp>,
    now: Timestamp,
    st: ProbeState,
    success: bool,
)
    requires
        c.readiness_probe is Some,
        c.readiness_probe->0.initial_delay_seconds is Some,
        c.readiness_probe->0.initial_delay_seconds->0 > 0,
        running_since matches Some(t) ==> {
            &&& t.nanos < 1_000_000_000
            &&& now.nanos < 1_000_000_000
            &&& now.secs - t.secs < c.readiness_probe->0.initial_delay_seconds->0
        },
    ensures
        !readiness_is_due(c, started_up, running_since, now),
        !is_ready(c, started_up, running_since, now, st, success),
{
}

/// A container that has started up is asked whether it is ready once more seconds than the
/// initial delay have passed, and at once where there is no delay. It is then ready if and only
/// if the probe succeeds, for as many times in a row as it says, one where it says nothing. A
/// container that has not started up is not asked and not ready.
pub proof fn law_ready_when_the_probe_says_so(
    c: Container,
    started_up: bool,
    running_since: Option<Timestamp>,
    now: Timestamp,
    st: ProbeState,
    success: bool,
)
    requires
        c.readiness_probe is Some,
        c.readiness_probe->0.initial_delay_seconds is None
            || c.readiness_probe->0.initial_delay_seconds->0 <= 0 || (running_since matches Some(t)
            && t.nanos < 1_000_000_000 && now.nanos < 1_000_000_000 && now.secs - t.secs
            > c.readiness_probe->0.initial_delay_seconds->0),
    ensures
        readiness_is_due(c, started_up, running_since, now) == started_up,
        ({
            let wanted: int = match c.readiness_probe->0.success_threshold {
                Some(n) => n as int,
                None => 1,
            };
            is_ready(c, started_up, running_since, now, st, success) <==> started_up && success
                && st.consecutive_successes >= wanted
        }),
{
}

/// A container without a readiness probe is ready as soon as it has started up, and is not
/// asked. One without a startup probe has started up once it runs; with one, once the probe
/// succeeds as often in a row as it says, one time where it says nothing. What does not run has
/// not started up.
pub proof fn law_containers_without_probes_are_taken_at_their_word(
    c: Container,
    running: bool,
    started_up: bool,
    running_since: Option<Timestamp>,
    now: Timestamp,
    st: ProbeState,
    success: bool,
)
    ensures
        c.readiness_probe is None ==> !readiness_is_due(c, started_up, running_since, now) && is_ready(
            c,
            started_up,
            running_since,
            now,
            st,
            success,
        ) == started_up,
        c.startup_probe is None ==> has_started(c, running, st, success) == running,
        !running ==> !has_started(c, running, st, success),
        !success && c.startup_probe is Some ==> !has_started(c, running, st, success),
        running && success ==> (c.startup_probe matches Some(p) ==> {
            let wanted: int = match p.success_threshold {
                Some(n) => n as int,
                None => 1,
            };
            has_started(c, running, st, success) <==> st.consecutive_successes >= wanted
        }),
{
}

/// Outcomes of one kind in a row are counted, and an outcome of the other kind begins the count
/// anew.
pub proof fn law_outcomes_in_a_row_are_counted(st: ProbeState)
    requires
        st.has_room(),
    ensures
        st.after(true).consecutive_successes == st.consecutive_successes + 1,
        st.after(true).consecutive_failures == 0,
        st.after(false).consecutive_failures == st.consecutive_failures + 1,
        st.after(false).consecutive_successes == 0,
        fresh().consecutive_failures == 0 && fresh().consecutive_successes == 0,
{
}

/// The state that a key has after another was set, or itself.
proof fn lemma_state_after_put(
    s: Seq<(Seq<char>, ProbeState)>,
    k: Seq<char>,
    v: ProbeState,
    other: Seq<char>,
)
    ensures
        state_of(ports::put(s, k, v), other) == (if other == k {
            v
        } else {
            state_of(s, other)
        }),
    decreases s.len(),
{
    let r = ports::put(s, k, v);
    if s.len() == 0 {
        assert(r[0] == (k, v));
        assert(r.drop_first() =~= Seq::<(Seq<char>, ProbeState)>::empty());
        assert(state_of(r.drop_first(), other) == fresh());
    } else if s[0].0 == k {
        assert(r[0] == (k, v));
        assert(r.drop_first() =~= s.drop_first());
    } else {
        assert(r[0] == s[0]);
        assert(r.drop_first() =~= ports::put(s.drop_first(), k, v));
        lemma_state_after_put(s.drop_first(), k, v, other);
    }
}

/// An outcome is counted for the probe that had it, and for no other.
pub proof fn law_an_outcome_counts_for_its_probe_alone(
    s: Seq<(Seq<char>, ProbeState)>,
    key: Seq<char>,
    success: bool,
    other: Seq<char>,
)
    ensures
        state_of(ticked(s, key, success), key) == state_of(s, key).after(success),
        other != key ==> state_of(ticked(s, key, success), other) == state_of(s, other),
        state_of(Seq::<(Seq<char>, ProbeState)>::empty(), key) == fresh(),
{
    lemma_state_after_put(s, key, state_of(s, key).after(success), key);
    lemma_state_after_put(s, key, state_of(s, key).after(success), other);
}

/// A pod has to be restarted if and only if a liveness probe fails for the last time that is
/// allowed in a row, the third where the probe says nothing; the count then begins anew. Any
/// other outcome is counted, and leads on to the containers that follow. Other probes' counts
/// stay.
pub proof fn law_liveness_fails_at_the_threshold(
    states: Seq<(Seq<char>, ProbeState)>,
    pod: Seq<char>,
    cs: Seq<Container>,
    i: usize,
    healthy: bool,
    other: Seq<char>,
)
    requires
        cs.len() <= usize::MAX,
        answer_fits(
            states,
            pod,
            cs,
            LivenessAsk::Liveness(i),
            LivenessAnswer::Probed(healthy),
        ),
    ensures
        ({
            let (next, after) = liveness_next(
                states,
                pod,
                cs,
                LivenessAsk::Liveness(i),
                LivenessAnswer::Probed(healthy),
            );
            let c = cs[i as int];
            let key = pod + "/"@ + c.name@ + "/"@ + "liveness"@;
            let failures = state_of(states, key).consecutive_failures + 1;
            let allowed: int = match c.liveness_probe->0.failure_threshold {
                Some(n) => n as int,
                None => 3,
            };
            &&& next == LivenessAsk::Done(true) <==> !healthy && failures >= allowed
            &&& next != LivenessAsk::Done(true) ==> next == ask_from(cs, (i + 1) as nat)
            &&& healthy ==> state_of(after, key).consecutive_failures == 0
            &&& !healthy && failures < allowed ==> state_of(after, key).consecutive_failures
                == failures
            &&& !healthy && failures >= allowed ==> state_of(after, key) == fresh()
            &&& other != key ==> state_of(after, other) == state_of(states, other)
        }),
{
    let c = cs[i as int];
    let key = key_of(pod, c, "liveness"@);
    assert(key =~= pod + "/"@ + c.name@ + "/"@ + "liveness"@);
    let (st, restart) = liveness_step(
        state_of(states, key),
        healthy,
        threshold_or(c.liveness_probe->0.failure_threshold, 3),
    );
    lemma_state_after_put(states, key, st, key);
    lemma_state_after_put(states, key, st, other);
    if !restart {
        lemma_first_asked(cs, (i + 1) as nat);
    }
}

/// There is something to ask about the container.
pub open spec fn has_probes(c: Container) -> bool {
    c.startup_probe is Some || c.liveness_probe is Some
}

/// What is asked is about the container at `k`.
pub open spec fn is_about(ask: LivenessAsk, k: int) -> bool {
    match ask {
        LivenessAsk::Startup(i) => i == k,
        LivenessAsk::StartTime(i) => i == k,
        LivenessAsk::Liveness(i) => i == k,
        LivenessAsk::Done(_) => false,
    }
}

proof fn lemma_first_asked(cs: Seq<Container>, from: nat)
    requires
        cs.len() <= usize::MAX,
    ensures
        ask_from(cs, from) != LivenessAsk::Done(true),
        ask_from(cs, from) is Done <==> forall|j: int|
            from <= j < cs.len() ==> !has_probes(#[trigger] cs[j]),
        forall|k: int|
            from <= k < cs.len() && has_probes(#[trigger] cs[k]) && (forall|j: int|
                from <= j < k ==> !has_probes(#[trigger] cs[j])) ==> is_about(
                ask_from(cs, from),
                k,
            ),
    decreases cs.len() - from,
{
    if from < cs.len() {
        if has_probes(cs[from as int]) {
            assert(is_about(ask_from(cs, from), from as int));
            assert forall|k: int|
                from <= k < cs.len() && has_probes(#[trigger] cs[k]) && (forall|j: int|
                    from <= j < k ==> !has_probes(#[trigger] cs[j])) implies is_about(
                ask_from(cs, from),
                k,
            ) by {
                if k > from {
                    assert(!has_probes(cs[from as int]));
                }
            }
        } else {
            lemma_first_asked(cs, from + 1);
            assert forall|k: int|
                from <= k < cs.len() && has_probes(#[trigger] cs[k]) && (forall|j: int|
                    from <= j < k ==> !has_probes(#[trigger] cs[j])) implies is_about(
                ask_from(cs, from),
                k,
            ) by {
                assert(forall|j: int| from + 1 <= j < k ==> !has_probes(#[trigger] cs[j]));
            }
            if ask_from(cs, from) is Done {
                assert forall|j: int| from <= j < cs.len() implies !has_probes(
                    #[trigger] cs[j],
                ) by {}
            }
        }
    }
}

/// The first container that has a startup or a liveness probe is the first that is asked about,
/// from any position on; where none has one the pod is alive. Its startup probe comes first;
/// then, where the liveness probe waits, when it started; then the liveness probe.
pub proof fn law_containers_are_asked_in_turn(cs: Seq<Container>, from: nat, k: int)
    requires
        cs.len() <= usize::MAX,
        from <= k < cs.len(),
        forall|j: int| from <= j < k ==> !has_probes(#[trigger] cs[j]),
    ensures
        ({
            let ask = ask_from(cs, from);
            let delayed = cs[k].liveness_probe is Some
                && cs[k].liveness_probe->0.initial_delay_seconds is Some
                && cs[k].liveness_probe->0.initial_delay_seconds->0 > 0;
            &&& cs[k].startup_probe is Some ==> ask == LivenessAsk::Startup(k as usize)
            &&& cs[k].startup_probe is None && cs[k].liveness_probe is Some && delayed ==> ask
                == LivenessAsk::StartTime(k as usize)
            &&& cs[k].startup_probe is None && cs[k].liveness_probe is Some && !delayed ==> ask
                == LivenessAsk::Liveness(k as usize)
            &&& !has_probes(cs[k]) && k == cs.len() - 1 ==> ask == LivenessAsk::Done(false)
        }),
    decreases cs.len() - from,
{
    if from < k {
        assert(!has_probes(cs[from as int]));
        law_containers_are_asked_in_turn(cs, from + 1, k);
    } else if !has_probes(cs[k]) {
        assert(ask_from(cs, from) == ask_from(cs, from + 1));
        if k == cs.len() - 1 {
            assert(ask_from(cs, from + 1) == LivenessAsk::Done(false));
        }
    }
}

/// A container is not asked whether it is alive until its startup probe has succeeded, as often
/// in a row as it says; then it is. Nor is it while it is known to be within its initial delay;
/// after that, or where the start is not known, it is.
pub proof fn law_liveness_waits_for_startup_and_delay(
    states: Seq<(Seq<char>, ProbeState)>,
    pod: Seq<char>,
    cs: Seq<Container>,
    i: usize,
    success: bool,
    at: Option<Timestamp>,
    now: Timestamp,
)
    requires
        cs.len() <= usize::MAX,
        i < cs.len(),
    ensures
        ({
            let c = cs[i as int];
            let key = pod + "/"@ + c.name@ + "/"@ + "startup"@;
            let (next, after) = liveness_next(
                states,
                pod,
                cs,
                LivenessAsk::Startup(i),
                LivenessAnswer::Probed(success),
            );
            let wanted: int = match c.startup_probe->0.success_threshold {
                Some(n) => n as int,
                None => 1,
            };
            let enough = success && state_of(states, key).consecutive_successes + 1 >= wanted;
            answer_fits(
                states,
                pod,
                cs,
                LivenessAsk::Startup(i),
                LivenessAnswer::Probed(success),
            ) ==> {
                &&& !enough ==> next == ask_from(cs, (i + 1) as nat) && !is_about(next, i as int)
                &&& enough && c.liveness_probe is Some ==> is_about(next, i as int) && !(next is Startup)
                &&& state_of(after, key) == state_of(states, key).after(success)
            }
        }),
        ({
            let c = cs[i as int];
            let (next, after) = liveness_next(
                states,
                pod,
                cs,
                LivenessAsk::StartTime(i),
                LivenessAnswer::Started { at, now },
            );
            let d = c.liveness_probe->0.initial_delay_seconds;
            c.liveness_probe is Some && d is Some ==> {
                &&& after == states
                &&& at is None ==> next == LivenessAsk::Liveness(i)
                &&& at matches Some(t) ==> t.nanos < 1_000_000_000 && now.nanos < 1_000_000_000 ==> {
                    &&& now.secs - t.secs < d->0 && d->0 > 0 ==> !is_about(next, i as int)
                    &&& now.secs - t.secs > d->0 && d->0 > 0 ==> next == LivenessAsk::Liveness(i)
                }
            }
        }),
{
    let c = cs[i as int];
    let key = key_of(pod, c, "startup"@);
    assert(key =~= pod + "/"@ + c.name@ + "/"@ + "startup"@);
    lemma_state_after_put(states, key, state_of(states, key).after(success), key);
    lemma_asked_behind(cs, (i + 1) as nat, i as int);
}

proof fn lemma_asked_behind(cs: Seq<Container>, from: nat, k: int)
    requires
        cs.len() <= usize::MAX,
        k < from,
    ensures
        !is_about(ask_from(cs, from), k),
    decreases cs.len() - from,
{
    if from < cs.len() {
        if !has_probes(cs[from as int]) {
            lemma_asked_behind(cs, from + 1, k);
        }
    }
}

/// The counters of a pod's probes are found by the pod's name and a slash, and those of another
/// pod are not, names holding no slash.
pub proof fn law_counters_belong_to_one_pod(
    pod: Seq<char>,
    other: Seq<char>,
    c: Container,
    probe: Seq<char>,
)
    requires
        !pod.contains('/'),
        !other.contains('/'),
    ensures
        text::begins(key_of(pod, c, probe), pod + "/"@),
        text::begins(key_of(other, c, probe), pod + "/"@) ==> other == pod,
{
    reveal_strlit("/");
    let p = pod + "/"@;
    let k = key_of(other, c, probe);
    assert(key_of(pod, c, probe).take(p.len() as int) =~= p);
    if text::begins(k, p) {
        assert(forall|i: int| 0 <= i < p.len() ==> k[i] == p[i]);
        assert(k[other.len() as int] == '/');
        if other.len() < pod.len() {
            assert(p[other.len() as int] == '/');
            assert(pod[other.len() as int] == '/');
        } else if other.len() > pod.len() {
            assert(k[pod.len() as int] == '/');
            assert(other[pod.len() as int] == '/');
        } else {
            assert forall|i: int| 0 <= i < pod.len() implies pod[i] == other[i] by {
                assert(k[i] == p[i]);
            }
            assert(pod =~= other);
        }
    }
}

/// A port given as a number is that number where it is one of a port; one given by name is the
/// number of the first of the container's ports with the name, and has none where there is no
/// such port.
pub proof fn law_ports_are_resolved(port: IntOrString, c: Container)
    ensures
        port matches IntOrString::Int(n) ==> {
            &&& 1 <= n <= 65535 ==> (port_number(port, c) matches Some(p) && p == n)
            &&& !(1 <= n <= 65535) ==> port_number(port, c) is None
        },
        port matches IntOrString::Str(s) ==> {
            &&& c.ports is None ==> port_number(port, c) is None
            &&& c.ports matches Some(ps) ==> {
                &&& forall|i: int|
                    0 <= i < ps@.len() && text::opt_text((#[trigger] ps@[i]).name) == Some(s@) && (
                    forall|j: int|
                        0 <= j < i ==> text::opt_text((#[trigger] ps@[j]).name) != Some(s@))
                        ==> port_number(port, c) == Some(ps@[i].container_port)
                &&& (forall|i: int|
                    0 <= i < ps@.len() ==> text::opt_text((#[trigger] ps@[i]).name) != Some(s@))
                    ==> port_number(port, c) is None
            }
        },
{
    if let IntOrString::Str(s) = port {
        if let Some(ps) = c.ports {
            assert forall|i: int|
                0 <= i < ps@.len() && text::opt_text((#[trigger] ps@[i]).name) == Some(s@) && (
                forall|j: int|
                    0 <= j < i ==> text::opt_text((#[trigger] ps@[j]).name) != Some(
                        s@,
                    )) implies port_number(port, c) == Some(ps@[i].container_port) by {
                lemma_port_named(ps@, s@, i);
            }
            if forall|i: int|
                0 <= i < ps@.len() ==> text::opt_text((#[trigger] ps@[i]).name) != Some(s@) {
                lemma_port_named(ps@, s@, ps@.len() as int);
            }
        }
    }
}

proof fn lemma_port_named(ps: Seq<api::ContainerPort>, name: Seq<char>, i: int)
    requires
        0 <= i <= ps.len(),
        forall|j: int| 0 <= j < i ==> text::opt_text((#[trigger] ps[j]).name) != Some(name),
        i < ps.len() ==> text::opt_text(ps[i].name) == Some(name),
    ensures
        i < ps.len() ==> port_named(ps, name) == Some(ps[i].container_port),
        i == ps.len() ==> port_named(ps, name) is None,
    decreases ps.len(),
{
    if ps.len() > 0 && i > 0 {
        assert(text::opt_text(ps[0].name) != Some(name));
        let rest = ps.drop_first();
        assert(forall|j: int| 0 <= j < rest.len() ==> (#[trigger] rest[j]) == ps[j + 1]);
        lemma_port_named(rest, name, i - 1);
    }
}

/// A request goes to the probe's path at the given address and port, by the scheme in lower
/// case, `HTTP` where the probe names none, and to `/` where it names no path.
pub proof fn law_requests_go_where_the_probe_says(g: HTTPGetAction, ip: Seq<char>, port: u16)
    ensures
        g.scheme is None && g.path is None ==> url_text(g, ip, port) == text::lower("HTTP"@)
            + "://"@ + ip + ":"@ + number::decimal(port as int) + "/"@,
        g.path matches Some(p) ==> text::ends(url_text(g, ip, port), number::decimal(port as int) + p@),
        g.scheme matches Some(s) ==> text::begins(
            url_text(g, ip, port),
            text::lower(s@) + "://"@ + ip + ":"@ + number::decimal(port as int),
        ),
{
    let url = url_text(g, ip, port);
    let n = number::decimal(port as int);
    if let Some(p) = g.path {
        let tail = n + p@;
        assert(url.skip(url.len() - tail.len()) =~= tail);
    }
    if let Some(s) = g.scheme {
        let head = text::lower(s@) + "://"@ + ip + ":"@ + n;
        assert(url.take(head.len() as int) =~= head);
    }
}

/// The headers that a probe sends are those that can be sent, with their values, in the order
/// in which they are given.
pub proof fn law_valid_headers_are_sent(hs: Seq<HTTPHeader>, i: int)
    requires
        0 <= i < hs.len(),
    ensures
        ({
            let valid = is_header_name(encode_utf8(hs[i].name@)) && is_header_value(
                encode_utf8(hs[i].value@),
            );
            &&& valid ==> valid_headers(hs) == valid_headers(hs.take(i)) + seq![
                (hs[i].name@, hs[i].value@),
            ] + valid_headers(hs.skip(i + 1))
            &&& !valid ==> valid_headers(hs) == valid_headers(hs.take(i)) + valid_headers(
                hs.skip(i + 1),
            )
        }),
    decreases hs.len(),
{
    let rest = hs.skip(i + 1);
    if i == hs.len() - 1 {
        assert(hs.take(i) =~= hs.drop_last());
        assert(valid_headers(rest) =~= Seq::<(Seq<char>, Seq<char>)>::empty());
    } else {
        let short = hs.drop_last();
        law_valid_headers_are_sent(short, i);
        assert(short.take(i) =~= hs.take(i));
        assert(short.skip(i + 1) =~= rest.drop_last());
        assert(rest.last() == hs.last());
    }
}

/// A question for a service's health is the service's name behind a tag and the length of the
/// name, and nothing where no service is named.
pub proof fn law_health_requests_carry_the_name(service: Seq<char>)
    ensures
        service.len() == 0 ==> health_request(service).len() == 0,
        service.len() > 0 ==> ({
            let r = health_request(service);
            let b = encode_utf8(service);
            let n = r.len() - b.len();
            &&& n >= 2
            &&& r[0] == 0x0a
            &&& varint_value(r.subrange(1, n)) == b.len()
            &&& r[n - 1] < 128
            &&& r.skip(n) == b
        }),
{
    if service.len() > 0 {
        let r = health_request(service);
        let b = encode_utf8(service);
        let n = r.len() - b.len();
        law_varints_read_back(b.len());
        assert(r.subrange(1, n) =~= varint(b.len()));
        assert(r.skip(n) =~= b);
        assert(r[n - 1] == varint(b.len()).last());
    }
}

/// The networks of a container hold the address, and it is assigned.
pub open spec fn is_network_address(s: NetworkSettings, a: Seq<char>) -> bool {
    s.networks matches Some(nets) && exists|i: int|
        0 <= i < nets@.len() && (#[trigger] nets@[i]).1 is Some && nets@[i].1->0@ == a
            && sandbox::is_assigned(a)
}

proof fn lemma_any_address(nets: Seq<(String, Option<String>)>)
    ensures
        any_address(nets) is None <==> forall|i: int|
            0 <= i < nets.len() && (#[trigger] nets[i]).1 is Some ==> !sandbox::is_assigned(
                nets[i].1->0@,
            ),
        any_address(nets) matches Some(a) ==> exists|i: int|
            0 <= i < nets.len() && (#[trigger] nets[i]).1 is Some && nets[i].1->0@ == a
                && sandbox::is_assigned(a),
    decreases nets.len(),
{
    if nets.len() > 0 {
        let rest = nets.drop_first();
        lemma_any_address(rest);
        assert(forall|i: int| 0 <= i < rest.len() ==> (#[trigger] rest[i]) == nets[i + 1]);
        if nets[0].1 is Some && sandbox::is_assigned(nets[0].1->0@) {
        } else {
            if let Some(a) = any_address(nets) {
                let i = choose|i: int|
                    0 <= i < rest.len() && (#[trigger] rest[i]).1 is Some && rest[i].1->0@ == a
                        && sandbox::is_assigned(a);
                assert(nets[i + 1].1->0@ == a);
            } else {
                assert forall|i: int|
                    0 <= i < nets.len() && (
                    #[trigger] nets[i]).1 is Some implies !sandbox::is_assigned(nets[i].1->0@) by {
                    if i > 0 {
                        assert(rest[i - 1] == nets[i]);
                    }
                }
            }
        }
    }
}

/// A container's address is that in the agent's network where it has one; else an assigned one
/// in another of its networks; else its own default; and this host's only where it has none of
/// them.
pub proof fn law_the_best_address_is_taken(s: NetworkSettings, network: Seq<char>)
    ensures
        ({
            let a = best_address(Some(s), network);
            let in_network = match s.networks {
                Some(nets) => sandbox::address_in(nets@, network),
                None => None,
            };
            let own = s.ip_address is Some && sandbox::is_assigned(s.ip_address->0@);
            &&& in_network is Some && sandbox::is_assigned(in_network->0) ==> a == in_network->0
            &&& (exists|x: Seq<char>| #[trigger] is_network_address(s, x)) ==> is_network_address(
                s,
                a,
            ) || in_network == Some(a)
            &&& !(exists|x: Seq<char>| #[trigger] is_network_address(s, x)) && !(in_network is Some
                && sandbox::is_assigned(in_network->0)) ==> {
                &&& own ==> a == s.ip_address->0@
                &&& !own ==> a == "127.0.0.1"@
            }
        }),
        best_address(None, network) == "127.0.0.1"@,
{
    if let Some(nets) = s.networks {
        lemma_any_address(nets@);
        if let Some(a) = any_address(nets@) {
            assert(is_network_address(s, a));
        } else {
            assert forall|x: Seq<char>| !(#[trigger] is_network_address(s, x)) by {
                if is_network_address(s, x) {
                    let i = choose|i: int|
                        0 <= i < nets@.len() && (#[trigger] nets@[i]).1 is Some && nets@[i].1->0@
                            == x && sandbox::is_assigned(x);
                    assert(nets@[i].1 is Some);
                }
            }
        }
    } else {
        assert forall|x: Seq<char>| !(#[trigger] is_network_address(s, x)) by {}
    }
}

/// A container that lives in another's network is reached at that one's address, where it has
/// any but this host's; every other container at its own.
pub proof fn law_shared_networks_share_the_address(
    i: InspectedNetwork,
    holder: Option<Option<NetworkSettings>>,
    network: Seq<char>,
)
    ensures
        ({
            let shares = i.network_mode is Some && text::begins(
                i.network_mode->0@,
                "container:"@,
            );
            let theirs = best_address(holder->0, network);
            let a = effective_address(Some(i), holder, network);
            &&& shares && holder is Some && theirs != "127.0.0.1"@ ==> a == theirs
            &&& !shares || holder is None || theirs == "127.0.0.1"@ ==> a == best_address(
                i.settings,
                network,
            )
        }),
        effective_address(None, holder, network) == "127.0.0.1"@,
{
}

/// A probe asks by the first of its actions that there is, and always succeeds where there is
/// none; it waits for as many seconds as it says, and for one where it says less or nothing.
pub proof fn law_probes_do_what_they_ask(p: Probe)
    ensures
        p.http_get is Some ==> kind_of(p) == ProbeKind::Http,
        p.http_get is None && p.tcp_socket is Some ==> kind_of(p) == ProbeKind::Tcp,
        p.http_get is None && p.tcp_socket is None && p.exec_action is Some ==> kind_of(p)
            == ProbeKind::Exec,
        p.http_get is None && p.tcp_socket is None && p.exec_action is None && p.grpc is Some
            ==> kind_of(p) == ProbeKind::Grpc,
        p.http_get is None && p.tcp_socket is None && p.exec_action is None && p.grpc is None
            ==> kind_of(p) == ProbeKind::Nothing,
        timeout_of(p) >= 1,
        p.timeout_seconds matches Some(t) ==> t >= 1 ==> timeout_of(p) == t,
        p.timeout_seconds is None ==> timeout_of(p) == 1,
{
}

/// A request has a place and headers exactly where the probe's port has a number: it goes to
/// the probe's place, with the headers of the probe that can be sent.
pub proof fn law_requests_are_made_where_there_is_a_port(g: HTTPGetAction, c: Container, ip: Seq<char>)
    ensures
        http_request(g, c, ip) is Some <==> port_number(g.port, c) is Some,
        http_request(g, c, ip) matches Some((url, headers)) ==> url == url_text(
            g,
            ip,
            port_number(g.port, c)->0,
        ) && (g.http_headers is Some ==> headers == valid_headers(g.http_headers->0@)) && (
        g.http_headers is None ==> headers.len() == 0),
{
}

/// What keeps a runtime's settings keeps each of them.
pub proof fn law_settings_are_kept(a: ContainerRuntime, b: ContainerRuntime)
    requires
        same_settings(a, b),
    ensures
        a.volumes_base_path == b.volumes_base_path,
        a.cluster_dns == b.cluster_dns,
        a.cluster_domain == b.cluster_domain,
        a.network == b.network,
        a.use_cni == b.use_cni,
        a.supports_uts_container_mode == b.supports_uts_container_mode,
        a.kubernetes_service_host == b.kubernetes_service_host,
        a.image_cache == b.image_cache,
{
}

/// The delay ends the moment that as many seconds have passed since the start, neither sooner
/// nor later: until then a container is not probed for readiness or liveness, and from then
/// on it is.
pub proof fn law_the_delay_ends_on_time(
    states: Seq<(Seq<char>, ProbeState)>,
    pod: Seq<char>,
    cs: Seq<Container>,
    i: usize,
    c: Container,
    t: Timestamp,
    now: Timestamp,
    d: i32,
)
    requires
        d > 0,
        t.nanos < 1_000_000_000,
        now.nanos < 1_000_000_000,
        cs.len() <= usize::MAX,
        i < cs.len(),
    ensures
        ({
            let waited = (now.secs - t.secs) * 1_000_000_000 + (now.nanos - t.nanos) >= d
                * 1_000_000_000;
            let (next, after) = liveness_next(
                states,
                pod,
                cs,
                LivenessAsk::StartTime(i),
                LivenessAnswer::Started { at: Some(t), now },
            );
            &&& c.readiness_probe is Some && c.readiness_probe->0.initial_delay_seconds == Some(d)
                ==> readiness_is_due(c, true, Some(t), now) == waited
            &&& cs[i as int].liveness_probe is Some
                && cs[i as int].liveness_probe->0.initial_delay_seconds == Some(d) ==> (next
                == LivenessAsk::Liveness(i)) == waited
            &&& cs[i as int].liveness_probe is Some
                && cs[i as int].liveness_probe->0.initial_delay_seconds == Some(d) && !waited
                ==> next == ask_from(cs, (i + 1) as nat)
        }),
{
    time::law_whole_seconds_are_counted(now, t);
    lemma_asked_behind(cs, (i + 1) as nat, i as int);
}

/// Once a container has started up its liveness is looked at, after its delay where it has
/// one; where it has no such probe the next container's turn comes.
pub proof fn law_liveness_follows_startup(cs: Seq<Container>, i: nat)
    requires
        i < cs.len() <= usize::MAX,
    ensures
        ({
            let p = cs[i as int].liveness_probe;
            let next = ask_after_startup(cs, i, true);
            let delayed = p is Some && p->0.initial_delay_seconds is Some
                && p->0.initial_delay_seconds->0 > 0;
            &&& p is Some && delayed ==> next == LivenessAsk::StartTime(i as usize)
            &&& p is Some && !delayed ==> next == LivenessAsk::Liveness(i as usize)
            &&& p is None ==> next == ask_from(cs, i + 1)
            &&& ask_after_startup(cs, i, false) == ask_from(cs, i + 1)
        }),
{
}

/// Letters, digits and hyphens can stand in a header's name, and colons, spaces and what does
/// not print cannot; what prints can stand in its value, and a line's end cannot.
pub proof fn law_header_bytes_are_those_that_print(b: u8)
    ensures
        97 <= b <= 122 || 65 <= b <= 90 || 48 <= b <= 57 || b == 45 || b == 95 ==> is_name_byte(b),
        b <= 32 || b >= 127 || b == 58 || b == 40 || b == 47 || b == 34 ==> !is_name_byte(b),
        is_header_name(seq![b]) == is_name_byte(b),
        !is_header_name(Seq::empty()),
        is_header_value(Seq::empty()),
        32 <= b < 127 || b == 9 || b >= 128 ==> is_header_value(seq![b]),
        b == 10 || b == 13 || b == 0 || b == 127 ==> !is_header_value(seq![b]),
{
    assert(seq![b][0] == b);
}

/// A probe waits for its answer at least a second.
pub proof fn law_probes_wait_a_second(p: Probe)
    ensures
        p.timeout_seconds is None || p.timeout_seconds->0 < 1 ==> timeout_of(p) == 1,
{
}

} // verus!
