//! A pod's hostname and its `/etc/hosts` file.

use crate::api;
use crate::api::{HostAlias, Pod, PodSpec};
use crate::downward;
use crate::dns;
use crate::names;
use crate::runtime::ContainerRuntime;
use crate::text;
use vstd::prelude::*;
use vstd::string::*;
use vstd::utf8::*;

verus! {

/// The longest hostname that the kernel takes, in bytes.
pub const MAX_HOSTNAME_LEN: usize = 63;

/// The hostname that a pod asks for: its own, or the pod's name.
pub open spec fn wanted_hostname(pod: Pod) -> Seq<char> {
    match pod.spec {
        Some(s) => downward::text_or(s.hostname, pod.metadata.name@),
        None => pod.metadata.name@,
    }
}

/// `raw` can be cut to a hostname's length between two of its characters.
pub open spec fn can_be_cut(raw: Seq<char>) -> bool {
    encode_utf8(raw).len() > MAX_HOSTNAME_LEN ==> is_char_boundary(
        encode_utf8(raw),
        MAX_HOSTNAME_LEN as int,
    )
}

/// `raw` as a hostname: a longer one is cut, and loses the hyphens at the cut.
pub open spec fn hostname_text(raw: Seq<char>) -> Seq<char> {
    if encode_utf8(raw).len() > MAX_HOSTNAME_LEN {
        text::trimmed_end(
            decode_utf8(encode_utf8(raw).subrange(0, MAX_HOSTNAME_LEN as int)),
            '-',
        )
    } else {
        raw
    }
}

/// The lines that every pod's hosts file begins with.
pub open spec fn standard_hosts() -> Seq<char> {
    "# Kubernetes-managed hosts file.\n127.0.0.1\tlocalhost\n::1\tlocalhost ip6-localhost ip6-loopback\nfe00::\tip6-localnet\nfe00::\tip6-mcastprefix\nfe00::1\tip6-allnodes\nfe00::2\tip6-allrouters\n"@
}

/// The line of the pod's own address: its hostname, and its full name within the
/// cluster where it has a subdomain.
pub open spec fn own_line(
    ip: Seq<char>,
    host: Seq<char>,
    subdomain: Option<String>,
    namespace: Seq<char>,
    domain: Seq<char>,
) -> Seq<char> {
    match subdomain {
        Some(sub) => ip + "\t"@ + host + "\t"@ + (host + "."@ + sub@ + "."@ + namespace + ".svc."@
            + domain) + "\n"@,
        None => ip + "\t"@ + host + "\n"@,
    }
}

/// The lines of the aliases that name at least one host.
pub open spec fn alias_lines(aliases: Seq<HostAlias>) -> Seq<char>
    decreases aliases.len(),
{
    if aliases.len() == 0 {
        Seq::empty()
    } else {
        let a = aliases.last();
        let rest = alias_lines(aliases.drop_last());
        match a.hostnames {
            Some(names) => if names@.len() == 0 {
                rest
            } else {
                rest + a.ip@ + "\t"@ + text::join(text::texts(names@), "\t"@) + "\n"@
            },
            None => rest,
        }
    }
}

/// What a pod's hosts file holds.
pub open spec fn hosts_text(pod: Pod, spec: PodSpec, ip: Option<Seq<char>>, domain: Seq<char>) -> Seq<
    char,
> {
    let own = match ip {
        Some(ip) => own_line(
            ip,
            hostname_text(wanted_hostname(pod)),
            spec.subdomain,
            api::namespace_of(pod),
            domain,
        ),
        None => Seq::empty(),
    };
    let aliases = match spec.host_aliases {
        Some(a) => alias_lines(a@),
        None => Seq::empty(),
    };
    standard_hosts() + own + aliases
}

/// The pod has a hosts file of its own: it is not in the host's network, nor the pod of
/// the cluster's DNS server.
pub open spec fn has_hosts_file(pod: Pod, spec: PodSpec) -> bool {
    spec.host_network != Some(true) && pod.metadata.name@ != "coredns"@
}

/// Whether `raw` can be cut to a hostname's length between two of its characters.
pub fn hostname_can_be_cut(raw: &str) -> (r: bool)
    ensures
        r == can_be_cut(raw@),
{
    let n: usize = raw.as_bytes().len();
    n <= MAX_HOSTNAME_LEN || raw.is_char_boundary(MAX_HOSTNAME_LEN)
}

/// Whether the hostname that a pod wants can be cut to a hostname's length.
pub fn pod_hostname_can_be_cut(pod: &Pod) -> (r: bool)
    ensures
        r == can_be_cut(wanted_hostname(*pod)),
{
    let wanted: &str = match &pod.spec {
        Some(s) => match &s.hostname {
            Some(h) => h.as_str(),
            None => pod.metadata.name.as_str(),
        },
        None => pod.metadata.name.as_str(),
    };
    hostname_can_be_cut(wanted)
}

/// `raw` as a hostname: one over 63 bytes is cut there, and loses the hyphens at the cut.
pub fn pod_hostname(raw: &str) -> (r: String)
    requires
        can_be_cut(raw@),
    ensures
        r@ == hostname_text(raw@),
{
    let n: usize = raw.as_bytes().len();
    if n > MAX_HOSTNAME_LEN {
        let (head, _tail) = raw.split_at(MAX_HOSTNAME_LEN);
        proof {
            encode_utf8_decode_utf8(head@);
            assert(head.spec_bytes() == encode_utf8(raw@).subrange(0, MAX_HOSTNAME_LEN as int));
        }
        String::from_str(text::trim_end_char(head, '-'))
    } else {
        String::from_str(raw)
    }
}

proof fn lemma_trimmed_end_is_prefix(s: Seq<char>, c: char)
    ensures
        text::trimmed_end(s, c).len() <= s.len(),
        text::trimmed_end(s, c) == s.take(text::trimmed_end(s, c).len() as int),
        text::trimmed_end(s, c).len() > 0 ==> text::trimmed_end(s, c).last() != c,
    decreases s.len(),
{
    if s.len() > 0 && s.last() == c {
        lemma_trimmed_end_is_prefix(s.drop_last(), c);
        let t = text::trimmed_end(s, c);
        assert(s.drop_last().take(t.len() as int) == s.take(t.len() as int));
    } else {
        assert(s.take(s.len() as int) == s);
    }
}

/// A prefix of a text takes no more bytes than the text.
proof fn lemma_prefix_bytes(s: Seq<char>, k: int)
    requires
        0 <= k <= s.len(),
    ensures
        encode_utf8(s.take(k)).len() <= encode_utf8(s).len(),
    decreases s.len(),
{
    if k == 0 {
        assert(s.take(0) == Seq::<char>::empty());
        assert(encode_utf8(s.take(0)).len() == 0);
    } else {
        let t = s.drop_first();
        lemma_prefix_bytes(t, k - 1);
        assert(s.take(k).drop_first() == t.take(k - 1));
        assert(s.take(k)[0] == s[0]);
        assert(encode_utf8(s.take(k)) == encode_scalar(s[0] as u32) + encode_utf8(t.take(k - 1)));
        assert(encode_utf8(s) == encode_scalar(s[0] as u32) + encode_utf8(t));
    }
}

/// A hostname never takes more than 63 bytes and is the beginning of what was asked for; one
/// that was cut has no hyphen at its end.
pub proof fn law_hostname_fits(raw: Seq<char>)
    requires
        can_be_cut(raw),
    ensures
        encode_utf8(hostname_text(raw)).len() <= MAX_HOSTNAME_LEN,
        text::begins(raw, hostname_text(raw)),
        encode_utf8(raw).len() <= MAX_HOSTNAME_LEN ==> hostname_text(raw) == raw,
        encode_utf8(raw).len() > MAX_HOSTNAME_LEN && hostname_text(raw).len() > 0
            ==> hostname_text(raw).last() != '-',
{
    let b = encode_utf8(raw);
    if b.len() > MAX_HOSTNAME_LEN {
        encode_utf8_valid_utf8(raw);
        let h = b.subrange(0, MAX_HOSTNAME_LEN as int);
        valid_utf8_split(b, MAX_HOSTNAME_LEN as int);
        decode_utf8_encode_utf8(h);
        let d = decode_utf8(h);
        lemma_trimmed_end_is_prefix(d, '-');
        let t = text::trimmed_end(d, '-');
        lemma_prefix_bytes(d, t.len() as int);
        decode_utf8_split(b, MAX_HOSTNAME_LEN as int);
        encode_utf8_decode_utf8(raw);
        assert(raw.take(t.len() as int) == d.take(t.len() as int));
    } else {
        assert(raw.take(raw.len() as int) == raw);
    }
}

/// Adds the lines of the aliases that name at least one host.
fn push_aliases(content: &mut String, aliases: &Vec<HostAlias>)
    ensures
        final(content)@ == old(content)@ + alias_lines(aliases@),
{
    let ghost start = content@;
    let mut i: usize = 0;
    assert(aliases@.take(0) == Seq::<HostAlias>::empty());
    assert(start + alias_lines(aliases@.take(0)) =~= start);
    while i < aliases.len()
        invariant
            i <= aliases@.len(),
            content@ == start + alias_lines(aliases@.take(i as int)),
        decreases aliases@.len() - i,
    {
        assert(aliases@.take(i as int + 1).drop_last() == aliases@.take(i as int));
        assert(aliases@.take(i as int + 1).last() == aliases@[i as int]);
        let ghost before = content@;
        match &aliases[i].hostnames {
            Some(hosts) => {
                if hosts.len() > 0 {
                    let list = text::join_with(hosts, "\t");
                    content.append(aliases[i].ip.as_str());
                    content.append("\t");
                    content.append(list.as_str());
                    content.append("\n");
                }
            },
            None => {},
        }
        assert(content@ =~= start + alias_lines(aliases@.take(i as int + 1)));
        i += 1;
    }
    assert(aliases@.take(aliases@.len() as int) == aliases@);
}

impl ContainerRuntime {
    /// The path and the contents of a pod's hosts file: the standard lines, the pod's
    /// own address under its hostname, and its aliases. `None` for a pod that uses the
    /// host's own file.
    pub fn create_pod_hosts_file(&self, pod: &Pod, pod_ip: Option<&str>) -> (r: Option<
        (String, String),
    >)
        requires
            pod.spec is Some,
            can_be_cut(wanted_hostname(*pod)),
        ensures
            match r {
                None => !has_hosts_file(*pod, pod.spec->0),
                Some((path, content)) => {
                    &&& has_hosts_file(*pod, pod.spec->0)
                    &&& path@ == names::pod_path_text(
                        self.volumes_base_path@,
                        pod.metadata.name@,
                        "hosts"@,
                    )
                    &&& content@ == hosts_text(
                        *pod,
                        pod.spec->0,
                        dns::opt_str(pod_ip),
                        self.cluster_domain@,
                    )
                },
            },
    {
        let spec = match &pod.spec {
            Some(s) => s,
            None => {
                return None;
            },
        };
        let host_network: bool = match spec.host_network {
            Some(b) => b,
            None => false,
        };
        if host_network || text::same(pod.metadata.name.as_str(), "coredns") {
            return None;
        }
        let raw = downward::str_or(&spec.hostname, pod.metadata.name.as_str());
        let host = pod_hostname(raw);
        let mut content = String::from_str(
            "# Kubernetes-managed hosts file.\n127.0.0.1\tlocalhost\n::1\tlocalhost ip6-localhost ip6-loopback\nfe00::\tip6-localnet\nfe00::\tip6-mcastprefix\nfe00::1\tip6-allnodes\nfe00::2\tip6-allrouters\n",
        );
        let ghost base = content@;
        let ghost own = match dns::opt_str(pod_ip) {
            Some(ip) => own_line(
                ip,
                host@,
                spec.subdomain,
                api::namespace_of(*pod),
                self.cluster_domain@,
            ),
            None => Seq::empty(),
        };
        match pod_ip {
            Some(ip) => {
                let mut line = text::cat3(ip, "\t", host.as_str());
                match &spec.subdomain {
                    Some(sub) => {
                        let mut fqdn = text::cat5(
                            host.as_str(),
                            ".",
                            sub.as_str(),
                            ".",
                            pod.namespace(),
                        );
                        fqdn.append(".svc.");
                        fqdn.append(self.cluster_domain.as_str());
                        line.append("\t");
                        line.append(fqdn.as_str());
                    },
                    None => {},
                }
                line.append("\n");
                content.append(line.as_str());
                assert(content@ == base + own);
            },
            None => {
                assert(content@ =~= base + own);
            },
        }
        match &spec.host_aliases {
            Some(a) => {
                push_aliases(&mut content, a);
            },
            None => {
                assert(content@ =~= base + own + Seq::<char>::empty());
            },
        }
        Some((names::pod_path(
            self.volumes_base_path.as_str(),
            pod.metadata.name.as_str(),
            "hosts",
        ), content))
    }
}

/// A pod that names no host is called by its own name.
pub proof fn law_pods_are_called_by_their_name(pod: Pod)
    ensures
        pod.spec is None || pod.spec->0.hostname is None ==> wanted_hostname(pod)
            == pod.metadata.name@,
        pod.spec matches Some(s) ==> s.hostname matches Some(h) ==> wanted_hostname(pod) == h@,
{
}

/// A text that stands in one part of another stands in the whole.
proof fn lemma_has_in(a: Seq<char>, b: Seq<char>, c: Seq<char>)
    ensures
        text::has(a + b + c, b),
{
    let k = a.len() as int;
    assert((a + b + c).subrange(k, k + b.len()) =~= b);
    assert(text::occurs_at(a + b + c, b, k));
}

proof fn lemma_alias_in(aliases: Seq<HostAlias>, i: int)
    requires
        0 <= i < aliases.len(),
        aliases[i].hostnames is Some,
        aliases[i].hostnames->0@.len() > 0,
    ensures
        exists|a: Seq<char>, c: Seq<char>|
            alias_lines(aliases) == a + (aliases[i].ip@ + "\t"@ + text::join(
                text::texts(aliases[i].hostnames->0@),
                "\t"@,
            ) + "\n"@) + c,
    decreases aliases.len(),
{
    let line = aliases[i].ip@ + "\t"@ + text::join(
        text::texts(aliases[i].hostnames->0@),
        "\t"@,
    ) + "\n"@;
    let short = aliases.drop_last();
    let before = alias_lines(short);
    let all = alias_lines(aliases);
    let none = Seq::<char>::empty();
    if i == aliases.len() - 1 {
        assert(all =~= before + line + none);
    } else {
        assert(short[i] == aliases[i]);
        lemma_alias_in(short, i);
        let (a, c) = choose|a: Seq<char>, c: Seq<char>| before == a + line + c;
        let more = all.skip(before.len() as int);
        assert(all =~= before + more);
        assert(all =~= a + line + (c + more));
    }
}

/// A pod's hosts file begins with the usual lines; it tells the pod's address under its
/// hostname, where there is one, with its full name in the cluster where it has a subdomain;
/// and it has a line for each alias that names a host, with all of its names.
pub proof fn law_hosts_files_tell_address_and_aliases(
    pod: Pod,
    spec: PodSpec,
    ip: Seq<char>,
    domain: Seq<char>,
    i: int,
)
    ensures
        ({
            let t = hosts_text(pod, spec, Some(ip), domain);
            let host = hostname_text(wanted_hostname(pod));
            &&& text::begins(t, standard_hosts())
            &&& text::begins(hosts_text(pod, spec, None, domain), standard_hosts())
            &&& spec.subdomain is None ==> text::has(t, ip + "\t"@ + host + "\n"@)
            &&& spec.subdomain matches Some(sub) ==> text::has(
                t,
                ip + "\t"@ + host + "\t"@ + (host + "."@ + sub@ + "."@ + api::namespace_of(pod)
                    + ".svc."@ + domain) + "\n"@,
            )
            &&& spec.host_aliases matches Some(v) ==> 0 <= i < v@.len() && v@[i].hostnames is Some
                && v@[i].hostnames->0@.len() > 0 ==> text::has(
                t,
                v@[i].ip@ + "\t"@ + text::join(text::texts(v@[i].hostnames->0@), "\t"@) + "\n"@,
            )
        }),
{
    let t = hosts_text(pod, spec, Some(ip), domain);
    let host = hostname_text(wanted_hostname(pod));
    let s = standard_hosts();
    let own = own_line(ip, host, spec.subdomain, api::namespace_of(pod), domain);
    let aliases = match spec.host_aliases {
        Some(a) => alias_lines(a@),
        None => Seq::empty(),
    };
    assert(t == s + own + aliases);
    assert(t.take(s.len() as int) =~= s);
    let u = hosts_text(pod, spec, None, domain);
    assert(u.take(s.len() as int) =~= s);
    lemma_has_in(s, own, aliases);
    if let Some(v) = spec.host_aliases {
        if 0 <= i < v@.len() {
            if let Some(ns) = v@[i].hostnames {
                if ns@.len() > 0 {
                    let line = v@[i].ip@ + "\t"@ + text::join(text::texts(ns@), "\t"@) + "\n"@;
                    lemma_alias_in(v@, i);
                    let (a, c) = choose|a: Seq<char>, c: Seq<char>| aliases == a + line + c;
                    assert(t =~= (s + own + a) + line + c);
                    lemma_has_in(s + own + a, line, c);
                }
            }
        }
    }
}

/// A pod has a hosts file of its own unless it uses the host's network or serves the cluster's
/// names.
pub proof fn law_pods_have_their_own_hosts_file(pod: Pod, spec: PodSpec)
    ensures
        spec.host_network == Some(true) ==> !has_hosts_file(pod, spec),
        pod.metadata.name@ == "coredns"@ ==> !has_hosts_file(pod, spec),
        spec.host_network != Some(true) && pod.metadata.name@ != "coredns"@ ==> has_hosts_file(
            pod,
            spec,
        ),
{
}

/// The hosts file of a pod without aliases holds the standard entries and the pod's own line,
/// and nothing else; without an address there is no such line.
pub proof fn law_hosts_files_hold_nothing_else(
    pod: Pod,
    spec: PodSpec,
    ip: Seq<char>,
    domain: Seq<char>,
)
    requires
        spec.host_aliases is None,
    ensures
        hosts_text(pod, spec, None, domain) == standard_hosts(),
        spec.subdomain is None ==> hosts_text(pod, spec, Some(ip), domain) == standard_hosts() + (ip
            + "\t"@ + hostname_text(wanted_hostname(pod)) + "\n"@),
{
    assert(standard_hosts() + Seq::<char>::empty() + Seq::<char>::empty() =~= standard_hosts());
    assert(hosts_text(pod, spec, Some(ip), domain) =~= standard_hosts() + own_line(
        ip,
        hostname_text(wanted_hostname(pod)),
        spec.subdomain,
        api::namespace_of(pod),
        domain,
    ));
}

/// A hostname has at most 63 bytes, and one that has no more is not cut.
pub proof fn law_hostnames_have_sixty_three_bytes(raw: Seq<char>)
    requires
        encode_utf8(raw).len() > 63 ==> is_char_boundary(encode_utf8(raw), 63),
    ensures
        encode_utf8(hostname_text(raw)).len() <= 63,
        encode_utf8(raw).len() <= 63 ==> hostname_text(raw) == raw,
        can_be_cut(raw),
{
    law_hostname_fits(raw);
}

} // verus!
