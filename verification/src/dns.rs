//! Name resolution of pods: the nameserver of the host, the resolver configuration by
//! DNS policy, and what a pod's own `dnsConfig` makes of it.

use crate::api;
use crate::api::{Pod, PodDNSConfig, PodDNSConfigOption};
use crate::downward;
use crate::ip;
use crate::runtime::ContainerRuntime;
use crate::text;
use vstd::prelude::*;
use vstd::string::*;

verus! {

/// The first nameserver among the lines `ls` whose address is no loopback address.
pub open spec fn usable_nameserver(ls: Seq<Seq<char>>) -> Option<Seq<char>>
    decreases ls.len(),
{
    if ls.len() == 0 {
        None
    } else if text::begins(ls[0], "nameserver"@) && !ip::is_loopback(
        text::trimmed(ls[0].skip("nameserver"@.len() as int)),
    ) {
        Some(text::trimmed(ls[0].skip("nameserver"@.len() as int)))
    } else {
        usable_nameserver(ls.drop_first())
    }
}

/// The first nameserver of a resolver configuration that is not on the host's own
/// loopback interface, which no pod can reach. What is no address at all passes.
pub fn first_non_loopback_nameserver(resolv_conf: &str) -> (r: Option<String>)
    ensures
        text::opt_text(r) == usable_nameserver(text::lines(resolv_conf@)),
{
    let ls = text::lines_of(resolv_conf);
    let ghost all = text::texts(ls@);
    let mut i: usize = 0;
    assert(all.skip(0) == all);
    while i < ls.len()
        invariant
            i <= ls@.len(),
            all == text::texts(ls@),
            all == text::lines(resolv_conf@),
            usable_nameserver(all) == usable_nameserver(all.skip(i as int)),
        decreases ls@.len() - i,
    {
        assert(all.skip(i as int)[0] == ls@[i as int]@);
        assert(all.skip(i as int).drop_first() == all.skip(i + 1));
        if let Some(rest) = text::strip_prefix(ls[i].as_str(), "nameserver") {
            let ns = text::trim(rest);
            if !ip::loopback(ns) {
                return Some(String::from_str(ns));
            }
        }
        i += 1;
    }
    None
}

/// The nameserver of the host that a pod can use: of the resolver configuration, or
/// else of the file in which the host's own resolver lists those it forwards to.
pub open spec fn host_nameserver(
    resolv_conf: Option<Seq<char>>,
    uplink: Option<Seq<char>>,
) -> Option<Seq<char>> {
    let first = match resolv_conf {
        Some(c) => usable_nameserver(text::lines(c)),
        None => None,
    };
    match first {
        Some(ns) => Some(ns),
        None => match uplink {
            Some(c) => usable_nameserver(text::lines(c)),
            None => None,
        },
    }
}

/// The characters of an optional text that is borrowed.
pub open spec fn opt_str(o: Option<&str>) -> Option<Seq<char>> {
    match o {
        Some(s) => Some(s@),
        None => None,
    }
}

/// The nameserver of the host that a pod can use. The arguments are what the two files
/// hold, where they can be read.
pub fn host_nameserver_for_pods(resolv_conf: Option<&str>, uplink: Option<&str>) -> (r: Option<
    String,
>)
    ensures
        text::opt_text(r) == host_nameserver(opt_str(resolv_conf), opt_str(uplink)),
{
    if let Some(c) = resolv_conf {
        if let Some(ns) = first_non_loopback_nameserver(c) {
            return Some(ns);
        }
    }
    match uplink {
        Some(c) => first_non_loopback_nameserver(c),
        None => None,
    }
}

/// The end of a resolver configuration for the cluster's own names.
pub open spec fn cluster_search(namespace: Seq<char>, domain: Seq<char>) -> Seq<char> {
    "\nsearch "@ + namespace + ".svc."@ + domain + " svc."@ + domain + " "@ + domain
        + "\noptions ndots:5\n"@
}

/// The pod's DNS policy, `ClusterFirst` where it names none.
pub open spec fn dns_policy_of(pod: Pod) -> Seq<char> {
    match pod.spec {
        Some(s) => downward::text_or(s.dns_policy, "ClusterFirst"@),
        None => "ClusterFirst"@,
    }
}

/// The pod runs in the host's network.
pub open spec fn on_host_network(pod: Pod) -> bool {
    match pod.spec {
        Some(s) => s.host_network == Some(true),
        None => false,
    }
}

/// The pod's resolver configuration by its DNS policy. `host` and `uplink` are what the
/// host's two files hold, where they can be read.
pub open spec fn policy_resolv_conf(
    pod: Pod,
    dns: Seq<char>,
    domain: Seq<char>,
    host: Option<Seq<char>>,
    uplink: Option<Seq<char>>,
) -> Seq<char> {
    let policy = dns_policy_of(pod);
    let search = cluster_search(api::namespace_of(pod), domain);
    let cluster = "nameserver "@ + dns + search;
    if policy == "None"@ {
        Seq::empty()
    } else if policy == "Default"@ || (policy == "ClusterFirst"@ && on_host_network(pod)) {
        match host {
            Some(c) => c,
            None => cluster,
        }
    } else {
        match host_nameserver(host, uplink) {
            Some(ns) => "nameserver "@ + ns + "\nnameserver "@ + dns + search,
            None => cluster,
        }
    }
}

/// The nameservers of the lines of a resolver configuration.
pub open spec fn nameservers_in(ls: Seq<Seq<char>>) -> Seq<Seq<char>>
    decreases ls.len(),
{
    if ls.len() == 0 {
        Seq::empty()
    } else {
        let t = text::trimmed(ls.last());
        let rest = nameservers_in(ls.drop_last());
        if text::begins(t, "nameserver "@) {
            rest.push(t.skip("nameserver "@.len() as int))
        } else {
            rest
        }
    }
}

/// The search domains of the lines of a resolver configuration.
pub open spec fn searches_in(ls: Seq<Seq<char>>) -> Seq<Seq<char>>
    decreases ls.len(),
{
    if ls.len() == 0 {
        Seq::empty()
    } else {
        let t = text::trimmed(ls.last());
        let rest = searches_in(ls.drop_last());
        if !text::begins(t, "nameserver "@) && text::begins(t, "search "@) {
            rest + text::words(t.skip("search "@.len() as int))
        } else {
            rest
        }
    }
}

/// The options of the lines of a resolver configuration.
pub open spec fn options_in(ls: Seq<Seq<char>>) -> Seq<Seq<char>>
    decreases ls.len(),
{
    if ls.len() == 0 {
        Seq::empty()
    } else {
        let t = text::trimmed(ls.last());
        let rest = options_in(ls.drop_last());
        if !text::begins(t, "nameserver "@) && !text::begins(t, "search "@) && text::begins(
            t,
            "options "@,
        ) {
            rest + text::words(t.skip("options "@.len() as int))
        } else {
            rest
        }
    }
}

/// `first`, and behind it those of `more` that are not there yet.
pub open spec fn merged(first: Seq<Seq<char>>, more: Seq<Seq<char>>) -> Seq<Seq<char>>
    decreases more.len(),
{
    if more.len() == 0 {
        first
    } else {
        let m = merged(first, more.drop_last());
        if m.contains(more.last()) {
            m
        } else {
            m.push(more.last())
        }
    }
}

/// A resolver option: `name:value`, or the name alone.
pub open spec fn option_text(o: PodDNSConfigOption) -> Seq<char> {
    match o.value {
        Some(v) => o.name@ + ":"@ + v@,
        None => o.name@,
    }
}

/// Those of `opts` that do not begin with `name`.
pub open spec fn options_without(opts: Seq<Seq<char>>, name: Seq<char>) -> Seq<Seq<char>>
    decreases opts.len(),
{
    if opts.len() == 0 {
        Seq::empty()
    } else {
        let rest = options_without(opts.drop_last(), name);
        if text::begins(opts.last(), name) {
            rest
        } else {
            rest.push(opts.last())
        }
    }
}

/// `opts` with the pod's own options, each in place of those of its name.
pub open spec fn options_with(opts: Seq<Seq<char>>, own: Seq<PodDNSConfigOption>) -> Seq<Seq<char>>
    decreases own.len(),
{
    if own.len() == 0 {
        opts
    } else {
        options_without(options_with(opts, own.drop_last()), own.last().name@).push(
            option_text(own.last()),
        )
    }
}

/// One line for each nameserver.
pub open spec fn nameserver_lines(ns: Seq<Seq<char>>) -> Seq<char>
    decreases ns.len(),
{
    if ns.len() == 0 {
        Seq::empty()
    } else {
        nameserver_lines(ns.drop_last()) + "nameserver "@ + ns.last() + "\n"@
    }
}

/// A resolver configuration from its parts.
pub open spec fn resolv_conf_text(
    ns: Seq<Seq<char>>,
    searches: Seq<Seq<char>>,
    options: Seq<Seq<char>>,
) -> Seq<char> {
    nameserver_lines(ns) + (if searches.len() == 0 {
        Seq::empty()
    } else {
        "search "@ + text::join(searches, " "@) + "\n"@
    }) + (if options.len() == 0 {
        Seq::empty()
    } else {
        "options "@ + text::join(options, " "@) + "\n"@
    })
}

/// A resolver configuration with a pod's `dnsConfig` applied to it.
pub open spec fn configured(content: Seq<char>, c: PodDNSConfig) -> Seq<char> {
    let ls = text::lines(content);
    resolv_conf_text(
        match c.nameservers {
            Some(own) => merged(text::texts(own@), nameservers_in(ls)),
            None => nameservers_in(ls),
        },
        match c.searches {
            Some(own) => merged(text::texts(own@), searches_in(ls)),
            None => searches_in(ls),
        },
        match c.options {
            Some(own) => options_with(options_in(ls), own@),
            None => options_in(ls),
        },
    )
}

/// The resolver configuration of a pod's containers. The pod of the cluster's own DNS
/// server gets none; no file is made of an empty one.
pub open spec fn pod_resolv_conf(
    pod: Pod,
    dns: Seq<char>,
    domain: Seq<char>,
    host: Option<Seq<char>>,
    uplink: Option<Seq<char>>,
) -> Option<Seq<char>> {
    if pod.metadata.name@ == "coredns"@ {
        None
    } else {
        let base = policy_resolv_conf(pod, dns, domain, host, uplink);
        let content = match pod.spec {
            Some(s) => match s.dns_config {
                Some(c) => configured(base, c),
                None => base,
            },
            None => base,
        };
        if content.len() == 0 {
            None
        } else {
            Some(content)
        }
    }
}

/// `first`, and behind it those of `more` that are not there yet.
pub fn merge(first: &Vec<String>, more: &Vec<String>) -> (r: Vec<String>)
    ensures
        text::texts(r@) == merged(text::texts(first@), text::texts(more@)),
{
    let mut r = text::copy_list(first);
    let ghost all = text::texts(more@);
    let mut i: usize = 0;
    assert(all.take(0) == Seq::<Seq<char>>::empty());
    while i < more.len()
        invariant
            i <= more@.len(),
            all == text::texts(more@),
            text::texts(r@) == merged(text::texts(first@), all.take(i as int)),
        decreases more@.len() - i,
    {
        assert(all.take(i as int + 1).drop_last() == all.take(i as int));
        assert(all.take(i as int + 1).last() == more@[i as int]@);
        if !text::list_has(&r, more[i].as_str()) {
            text::push_text(&mut r, more[i].clone());
        }
        i += 1;
    }
    assert(all.take(all.len() as int) == all);
    r
}

/// A resolver option: `name:value`, or the name alone.
pub fn show_option(o: &PodDNSConfigOption) -> (r: String)
    ensures
        r@ == option_text(*o),
{
    match &o.value {
        Some(v) => text::cat3(o.name.as_str(), ":", v.as_str()),
        None => o.name.clone(),
    }
}

/// Those of `opts` that do not begin with `name`.
fn drop_options(opts: &Vec<String>, name: &str) -> (r: Vec<String>)
    ensures
        text::texts(r@) == options_without(text::texts(opts@), name@),
{
    let mut r: Vec<String> = Vec::new();
    let ghost all = text::texts(opts@);
    let mut i: usize = 0;
    assert(all.take(0) == Seq::<Seq<char>>::empty());
    assert(text::texts(r@) =~= Seq::<Seq<char>>::empty());
    while i < opts.len()
        invariant
            i <= opts@.len(),
            all == text::texts(opts@),
            text::texts(r@) == options_without(all.take(i as int), name@),
        decreases opts@.len() - i,
    {
        assert(all.take(i as int + 1).drop_last() == all.take(i as int));
        assert(all.take(i as int + 1).last() == opts@[i as int]@);
        if !text::starts_with(opts[i].as_str(), name) {
            text::push_text(&mut r, opts[i].clone());
        }
        i += 1;
    }
    assert(all.take(all.len() as int) == all);
    r
}

/// Adds the words of `s` to a list.
fn push_words(list: &mut Vec<String>, s: &str)
    ensures
        text::texts(final(list)@) == text::texts(old(list)@) + text::words(s@),
{
    let ghost start = text::texts(list@);
    let ws = text::words_of(s);
    let ghost all = text::texts(ws@);
    let mut i: usize = 0;
    assert(start + all.take(0) =~= start);
    while i < ws.len()
        invariant
            i <= ws@.len(),
            all == text::texts(ws@),
            text::texts(list@) == start + all.take(i as int),
        decreases ws@.len() - i,
    {
        text::push_text(list, ws[i].clone());
        assert(text::texts(list@) =~= start + all.take(i as int + 1));
        i += 1;
    }
    assert(all.take(all.len() as int) == all);
}

/// The nameservers, search domains and options of a resolver configuration.
pub fn parse_resolv_conf(content: &str) -> (r: (Vec<String>, Vec<String>, Vec<String>))
    ensures
        text::texts(r.0@) == nameservers_in(text::lines(content@)),
        text::texts(r.1@) == searches_in(text::lines(content@)),
        text::texts(r.2@) == options_in(text::lines(content@)),
{
    let mut ns: Vec<String> = Vec::new();
    let mut searches: Vec<String> = Vec::new();
    let mut options: Vec<String> = Vec::new();
    let ls = text::lines_of(content);
    let ghost all = text::texts(ls@);
    let mut i: usize = 0;
    assert(all.take(0) == Seq::<Seq<char>>::empty());
    assert(text::texts(ns@) =~= Seq::<Seq<char>>::empty());
    assert(text::texts(searches@) =~= Seq::<Seq<char>>::empty());
    assert(text::texts(options@) =~= Seq::<Seq<char>>::empty());
    while i < ls.len()
        invariant
            i <= ls@.len(),
            all == text::texts(ls@),
            text::texts(ns@) == nameservers_in(all.take(i as int)),
            text::texts(searches@) == searches_in(all.take(i as int)),
            text::texts(options@) == options_in(all.take(i as int)),
        decreases ls@.len() - i,
    {
        assert(all.take(i as int + 1).drop_last() == all.take(i as int));
        assert(all.take(i as int + 1).last() == ls@[i as int]@);
        let line = text::trim(ls[i].as_str());
        if let Some(rest) = text::strip_prefix(line, "nameserver ") {
            text::push_text(&mut ns, String::from_str(rest));
        } else if let Some(rest) = text::strip_prefix(line, "search ") {
            push_words(&mut searches, rest);
        } else if let Some(rest) = text::strip_prefix(line, "options ") {
            push_words(&mut options, rest);
        }
        i += 1;
    }
    assert(all.take(all.len() as int) == all);
    (ns, searches, options)
}

/// A resolver configuration from its parts.
fn render_resolv_conf(ns: &Vec<String>, searches: &Vec<String>, options: &Vec<String>) -> (r:
    String)
    ensures
        r@ == resolv_conf_text(text::texts(ns@), text::texts(searches@), text::texts(options@)),
{
    let mut r = String::new();
    let ghost all = text::texts(ns@);
    let mut i: usize = 0;
    assert(all.take(0) == Seq::<Seq<char>>::empty());
    while i < ns.len()
        invariant
            i <= ns@.len(),
            all == text::texts(ns@),
            r@ == nameserver_lines(all.take(i as int)),
        decreases ns@.len() - i,
    {
        assert(all.take(i as int + 1).drop_last() == all.take(i as int));
        assert(all.take(i as int + 1).last() == ns@[i as int]@);
        r.append("nameserver ");
        r.append(ns[i].as_str());
        r.append("\n");
        i += 1;
    }
    assert(all.take(all.len() as int) == all);
    let ghost head = r@;
    if searches.len() > 0 {
        let line = text::join_with(searches, " ");
        let part = text::cat3("search ", line.as_str(), "\n");
        r.append(part.as_str());
    }
    let ghost mid = r@;
    if options.len() > 0 {
        let line = text::join_with(options, " ");
        let part = text::cat3("options ", line.as_str(), "\n");
        r.append(part.as_str());
    }
    assert(searches@.len() == 0 ==> mid =~= head + Seq::<char>::empty());
    assert(options@.len() == 0 ==> r@ =~= mid + Seq::<char>::empty());
    r
}

/// Applies a pod's `dnsConfig` to a resolver configuration: its own nameservers and
/// search domains come first, its own options replace those of the same name.
pub fn apply_dns_config(content: &str, c: &PodDNSConfig) -> (r: String)
    ensures
        r@ == configured(content@, *c),
{
    let (ns0, searches0, options0) = parse_resolv_conf(content);
    let ns = match &c.nameservers {
        Some(own) => merge(own, &ns0),
        None => ns0,
    };
    let searches = match &c.searches {
        Some(own) => merge(own, &searches0),
        None => searches0,
    };
    let options = match &c.options {
        None => options0,
        Some(own) => {
            let ghost base = text::texts(options0@);
            let mut opts = options0;
            let mut i: usize = 0;
            assert(own@.take(0) == Seq::<PodDNSConfigOption>::empty());
            while i < own.len()
                invariant
                    i <= own@.len(),
                    text::texts(opts@) == options_with(base, own@.take(i as int)),
                decreases own@.len() - i,
            {
                assert(own@.take(i as int + 1).drop_last() == own@.take(i as int));
                assert(own@.take(i as int + 1).last() == own@[i as int]);
                opts = drop_options(&opts, own[i].name.as_str());
                text::push_text(&mut opts, show_option(&own[i]));
                i += 1;
            }
            assert(own@.take(own@.len() as int) == own@);
            opts
        },
    };
    render_resolv_conf(&ns, &searches, &options)
}

impl ContainerRuntime {
    /// The end of a resolver configuration for the cluster's own names.
    fn search_part(&self, namespace: &str) -> (r: String)
        ensures
            r@ == cluster_search(namespace@, self.cluster_domain@),
    {
        let d = self.cluster_domain.as_str();
        let mut r = text::cat5("\nsearch ", namespace, ".svc.", d, " svc.");
        r.append(d);
        r.append(" ");
        r.append(d);
        r.append("\noptions ndots:5\n");
        r
    }

    /// The resolver configuration of a pod by its DNS policy.
    fn base_resolv_conf(&self, pod: &Pod, host: Option<&str>, uplink: Option<&str>) -> (r: String)
        ensures
            r@ == policy_resolv_conf(
                *pod,
                self.cluster_dns@,
                self.cluster_domain@,
                opt_str(host),
                opt_str(uplink),
            ),
    {
        let policy: &str = match &pod.spec {
            Some(s) => downward::str_or(&s.dns_policy, "ClusterFirst"),
            None => "ClusterFirst",
        };
        let host_network: bool = match &pod.spec {
            Some(s) => match s.host_network {
                Some(b) => b,
                None => false,
            },
            None => false,
        };
        if text::same(policy, "None") {
            return String::new();
        }
        let search = self.search_part(pod.namespace());
        let dns = self.cluster_dns.as_str();
        let cluster = text::cat3("nameserver ", dns, search.as_str());
        if text::same(policy, "Default") || (text::same(policy, "ClusterFirst") && host_network) {
            match host {
                Some(c) => String::from_str(c),
                None => cluster,
            }
        } else {
            match host_nameserver_for_pods(host, uplink) {
                Some(ns) => text::cat5(
                    "nameserver ",
                    ns.as_str(),
                    "\nnameserver ",
                    dns,
                    search.as_str(),
                ),
                None => cluster,
            }
        }
    }

    /// The resolver configuration of a pod's containers, where it has one of its own.
    /// The arguments are what the host's two files hold, where they can be read.
    pub fn resolv_conf(&self, pod: &Pod, host: Option<&str>, uplink: Option<&str>) -> (r: Option<
        String,
    >)
        ensures
            text::opt_text(r) == pod_resolv_conf(
                *pod,
                self.cluster_dns@,
                self.cluster_domain@,
                opt_str(host),
                opt_str(uplink),
            ),
    {
        if text::same(pod.metadata.name.as_str(), "coredns") {
            return None;
        }
        let base = self.base_resolv_conf(pod, host, uplink);
        let content = match &pod.spec {
            Some(s) => match &s.dns_config {
                Some(c) => apply_dns_config(base.as_str(), c),
                None => base,
            },
            None => base,
        };
        if content.as_str().is_empty() {
            None
        } else {
            Some(content)
        }
    }
}

/// A pod under the policy `None` that brings no configuration of its own gets no
/// resolver configuration at all.
pub proof fn law_policy_none_alone_gives_nothing(
    pod: Pod,
    dns: Seq<char>,
    domain: Seq<char>,
    host: Option<Seq<char>>,
    uplink: Option<Seq<char>>,
)
    requires
        dns_policy_of(pod) == "None"@,
        pod.spec matches Some(s) ==> s.dns_config is None,
    ensures
        pod_resolv_conf(pod, dns, domain, host, uplink) is None,
{
}

/// Merging keeps the first list as it is at the front, and brings in everything of the
/// second.
pub proof fn law_merge_keeps_both(first: Seq<Seq<char>>, more: Seq<Seq<char>>)
    ensures
        merged(first, more).len() >= first.len(),
        merged(first, more).take(first.len() as int) == first,
        forall|i: int| 0 <= i < more.len() ==> merged(first, more).contains(#[trigger] more[i]),
    decreases more.len(),
{
    if more.len() == 0 {
        assert(first.take(first.len() as int) == first);
    } else {
        let t = more.drop_last();
        law_merge_keeps_both(first, t);
        let m = merged(first, t);
        let r = merged(first, more);
        assert(r.take(first.len() as int) =~= m.take(first.len() as int));
        assert forall|i: int| 0 <= i < more.len() implies r.contains(#[trigger] more[i]) by {
            if i < t.len() {
                assert(t[i] == more[i]);
                assert(m.contains(t[i]));
                let k = choose|k: int| 0 <= k < m.len() && m[k] == t[i];
                assert(r[k] == more[i]);
            } else if !m.contains(more.last()) {
                assert(r[r.len() - 1] == more[i]);
            }
        }
    }
}

/// The host's nameserver that pods get is never a loopback address.
pub proof fn law_pods_get_no_loopback_nameserver(ls: Seq<Seq<char>>)
    ensures
        usable_nameserver(ls) matches Some(ns) ==> !ip::is_loopback(ns),
    decreases ls.len(),
{
    if ls.len() > 0 {
        law_pods_get_no_loopback_nameserver(ls.drop_first());
    }
}

/// A pod resolves names as its policy says. By `Default`, and by `ClusterFirst` in the host's
/// network, it has the host's own configuration, where that can be read. By any other policy
/// but `None` it asks the cluster's server, after the host's where there is one that it can
/// reach, and looks for names in its namespace and the cluster first.
pub proof fn law_policies_decide_who_is_asked(
    pod: Pod,
    dns: Seq<char>,
    domain: Seq<char>,
    host: Option<Seq<char>>,
    uplink: Option<Seq<char>>,
)
    ensures
        ({
            let policy = match pod.spec {
                Some(s) => match s.dns_policy {
                    Some(p) => p@,
                    None => "ClusterFirst"@,
                },
                None => "ClusterFirst"@,
            };
            let on_host = pod.spec is Some && pod.spec->0.host_network == Some(true);
            let as_host = policy == "Default"@ || (policy == "ClusterFirst"@ && on_host);
            let r = policy_resolv_conf(pod, dns, domain, host, uplink);
            let cluster = "nameserver "@ + dns + "\nsearch "@ + api::namespace_of(pod) + ".svc."@
                + domain + " svc."@ + domain + " "@ + domain + "\noptions ndots:5\n"@;
            &&& policy == "None"@ ==> r.len() == 0
            &&& policy != "None"@ && as_host ==> {
                &&& host matches Some(c) ==> r == c
                &&& host is None ==> r == cluster
            }
            &&& policy != "None"@ && !as_host ==> {
                &&& text::ends(r, cluster)
                &&& host_nameserver(host, uplink) is None ==> r == cluster
                &&& host_nameserver(host, uplink) matches Some(ns) ==> text::begins(
                    r,
                    "nameserver "@ + ns + "\n"@,
                )
            }
        }),
{
    let r = policy_resolv_conf(pod, dns, domain, host, uplink);
    let cluster = "nameserver "@ + dns + "\nsearch "@ + api::namespace_of(pod) + ".svc."@ + domain
        + " svc."@ + domain + " "@ + domain + "\noptions ndots:5\n"@;
    assert("nameserver "@ + dns + cluster_search(api::namespace_of(pod), domain) =~= cluster);
    assert(cluster.skip(0) =~= cluster);
    if let Some(ns) = host_nameserver(host, uplink) {
        reveal_strlit("\nnameserver ");
        reveal_strlit("nameserver ");
        reveal_strlit("\n");
        assert("\nnameserver "@ =~= "\n"@ + "nameserver "@);
        let long = "nameserver "@ + ns + "\nnameserver "@ + dns + cluster_search(
            api::namespace_of(pod),
            domain,
        );
        let head = "nameserver "@ + ns + "\n"@;
        assert(long =~= head + cluster);
        assert(long.take(head.len() as int) =~= head);
        assert(long.skip(long.len() - cluster.len()) =~= cluster);
    }
}

/// The host's nameserver that a pod uses is the first that it can reach in the host's
/// configuration, or else in that of the servers that the host forwards to.
pub proof fn law_the_hosts_own_server_comes_first(
    resolv_conf: Option<Seq<char>>,
    uplink: Option<Seq<char>>,
)
    ensures
        resolv_conf matches Some(c) ==> usable_nameserver(text::lines(c)) is Some
            ==> host_nameserver(resolv_conf, uplink) == usable_nameserver(text::lines(c)),
        resolv_conf is None ==> (uplink matches Some(u) ==> host_nameserver(resolv_conf, uplink)
            == usable_nameserver(text::lines(u))),
        resolv_conf matches Some(c) ==> usable_nameserver(text::lines(c)) is None ==> (
        uplink matches Some(u) ==> host_nameserver(resolv_conf, uplink) == usable_nameserver(
            text::lines(u),
        )),
        resolv_conf is None && uplink is None ==> host_nameserver(resolv_conf, uplink) is None,
{
}

/// Of the lines of a configuration the first that names a server off the loopback interface
/// gives the server; lines that name none, or one on it, are passed over.
pub proof fn law_the_first_reachable_server_is_used(
    before: Seq<Seq<char>>,
    server: Seq<char>,
    after: Seq<Seq<char>>,
)
    requires
        forall|i: int|
            0 <= i < before.len() ==> !text::begins(#[trigger] before[i], "nameserver"@)
                || ip::is_loopback(text::trimmed(before[i].skip("nameserver"@.len() as int))),
        !ip::is_loopback(text::trimmed(server)),
    ensures
        usable_nameserver(before + seq!["nameserver"@ + server] + after) == Some(
            text::trimmed(server),
        ),
        usable_nameserver(before) is None,
    decreases before.len(),
{
    let line = "nameserver"@ + server;
    let all = before + seq![line] + after;
    if before.len() == 0 {
        assert(all[0] == line);
        assert(line.take("nameserver"@.len() as int) =~= "nameserver"@);
        assert(line.skip("nameserver"@.len() as int) =~= server);
    } else {
        let rest = before.drop_first();
        assert(forall|i: int| 0 <= i < rest.len() ==> (#[trigger] rest[i]) == before[i + 1]);
        law_the_first_reachable_server_is_used(rest, server, after);
        assert(all[0] == before[0]);
        assert(all.drop_first() =~= rest + seq![line] + after);
    }
}

proof fn lemma_has_part(a: Seq<char>, b: Seq<char>, c: Seq<char>, x: Seq<char>)
    requires
        text::has(b, x),
    ensures
        text::has(a + b + c, x),
{
    let k = choose|k: int| text::occurs_at(b, x, k);
    let s = a + b + c;
    let m = a.len() + k;
    assert(s.subrange(m, m + x.len()) =~= b.subrange(k, k + x.len()));
    assert(text::occurs_at(s, x, m));
}

proof fn lemma_server_line(ns: Seq<Seq<char>>, i: int)
    requires
        0 <= i < ns.len(),
    ensures
        text::has(nameserver_lines(ns), "nameserver "@ + ns[i] + "\n"@),
        i == 0 ==> text::begins(nameserver_lines(ns), "nameserver "@ + ns[0] + "\n"@),
    decreases ns.len(),
{
    let line = "nameserver "@ + ns[i] + "\n"@;
    let short = ns.drop_last();
    let before = nameserver_lines(short);
    let all = nameserver_lines(ns);
    let none = Seq::<char>::empty();
    if i == ns.len() - 1 {
        assert(all =~= before + line + none);
        assert(line.subrange(0, line.len() as int) =~= line);
        assert(text::occurs_at(line, line, 0));
        lemma_has_part(before, line, none, line);
        if i == 0 {
            assert(before =~= none);
            assert(all.take(line.len() as int) =~= line);
        }
    } else {
        assert(short[i] == ns[i]);
        lemma_server_line(short, i);
        let more = all.skip(before.len() as int);
        assert(all =~= none + before + more);
        lemma_has_part(none, before, more, line);
        if i == 0 {
            assert(all.take(line.len() as int) =~= before.take(line.len() as int));
        }
    }
}

/// A word of a list stands in the list's text.
proof fn lemma_word_in(parts: Seq<Seq<char>>, sep: Seq<char>, i: int)
    requires
        0 <= i < parts.len(),
    ensures
        text::has(text::join(parts, sep), parts[i]),
    decreases parts.len(),
{
    let all = text::join(parts, sep);
    let none = Seq::<char>::empty();
    let x = parts[i];
    assert(x.subrange(0, x.len() as int) =~= x);
    assert(text::occurs_at(x, x, 0));
    if parts.len() == 1 {
        assert(all == x);
    } else if i == parts.len() - 1 {
        let before = text::join(parts.drop_last(), sep) + sep;
        assert(all =~= before + x + none);
        lemma_has_part(before, x, none, x);
    } else {
        let short = parts.drop_last();
        assert(short[i] == x);
        lemma_word_in(short, sep, i);
        let before = text::join(short, sep);
        let more = sep + parts.last();
        assert(all =~= none + before + more);
        lemma_has_part(none, before, more, x);
    }
}

/// A pod's own resolver configuration is in force: its first server is asked first and all of
/// its servers are asked; all of its search domains are looked in; and what the policy gave is
/// kept beside them.
pub proof fn law_a_pods_own_configuration_is_in_force(content: Seq<char>, c: PodDNSConfig, i: int)
    ensures
        ({
            let r = configured(content, c);
            let ls = text::lines(content);
            &&& c.nameservers matches Some(own) ==> 0 <= i < own@.len() ==> text::has(
                r,
                "nameserver "@ + own@[i]@ + "\n"@,
            ) && (i == 0 ==> text::begins(r, "nameserver "@ + own@[0]@ + "\n"@))
            &&& 0 <= i < nameservers_in(ls).len() ==> text::has(
                r,
                "nameserver "@ + nameservers_in(ls)[i] + "\n"@,
            )
            &&& c.searches matches Some(own) ==> 0 <= i < own@.len() ==> text::has(r, own@[i]@)
            &&& 0 <= i < searches_in(ls).len() ==> text::has(r, searches_in(ls)[i])
        }),
{
    let r = configured(content, c);
    let ls = text::lines(content);
    let none = Seq::<char>::empty();
    let ns = match c.nameservers {
        Some(own) => merged(text::texts(own@), nameservers_in(ls)),
        None => nameservers_in(ls),
    };
    let searches = match c.searches {
        Some(own) => merged(text::texts(own@), searches_in(ls)),
        None => searches_in(ls),
    };
    let options = match c.options {
        Some(own) => options_with(options_in(ls), own@),
        None => options_in(ls),
    };
    let top = nameserver_lines(ns);
    let mid = if searches.len() == 0 {
        none
    } else {
        "search "@ + text::join(searches, " "@) + "\n"@
    };
    let low = if options.len() == 0 {
        none
    } else {
        "options "@ + text::join(options, " "@) + "\n"@
    };
    assert(r == top + mid + low);
    assert(r =~= none + top + (mid + low));
    if let Some(own) = c.nameservers {
        law_merge_keeps_both(text::texts(own@), nameservers_in(ls));
        if 0 <= i < own@.len() {
            assert(ns.take(own@.len() as int)[i] == ns[i]);
            assert(ns[i] == own@[i]@);
            lemma_server_line(ns, i);
            lemma_has_part(none, top, mid + low, "nameserver "@ + ns[i] + "\n"@);
            if i == 0 {
                let line = "nameserver "@ + ns[0] + "\n"@;
                assert(r.take(line.len() as int) =~= top.take(line.len() as int));
            }
        }
    }
    if 0 <= i < nameservers_in(ls).len() {
        let x = nameservers_in(ls)[i];
        assert(ns.contains(x));
        let k = choose|k: int| 0 <= k < ns.len() && ns[k] == x;
        lemma_server_line(ns, k);
        lemma_has_part(none, top, mid + low, "nameserver "@ + x + "\n"@);
    }
    if let Some(own) = c.searches {
        law_merge_keeps_both(text::texts(own@), searches_in(ls));
        if 0 <= i < own@.len() {
            assert(searches.take(own@.len() as int)[i] == searches[i]);
            assert(searches[i] == own@[i]@);
            lemma_word_in(searches, " "@, i);
            lemma_has_part("search "@, text::join(searches, " "@), "\n"@, own@[i]@);
            lemma_has_part(top, mid, low, own@[i]@);
        }
    }
    if 0 <= i < searches_in(ls).len() {
        let x = searches_in(ls)[i];
        assert(searches.contains(x));
        let k = choose|k: int| 0 <= k < searches.len() && searches[k] == x;
        lemma_word_in(searches, " "@, k);
        lemma_has_part("search "@, text::join(searches, " "@), "\n"@, x);
        lemma_has_part(top, mid, low, x);
    }
}

/// A pod's own resolver options take the place of those of their name: the last of its options
/// is in force, in words, and none that begins with its name is left beside it.
pub proof fn law_own_options_replace_others(
    opts: Seq<Seq<char>>,
    own: Seq<PodDNSConfigOption>,
    x: Seq<char>,
)
    requires
        own.len() > 0,
    ensures
        ({
            let o = own.last();
            let r = options_with(opts, own);
            let t = match o.value {
                Some(v) => o.name@ + ":"@ + v@,
                None => o.name@,
            };
            &&& r.len() > 0 && r.last() == t
            &&& r.drop_last().contains(x) ==> !text::begins(x, o.name@)
            &&& own.len() == 1 && opts.contains(x) && !text::begins(x, o.name@) ==> r.contains(x)
        }),
{
    let o = own.last();
    let r = options_with(opts, own);
    let base = options_with(opts, own.drop_last());
    assert(r.drop_last() =~= options_without(base, o.name@));
    lemma_without_name(base, o.name@, x);
    if own.len() == 1 && opts.contains(x) && !text::begins(x, o.name@) {
        assert(base == opts);
        let k = choose|k: int| 0 <= k < r.drop_last().len() && r.drop_last()[k] == x;
        assert(r[k] == x);
    }
}

proof fn lemma_without_name(opts: Seq<Seq<char>>, name: Seq<char>, x: Seq<char>)
    ensures
        options_without(opts, name).contains(x) <==> opts.contains(x) && !text::begins(x, name),
    decreases opts.len(),
{
    if opts.len() > 0 {
        let short = opts.drop_last();
        let before = options_without(short, name);
        let now = options_without(opts, name);
        lemma_without_name(short, name, x);
        if before.contains(x) {
            let j = choose|j: int| 0 <= j < before.len() && before[j] == x;
            assert(now[j] == x);
            let k = choose|k: int| 0 <= k < short.len() && short[k] == x;
            assert(opts[k] == x);
        } else if now.contains(x) {
            let j = choose|j: int| 0 <= j < now.len() && now[j] == x;
            if j < before.len() {
                assert(before[j] == x);
            }
            assert(opts[opts.len() - 1] == x);
        }
        if opts.contains(x) && !text::begins(x, name) {
            let k = choose|k: int| 0 <= k < opts.len() && opts[k] == x;
            if k < short.len() {
                assert(short[k] == x);
            } else {
                assert(now.last() == x);
            }
        }
    }
}

/// The configuration of a pod's containers is what the policy and the pod's own settings come
/// to; the pod of the cluster's name server has none.
pub proof fn law_containers_resolve_as_their_pod_says(
    pod: Pod,
    dns: Seq<char>,
    domain: Seq<char>,
    host: Option<Seq<char>>,
    uplink: Option<Seq<char>>,
)
    ensures
        ({
            let r = pod_resolv_conf(pod, dns, domain, host, uplink);
            let base = policy_resolv_conf(pod, dns, domain, host, uplink);
            let own = pod.spec is Some && pod.spec->0.dns_config is Some;
            &&& pod.metadata.name@ == "coredns"@ ==> r is None
            &&& pod.metadata.name@ != "coredns"@ && !own && base.len() > 0 ==> r == Some(base)
            &&& pod.metadata.name@ != "coredns"@ && own && configured(
                base,
                pod.spec->0.dns_config->0,
            ).len() > 0 ==> r == Some(configured(base, pod.spec->0.dns_config->0))
        }),
{
}

/// A resolver configuration names a server on each line that says so, lists its search domains
/// and its options on theirs, and says nothing of them on any other line.
pub proof fn law_lines_say_what_they_begin_with(ls: Seq<Seq<char>>, line: Seq<char>)
    ensures
        ({
            let t = text::trimmed(line);
            let more = ls.push(line);
            let server = text::begins(t, "nameserver "@);
            let search = !server && text::begins(t, "search "@);
            let option = !server && !search && text::begins(t, "options "@);
            &&& server ==> nameservers_in(more) == nameservers_in(ls).push(t.skip(11))
            &&& !server ==> nameservers_in(more) == nameservers_in(ls)
            &&& search ==> searches_in(more) == searches_in(ls) + text::words(t.skip(7))
            &&& !search ==> searches_in(more) == searches_in(ls)
            &&& option ==> options_in(more) == options_in(ls) + text::words(t.skip(8))
            &&& !option ==> options_in(more) == options_in(ls)
            &&& nameservers_in(Seq::empty()).len() == 0
            &&& searches_in(Seq::empty()).len() == 0
            &&& options_in(Seq::empty()).len() == 0
        }),
{
    reveal_strlit("nameserver ");
    reveal_strlit("search ");
    reveal_strlit("options ");
    assert("nameserver "@.len() == 11 && "search "@.len() == 7 && "options "@.len() == 8);
    assert(ls.push(line).drop_last() =~= ls);
}

/// A pod's last own option is in force, with its value, and the options of the configuration
/// are where the pod has none of its own.
pub proof fn law_a_pods_own_options_are_in_force(content: Seq<char>, c: PodDNSConfig, i: int)
    ensures
        ({
            let r = configured(content, c);
            let ls = text::lines(content);
            &&& c.options matches Some(own) ==> own@.len() > 0 ==> text::ends(
                r,
                (match own@.last().value {
                    Some(v) => own@.last().name@ + ":"@ + v@,
                    None => own@.last().name@,
                }) + "\n"@,
            )
            &&& c.options is None && options_in(ls).len() > 0 ==> text::ends(
                r,
                "options "@ + text::join(options_in(ls), " "@) + "\n"@,
            )
            &&& c.nameservers is None && c.searches is None && c.options is None && nameservers_in(
                ls,
            ).len() == 0 && searches_in(ls).len() == 0 && options_in(ls).len() == 0 ==> r.len() == 0
        }),
{
    let r = configured(content, c);
    let ls = text::lines(content);
    if let Some(own) = c.options {
        if own@.len() > 0 {
            let opts = options_with(options_in(ls), own@);
            let t = option_text(own@.last());
            law_own_options_replace_others(options_in(ls), own@, Seq::empty());
            assert(opts.last() == t);
            let j = text::join(opts, " "@);
            let tail = t + "\n"@;
            assert(text::ends(j, t)) by {
                if opts.len() == 1 {
                    assert(j.skip(0) =~= t);
                } else {
                    assert(j.skip(j.len() - t.len()) =~= t);
                }
            }
            assert(j.skip(j.len() - t.len()) == t);
            assert(r.skip(r.len() - tail.len()) =~= j.skip(j.len() - t.len()) + "\n"@);
        }
    }
    if c.options is None && options_in(ls).len() > 0 {
        let tail = "options "@ + text::join(options_in(ls), " "@) + "\n"@;
        assert(r.skip(r.len() - tail.len()) =~= tail);
    }
}

} // verus!
