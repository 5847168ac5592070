//! Starting the programs: what their arguments ask for.

use crate::container::copy_text;
use crate::number;
use crate::text;
use vstd::prelude::*;
use vstd::string::*;

verus! {

/// How much is logged.
#[derive(Clone, Copy, Debug, PartialEq, Eq, Structural)]
pub enum LogLevel {
    Trace,
    Debug,
    Info,
    Warn,
    Error,
}

/// The level that a word stands for, `info` where it stands for none.
pub open spec fn level_of(s: Seq<char>) -> LogLevel {
    if s == "trace"@ {
        LogLevel::Trace
    } else if s == "debug"@ {
        LogLevel::Debug
    } else if s == "warn"@ {
        LogLevel::Warn
    } else if s == "error"@ {
        LogLevel::Error
    } else {
        LogLevel::Info
    }
}

/// The level that a word stands for.
pub fn log_level(s: &str) -> (r: LogLevel)
    ensures
        r == level_of(s@),
{
    if text::same(s, "trace") {
        LogLevel::Trace
    } else if text::same(s, "debug") {
        LogLevel::Debug
    } else if text::same(s, "warn") {
        LogLevel::Warn
    } else if text::same(s, "error") {
        LogLevel::Error
    } else {
        LogLevel::Info
    }
}

/// The addresses of a list with commas between them, without white space round them.
pub open spec fn endpoints_of(s: Seq<char>) -> Seq<Seq<char>> {
    text::split(s, ',').map_values(|p: Seq<char>| text::trimmed(p))
}

/// The addresses of a list with commas between them.
pub fn endpoints(s: &str) -> (r: Vec<String>)
    ensures
        text::texts(r@) == endpoints_of(s@),
{
    let parts = text::split_on(s, ',');
    let mut r: Vec<String> = Vec::new();
    let mut i: usize = 0;
    while i < parts.len()
        invariant
            i <= parts@.len(),
            r@.len() == i,
            forall|j: int| 0 <= j < i ==> (#[trigger] r@[j])@ == text::trimmed(parts@[j]@),
        decreases parts@.len() - i,
    {
        r.push(String::from_str(text::trim(parts[i].as_str())));
        i += 1;
    }
    assert(text::texts(r@) =~= endpoints_of(s@)) by {
        assert forall|j: int| 0 <= j < r@.len() implies text::texts(r@)[j] == endpoints_of(s@)[j] by {
            assert(text::texts(parts@)[j] == parts@[j]@);
        }
    }
    r
}

/// Where the cluster's state is kept.
#[derive(Clone, Debug)]
pub enum StorageConfig {
    Sqlite { path: String },
    Etcd { endpoints: Vec<String> },
    Redis { url: String },
}

/// Where the cluster's state is kept, in characters.
pub ghost enum StorageView {
    Sqlite { path: Seq<char> },
    Etcd { endpoints: Seq<Seq<char>> },
    Redis { url: Seq<char> },
}

/// Where the cluster's state is kept, in characters.
pub open spec fn storage_view(s: StorageConfig) -> StorageView {
    match s {
        StorageConfig::Sqlite { path } => StorageView::Sqlite { path: path@ },
        StorageConfig::Etcd { endpoints } => StorageView::Etcd {
            endpoints: text::texts(endpoints@),
        },
        StorageConfig::Redis { url } => StorageView::Redis { url: url@ },
    }
}

/// What the program that runs everything was asked for, as far as storage goes.
#[derive(Clone, Debug, Default)]
pub struct StorageArgs {
    pub storage_backend: String,
    pub data_dir: String,
    pub etcd_servers: String,
    pub redis_url: String,
}

/// Where the program that runs everything keeps the cluster's state.
pub open spec fn storage_of(a: StorageArgs) -> Result<StorageView, Seq<char>> {
    let b = a.storage_backend@;
    if b == "sqlite"@ {
        Ok(StorageView::Sqlite { path: a.data_dir@ })
    } else if b == "etcd"@ {
        Ok(StorageView::Etcd { endpoints: endpoints_of(a.etcd_servers@) })
    } else if b == "redis"@ {
        Ok(StorageView::Redis { url: a.redis_url@ })
    } else {
        Err("Unknown storage backend: "@ + b + ". Use 'sqlite', 'etcd', or 'redis'."@)
    }
}

/// Where the program that runs everything keeps the cluster's state; refused where the
/// backend is not one that the program provides, by the word of `provided`.
pub fn storage_config(a: &StorageArgs, provided: &Result<(), String>) -> (r: Result<
    StorageConfig,
    String,
>)
    ensures
        (match r {
            Ok(s) => Ok::<StorageView, Seq<char>>(storage_view(s)),
            Err(e) => Err(e@),
        }) == (match *provided {
            Ok(_) => storage_of(*a),
            Err(e) => Err(e@),
        }),
{
    if let Err(e) = provided {
        return Err(e.clone());
    }
    let b = a.storage_backend.as_str();
    if text::same(b, "sqlite") {
        Ok(StorageConfig::Sqlite { path: a.data_dir.clone() })
    } else if text::same(b, "etcd") {
        Ok(StorageConfig::Etcd { endpoints: endpoints(a.etcd_servers.as_str()) })
    } else if text::same(b, "redis") {
        Ok(StorageConfig::Redis { url: a.redis_url.clone() })
    } else {
        Err(
            text::cat3(
                "Unknown storage backend: ",
                b,
                ". Use 'sqlite', 'etcd', or 'redis'.",
            ),
        )
    }
}

/// Where the scheduler keeps the cluster's state: of the backends that it provides, by the
/// word of `provided`, what is not SQLite is etcd. Any other is refused.
pub fn scheduler_storage(
    backend: &str,
    data_dir: &str,
    etcd_servers: &str,
    provided: &Result<(), String>,
) -> (r: Result<StorageConfig, String>)
    ensures
        (match r {
            Ok(s) => Ok::<StorageView, Seq<char>>(storage_view(s)),
            Err(e) => Err(e@),
        }) == (match *provided {
            Ok(_) => Ok(
                if backend@ == "sqlite"@ {
                    StorageView::Sqlite { path: data_dir@ }
                } else {
                    StorageView::Etcd { endpoints: endpoints_of(etcd_servers@) }
                },
            ),
            Err(e) => Err(e@),
        }),
{
    if let Err(e) = provided {
        return Err(e.clone());
    }
    if text::same(backend, "sqlite") {
        Ok(StorageConfig::Sqlite { path: String::from_str(data_dir) })
    } else {
        Ok(StorageConfig::Etcd { endpoints: endpoints(etcd_servers) })
    }
}

/// The host under which pods reach the API server: the argument's, else the
/// environment's, else this host.
pub fn service_host(argument: &Option<String>, environment: &Option<String>) -> (r: String)
    ensures
        r@ == (match *argument {
            Some(h) => h@,
            None => match *environment {
                Some(h) => h@,
                None => "127.0.0.1"@,
            },
        }),
{
    match argument {
        Some(h) => h.clone(),
        None => match environment {
            Some(h) => h.clone(),
            None => "127.0.0.1".to_string(),
        },
    }
}

/// How schedulers agree on the one that works.
#[derive(Clone, Debug, Default)]
pub struct LeaderElectionConfig {
    pub identity: String,
    pub lock_key: String,
    /// How many seconds a lease holds.
    pub lease_duration: u64,
    /// How many seconds pass before it is renewed.
    pub renew_interval: u64,
    /// How many seconds pass before it is asked for again.
    pub retry_interval: u64,
}

/// How schedulers agree on the one that works. One that was given no identity goes by the
/// token `fresh`.
pub fn election_config(
    identity: &Option<String>,
    fresh: &str,
    lock_key: &str,
    lease_duration: u64,
) -> (r: LeaderElectionConfig)
    ensures
        r.identity@ == (match *identity {
            Some(i) => i@,
            None => "scheduler-"@ + fresh@,
        }),
        r.lock_key@ == lock_key@,
        r.lease_duration == lease_duration,
        r.renew_interval == lease_duration / 3,
        r.retry_interval == 2,
{
    LeaderElectionConfig {
        identity: match identity {
            Some(i) => i.clone(),
            None => text::cat2("scheduler-", fresh),
        },
        lock_key: String::from_str(lock_key),
        lease_duration,
        renew_interval: lease_duration / 3,
        retry_interval: 2,
    }
}

/// A lease is renewed before it runs out, and early enough to fail twice.
pub proof fn law_leases_are_renewed_in_time(lease_duration: u64)
    requires
        lease_duration >= 1,
    ensures
        lease_duration / 3 < lease_duration,
        3 * (lease_duration / 3) <= lease_duration,
{
}

/// Where a program serves its metrics.
pub fn metrics_address(port: u16) -> (r: String)
    ensures
        r@ == "0.0.0.0:"@ + number::decimal(port as int),
{
    let p = number::show_u64(port as u64);
    text::cat2("0.0.0.0:", p.as_str())
}

/// What the program that runs everything was asked for, as far as its parts go.
#[derive(Clone, Debug, Default)]
pub struct LaunchArgs {
    pub bind_address: String,
    pub node_name: String,
    pub volume_dir: String,
    pub cluster_dns: String,
    pub network: String,
    pub tls: bool,
    pub tls_cert_file: Option<String>,
    pub tls_key_file: Option<String>,
    pub tls_san: String,
    pub sync_interval: u64,
    pub scheduler_interval: u64,
    pub kubelet_sync_interval: u64,
    pub proxy_sync_interval: u64,
    pub skip_auth: bool,
    pub disable_proxy: bool,
    pub kube_proxy_chain_prefix: Option<String>,
    pub console_dir: Option<String>,
    pub kubernetes_service_host: Option<String>,
    pub client_ca_file: Option<String>,
}

/// How the API server is run.
#[derive(Clone, Debug, Default)]
pub struct ApiServerConfig {
    pub bind_address: String,
    pub tls: bool,
    pub tls_cert_file: Option<String>,
    pub tls_key_file: Option<String>,
    pub tls_self_signed: bool,
    pub tls_san: String,
    pub skip_auth: bool,
    pub console_dir: Option<String>,
    pub client_ca_file: Option<String>,
}

/// How the node agent is run.
#[derive(Clone, Debug, Default)]
pub struct KubeletConfig {
    pub node_name: String,
    pub volume_dir: String,
    pub cluster_dns: String,
    pub cluster_domain: String,
    pub network: String,
    pub sync_interval: u64,
    pub metrics_port: u16,
    pub kubernetes_service_host: String,
}

/// How the service proxy is run.
#[derive(Clone, Debug, Default)]
pub struct KubeProxyConfig {
    pub node_name: String,
    pub sync_interval: u64,
    pub chain_prefix: Option<String>,
}

/// How the parts of the program that runs everything are run.
#[derive(Clone, Debug, Default)]
pub struct LaunchPlan {
    pub api_server: ApiServerConfig,
    pub scheduler_interval: u64,
    pub controller_sync_interval: u64,
    pub kubelet: KubeletConfig,
    /// None where it is not run.
    pub kube_proxy: Option<KubeProxyConfig>,
}

/// How the parts of the program that runs everything are run, given the host that the
/// environment names.
pub fn launch_plan(a: &LaunchArgs, environment_host: &Option<String>) -> (r: LaunchPlan)
    ensures
        r.api_server.bind_address@ == a.bind_address@,
        r.api_server.tls == a.tls,
        r.api_server.tls_self_signed == a.tls,
        text::opt_text(r.api_server.tls_cert_file) == text::opt_text(a.tls_cert_file),
        text::opt_text(r.api_server.tls_key_file) == text::opt_text(a.tls_key_file),
        r.api_server.tls_san@ == a.tls_san@,
        r.api_server.skip_auth == a.skip_auth,
        text::opt_text(r.api_server.console_dir) == text::opt_text(a.console_dir),
        text::opt_text(r.api_server.client_ca_file) == text::opt_text(a.client_ca_file),
        r.scheduler_interval == a.scheduler_interval,
        r.controller_sync_interval == a.sync_interval,
        r.kubelet.node_name@ == a.node_name@,
        r.kubelet.volume_dir@ == a.volume_dir@,
        r.kubelet.cluster_dns@ == a.cluster_dns@,
        r.kubelet.cluster_domain@ == "cluster.local"@,
        r.kubelet.network@ == a.network@,
        r.kubelet.sync_interval == a.kubelet_sync_interval,
        r.kubelet.metrics_port == 10250,
        r.kubelet.kubernetes_service_host@ == (match a.kubernetes_service_host {
            Some(h) => h@,
            None => match *environment_host {
                Some(h) => h@,
                None => "127.0.0.1"@,
            },
        }),
        match r.kube_proxy {
            None => a.disable_proxy,
            Some(p) => {
                &&& !a.disable_proxy
                &&& p.node_name@ == a.node_name@
                &&& p.sync_interval == a.proxy_sync_interval
                &&& text::opt_text(p.chain_prefix) == text::opt_text(a.kube_proxy_chain_prefix)
            },
        },
{
    LaunchPlan {
        api_server: ApiServerConfig {
            bind_address: a.bind_address.clone(),
            tls: a.tls,
            tls_cert_file: copy_text(&a.tls_cert_file),
            tls_key_file: copy_text(&a.tls_key_file),
            tls_self_signed: a.tls,
            tls_san: a.tls_san.clone(),
            skip_auth: a.skip_auth,
            console_dir: copy_text(&a.console_dir),
            client_ca_file: copy_text(&a.client_ca_file),
        },
        scheduler_interval: a.scheduler_interval,
        controller_sync_interval: a.sync_interval,
        kubelet: KubeletConfig {
            node_name: a.node_name.clone(),
            volume_dir: a.volume_dir.clone(),
            cluster_dns: a.cluster_dns.clone(),
            cluster_domain: "cluster.local".to_string(),
            network: a.network.clone(),
            sync_interval: a.kubelet_sync_interval,
            metrics_port: 10250,
            kubernetes_service_host: service_host(&a.kubernetes_service_host, environment_host),
        },
        kube_proxy: if a.disable_proxy {
            None
        } else {
            Some(
                KubeProxyConfig {
                    node_name: a.node_name.clone(),
                    sync_interval: a.proxy_sync_interval,
                    chain_prefix: copy_text(&a.kube_proxy_chain_prefix),
                },
            )
        },
    }
}

/// Each level has its word, and any other word stands for `info`.
pub proof fn law_levels_have_their_words(s: Seq<char>)
    ensures
        level_of(s) == LogLevel::Trace <==> s == "trace"@,
        level_of(s) == LogLevel::Debug <==> s == "debug"@,
        level_of(s) == LogLevel::Warn <==> s == "warn"@,
        level_of(s) == LogLevel::Error <==> s == "error"@,
        s == "info"@ ==> level_of(s) == LogLevel::Info,
{
    reveal_strlit("trace");
    reveal_strlit("debug");
    reveal_strlit("warn");
    reveal_strlit("error");
    reveal_strlit("info");
    assert("trace"@[0] != "debug"@[0]);
    assert("trace"@[0] != "error"@[0]);
    assert("debug"@[0] != "error"@[0]);
    assert("info"@[0] != "warn"@[0]);
}

/// The addresses of a list are all that stand between its commas, in order, without white
/// space round them.
pub proof fn law_every_endpoint_is_taken(parts: Seq<Seq<char>>)
    requires
        parts.len() > 0,
        forall|i: int| 0 <= i < parts.len() ==> !(#[trigger] parts[i]).contains(','),
    ensures
        ({
            let r = endpoints_of(text::joined_by(parts, ','));
            &&& r.len() == parts.len()
            &&& forall|i: int|
                0 <= i < parts.len() ==> (#[trigger] r[i]) == text::trimmed(parts[i])
        }),
{
    text::law_joined_pieces_are_found_again(parts, ',');
}

/// Each backend keeps the state where its own argument says, and a backend that is none of
/// them is refused by its name.
pub proof fn law_backends_take_their_own_argument(a: StorageArgs)
    ensures
        ({
            let r = storage_of(a);
            let b = a.storage_backend@;
            &&& b == "sqlite"@ ==> r == Ok::<StorageView, Seq<char>>(
                StorageView::Sqlite { path: a.data_dir@ },
            )
            &&& b == "etcd"@ ==> (r matches Ok(StorageView::Etcd { endpoints }) && endpoints
                == endpoints_of(a.etcd_servers@))
            &&& b == "redis"@ ==> r == Ok::<StorageView, Seq<char>>(
                StorageView::Redis { url: a.redis_url@ },
            )
            &&& b != "sqlite"@ && b != "etcd"@ && b != "redis"@ ==> (r matches Err(e) && text::has(
                e,
                b,
            ))
        }),
{
    reveal_strlit("sqlite");
    reveal_strlit("etcd");
    reveal_strlit("redis");
    assert("sqlite"@.len() == 6 && "etcd"@.len() == 4 && "redis"@.len() == 5);
    let b = a.storage_backend@;
    let e = "Unknown storage backend: "@ + b + ". Use 'sqlite', 'etcd', or 'redis'."@;
    let k = "Unknown storage backend: "@.len() as int;
    assert(e.subrange(k, k + b.len()) =~= b);
    assert(text::occurs_at(e, b, k));
}

} // verus!
