//! Names, hosts files, resolver configuration and the pod's network.

use kubelet_runtime::api::{
    Container, ContainerPort, HostAlias, ObjectMeta, Pod, PodDNSConfig, PodDNSConfigOption,
    PodSpec,
};
use kubelet_runtime::cni::{left_netns, netns_exists, netns_name, netns_path, CommandOutput, DaemonVersion};
use kubelet_runtime::daemon::{ContainerSummary, NetworkSettings};
use kubelet_runtime::dns::{
    apply_dns_config, first_non_loopback_nameserver, host_nameserver_for_pods, merge,
    parse_resolv_conf, show_option,
};
use kubelet_runtime::holder::{PauseAnswer, PauseAsk, PauseState};
use kubelet_runtime::hosts::{hostname_can_be_cut, pod_hostname, pod_hostname_can_be_cut};
use kubelet_runtime::ip::loopback;
use kubelet_runtime::names::{container_name, container_prefix, pause_name, pod_path};
use kubelet_runtime::ports::{pod_ports, port_key};
use kubelet_runtime::runtime::ContainerRuntime;
use kubelet_runtime::sandbox::{ExistingPause, PauseStep, PauseWait};

fn make_container(name: &str) -> Container {
    Container {
        name: name.to_string(),
        image: "nginx:latest".to_string(),
        image_pull_policy: Some("IfNotPresent".to_string()),
        ..Default::default()
    }
}

fn make_pod(name: &str, namespace: &str, hostname: Option<&str>, subdomain: Option<&str>) -> Pod {
    Pod {
        metadata: ObjectMeta::new(name).with_namespace(namespace),
        spec: Some(PodSpec {
            containers: vec![make_container("app")],
            restart_policy: Some("Always".to_string()),
            hostname: hostname.map(|s| s.to_string()),
            subdomain: subdomain.map(|s| s.to_string()),
            ..Default::default()
        }),
        status: None,
    }
}

fn runtime_in(base: &str, domain: &str, use_cni: bool) -> ContainerRuntime {
    ContainerRuntime::new(
        base.to_string(),
        "10.96.0.10".to_string(),
        domain.to_string(),
        "rusternetes-network".to_string(),
        "10.96.0.1".to_string(),
        use_cni,
        true,
    )
}

fn runtime() -> ContainerRuntime {
    runtime_in("/var/lib/rusternetes/volumes", "cluster.local", false)
}

fn hosts_content(pod: &Pod, pod_ip: Option<&str>, cluster_domain: &str) -> String {
    runtime_in("/v", cluster_domain, false)
        .create_pod_hosts_file(pod, pod_ip)
        .expect("a pod with a network of its own has a hosts file")
        .1
}

#[test]
fn first_non_loopback_nameserver_skips_the_systemd_resolved_stub() {
    let resolv = "nameserver 127.0.0.53\noptions edns0 trust-ad\nsearch .\n";
    assert_eq!(first_non_loopback_nameserver(resolv), None);
}

#[test]
fn first_non_loopback_nameserver_skips_ipv6_loopback_too() {
    let resolv = "nameserver ::1\nnameserver 8.8.8.8\n";
    assert_eq!(first_non_loopback_nameserver(resolv), Some("8.8.8.8".to_string()));
}

#[test]
fn first_non_loopback_nameserver_passes_through_a_real_upstream() {
    let resolv = "nameserver 192.168.1.1\nnameserver 127.0.0.53\n";
    assert_eq!(first_non_loopback_nameserver(resolv), Some("192.168.1.1".to_string()));
}

#[test]
fn first_non_loopback_nameserver_none_when_no_nameserver_line() {
    assert_eq!(first_non_loopback_nameserver("search example.com\n"), None);
}

#[test]
fn loopback_addresses_are_told_by_their_value() {
    for yes in ["127.0.0.1", "127.255.255.254", "::1", "0:0:0:0:0:0:0:1", "::0001"] {
        assert!(loopback(yes), "{yes}");
    }
    for no in ["128.0.0.1", "10.0.0.1", "::2", "fe80::1", "127.0.0", "127.0.0.1.1", "127.0.0.01", "", "localhost", "::ffff:127.0.0.1"] {
        assert!(!loopback(no), "{no}");
    }
}

#[test]
fn the_uplink_list_stands_in_for_a_loopback_nameserver() {
    let stub = "nameserver 127.0.0.53\n";
    let uplink = "nameserver 9.9.9.9\n";
    assert_eq!(host_nameserver_for_pods(Some(stub), Some(uplink)), Some("9.9.9.9".to_string()));
    assert_eq!(
        host_nameserver_for_pods(Some("nameserver 1.1.1.1\n"), Some(uplink)),
        Some("1.1.1.1".to_string())
    );
    assert_eq!(host_nameserver_for_pods(None, None), None);
    assert_eq!(host_nameserver_for_pods(Some(stub), Some(stub)), None);
}

#[test]
fn test_uts_container_mode_detection() {
    assert!(!ContainerRuntime::uts_container_mode_from_identity(
        "Docker Engine - Community Engine containerd runc docker-init"
    ));
    assert!(!ContainerRuntime::uts_container_mode_from_identity("Docker Engine - Enterprise"));
    assert!(ContainerRuntime::uts_container_mode_from_identity("Podman Engine"));
    assert!(ContainerRuntime::uts_container_mode_from_identity(
        "linux/amd64 Podman Engine conmon"
    ));
    assert!(!ContainerRuntime::uts_container_mode_from_identity("docker engine - community"));
    assert!(ContainerRuntime::uts_container_mode_from_identity("PODMAN ENGINE"));
    assert!(ContainerRuntime::uts_container_mode_from_identity(""));
    assert!(ContainerRuntime::uts_container_mode_from_identity("Some Other Engine"));
}

#[test]
fn test_uts_container_mode_prefers_podman_when_both_named() {
    assert!(ContainerRuntime::uts_container_mode_from_identity(
        "Podman Engine (Docker compatible)"
    ));
}

#[test]
fn the_daemon_is_known_by_its_platform_and_components() {
    let docker = DaemonVersion {
        platform: Some("Docker Engine - Community".to_string()),
        components: Some(vec!["Engine".to_string(), "runc".to_string()]),
    };
    assert!(!ContainerRuntime::detect_uts_container_mode(&Some(docker)));
    let podman = DaemonVersion {
        platform: Some("linux/amd64".to_string()),
        components: Some(vec!["Podman Engine".to_string()]),
    };
    assert!(ContainerRuntime::detect_uts_container_mode(&Some(podman)));
    assert!(!ContainerRuntime::detect_uts_container_mode(&None));
}

#[test]
fn test_hosts_file_always_contains_localhost() {
    let pod = make_pod("my-pod", "default", None, None);
    let content = hosts_content(&pod, None, "cluster.local");
    assert!(content.contains("127.0.0.1\tlocalhost"));
    assert!(content.contains("::1\tlocalhost ip6-localhost ip6-loopback"));
    assert!(content.contains("# Kubernetes-managed hosts file."));
}

#[test]
fn test_hosts_file_no_ip_no_hostname_entry() {
    let pod = make_pod("my-pod", "default", None, None);
    let content = hosts_content(&pod, None, "cluster.local");
    assert!(!content.contains("my-pod"));
}

#[test]
fn test_hosts_file_pod_name_used_as_hostname_when_not_set() {
    let pod = make_pod("my-pod", "default", None, None);
    let content = hosts_content(&pod, Some("10.244.1.5"), "cluster.local");
    assert!(content.contains("10.244.1.5\tmy-pod\n"));
}

#[test]
fn test_hosts_file_uses_spec_hostname_when_set() {
    let pod = make_pod("my-pod-abc", "default", Some("web-0"), None);
    let content = hosts_content(&pod, Some("10.244.1.5"), "cluster.local");
    assert!(content.contains("10.244.1.5\tweb-0\n"));
    assert!(!content.contains("my-pod-abc"));
}

#[test]
fn test_hosts_file_subdomain_generates_fqdn() {
    let pod = make_pod("web-0", "default", Some("web-0"), Some("nginx"));
    let content = hosts_content(&pod, Some("10.244.1.5"), "cluster.local");
    assert!(content.contains("10.244.1.5\tweb-0\tweb-0.nginx.default.svc.cluster.local\n"));
}

#[test]
fn test_hosts_file_subdomain_uses_pod_name_when_no_hostname() {
    let pod = make_pod("web-0", "default", None, Some("nginx"));
    let content = hosts_content(&pod, Some("10.244.1.5"), "cluster.local");
    assert!(content.contains("10.244.1.5\tweb-0\tweb-0.nginx.default.svc.cluster.local\n"));
}

#[test]
fn test_hosts_file_subdomain_fqdn_uses_correct_namespace() {
    let pod = make_pod("cache-0", "kube-system", Some("cache-0"), Some("redis"));
    let content = hosts_content(&pod, Some("10.244.2.10"), "cluster.local");
    assert!(
        content.contains("10.244.2.10\tcache-0\tcache-0.redis.kube-system.svc.cluster.local\n")
    );
}

#[test]
fn test_hosts_file_subdomain_fqdn_uses_custom_cluster_domain() {
    let pod = make_pod("web-0", "default", Some("web-0"), Some("nginx"));
    let content = hosts_content(&pod, Some("10.244.1.5"), "k8s.example.com");
    assert!(content.contains("10.244.1.5\tweb-0\tweb-0.nginx.default.svc.k8s.example.com\n"));
}

#[test]
fn test_hosts_file_no_fqdn_without_subdomain() {
    let pod = make_pod("web-0", "default", Some("web-0"), None);
    let content = hosts_content(&pod, Some("10.244.1.5"), "cluster.local");
    assert!(content.contains("10.244.1.5\tweb-0\n"));
    assert!(!content.contains("svc.cluster.local"));
}

#[test]
fn test_hosts_file_contains_host_aliases() {
    let mut pod = make_pod("alias-pod", "default", None, None);
    pod.spec.as_mut().unwrap().host_aliases = Some(vec![
        HostAlias {
            ip: "1.2.3.4".to_string(),
            hostnames: Some(vec!["foo.local".to_string(), "bar.local".to_string()]),
        },
        HostAlias { ip: "5.6.7.8".to_string(), hostnames: Some(vec!["baz.local".to_string()]) },
    ]);
    let content = hosts_content(&pod, Some("10.244.1.5"), "cluster.local");
    assert!(content.contains("10.244.1.5\talias-pod\n"));
    assert!(content.contains("1.2.3.4\tfoo.local\tbar.local\n"));
    assert!(content.contains("5.6.7.8\tbaz.local\n"));
}

#[test]
fn test_hosts_file_ipv6_entries_present() {
    let pod = make_pod("ipv6-pod", "default", None, None);
    let content = hosts_content(&pod, Some("10.244.1.1"), "cluster.local");
    assert!(content.contains("fe00::\tip6-localnet"));
    assert!(content.contains("fe00::\tip6-mcastprefix"));
    assert!(content.contains("fe00::1\tip6-allnodes"));
    assert!(content.contains("fe00::2\tip6-allrouters"));
}

#[test]
fn test_hosts_file_empty_host_aliases_ignored() {
    let mut pod = make_pod("empty-alias", "default", None, None);
    pod.spec.as_mut().unwrap().host_aliases = Some(vec![
        HostAlias { ip: "1.2.3.4".to_string(), hostnames: Some(vec![]) },
        HostAlias { ip: "5.6.7.8".to_string(), hostnames: None },
    ]);
    let content = hosts_content(&pod, Some("10.0.0.1"), "cluster.local");
    assert!(!content.contains("1.2.3.4"));
    assert!(!content.contains("5.6.7.8"));
}

#[test]
fn no_hosts_file_for_the_name_server_or_the_hosts_network() {
    let r = runtime();
    assert!(r.create_pod_hosts_file(&make_pod("coredns", "kube-system", None, None), None).is_none());
    let mut pod = make_pod("proxy", "default", None, None);
    pod.spec.as_mut().unwrap().host_network = Some(true);
    assert!(r.create_pod_hosts_file(&pod, Some("10.0.0.1")).is_none());
}

#[test]
fn test_hosts_file_path_format() {
    let volumes_base = "/var/lib/rusternetes/volumes";
    let pod_name = "my-pod";
    let pod = make_pod(pod_name, "default", None, None);
    let expected =
        runtime_in(volumes_base, "cluster.local", false).create_pod_hosts_file(&pod, None).unwrap().0;
    assert_eq!(expected, "/var/lib/rusternetes/volumes/my-pod/hosts");
}

#[test]
fn test_resolv_conf_and_hosts_colocated() {
    let volumes_base = "/var/lib/rusternetes/volumes";
    let pod_name = "my-pod";
    let hosts_path = pod_path(volumes_base, pod_name, "hosts");
    let resolv_path = pod_path(volumes_base, pod_name, "resolv.conf");
    assert_eq!(
        std::path::Path::new(&hosts_path).parent(),
        std::path::Path::new(&resolv_path).parent(),
    );
}

#[test]
fn test_podspec_subdomain_field_default_none() {
    let pod = make_pod("test", "default", None, None);
    assert!(pod.spec.as_ref().unwrap().subdomain.is_none());
}

#[test]
fn test_podspec_subdomain_field_can_be_set() {
    let pod = make_pod("web-0", "default", Some("web-0"), Some("nginx"));
    let spec = pod.spec.as_ref().unwrap();
    assert_eq!(spec.subdomain, Some("nginx".to_string()));
    assert_eq!(spec.hostname, Some("web-0".to_string()));
}

#[test]
fn test_pause_container_name_format() {
    let pod_name = "sonobuoy";
    let pause = pause_name(pod_name);
    assert_eq!(pause, "sonobuoy_pause");
    assert!(pause.starts_with(&container_prefix(pod_name)));
}

#[test]
fn test_pause_container_name_format_various_pods() {
    for pod_name in &["web-0", "redis-0", "my-app-abc123", "kube-dns"] {
        let pause = pause_name(pod_name);
        assert!(pause.starts_with(&format!("{}_", pod_name)));
        assert!(pause.ends_with("_pause"));
    }
}

#[test]
fn test_hostname_truncation_for_long_pod_names() {
    let long_name = "sample-webhook-deployment-1ea22597-ec36f15a-8ae5-4dc4-8f3b-1da2641cef30";
    assert!(long_name.len() > 63);
    assert!(hostname_can_be_cut(long_name));
    let truncated = pod_hostname(long_name);
    assert!(truncated.len() <= 63);
    assert!(!truncated.ends_with('-'));

    let short_name = "web-0";
    let result = pod_hostname(short_name);
    assert_eq!(result, "web-0");

    let exact = "a".repeat(63);
    let result = pod_hostname(&exact);
    assert_eq!(result.len(), 63);

    let dash_name = "abcdefghijklmnopqrstuvwxyz-abcdefghijklmnopqrstuvwxyz-1234567890-xyz";
    assert!(dash_name.len() > 63);
    let truncated = pod_hostname(dash_name);
    assert!(!truncated.ends_with('-'));
    assert!(truncated.len() <= 63);
}

#[test]
fn a_hostname_is_cut_between_characters_only() {
    let mut name = "a".repeat(62);
    name.push('\u{e9}');
    name.push_str("rest");
    assert!(!hostname_can_be_cut(&name));
    assert!(!pod_hostname_can_be_cut(&make_pod(&name, "default", None, None)));
    let mut name = "a".repeat(61);
    name.push('\u{e9}');
    name.push_str("rest");
    assert!(hostname_can_be_cut(&name));
    assert_eq!(pod_hostname(&name), format!("{}\u{e9}", "a".repeat(61)));
    let mut dashes = "b".repeat(60);
    dashes.push_str("-----");
    assert_eq!(pod_hostname(&dashes), "b".repeat(60));
}

#[test]
fn test_cni_network_mode_uses_bridge_network() {
    let pod_name = "my-pod";
    let r = runtime_in("/v", "cluster.local", true);
    let network_mode =
        r.pause_config(pod_name, &make_pod(pod_name, "default", None, None)).network_mode;
    assert_eq!(network_mode, "rusternetes-network");
    let without_plugins = runtime_in("/v", "cluster.local", false);
    let pod = make_pod(pod_name, "default", None, None);
    assert_eq!(without_plugins.pause_config(pod_name, &pod).network_mode, network_mode);
}

#[test]
fn test_pause_container_ip_is_pod_ip() {
    let pod_name = "web-0";
    let pause = pause_name(pod_name);
    let filter_prefix = container_prefix(pod_name);
    assert!(pause.starts_with(&filter_prefix));
    assert!(container_name(pod_name, "app").starts_with(&filter_prefix));
}

#[test]
fn test_dns_policy_default_is_cluster_first() {
    let pod = make_pod("test", "default", None, None);
    let dns_policy =
        pod.spec.as_ref().and_then(|s| s.dns_policy.as_deref()).unwrap_or("ClusterFirst");
    assert_eq!(dns_policy, "ClusterFirst");
    let mut named = make_pod("test", "default", None, None);
    named.spec.as_mut().unwrap().dns_policy = Some("ClusterFirst".to_string());
    assert_eq!(
        runtime().resolv_conf(&pod, None, None),
        runtime().resolv_conf(&named, None, None)
    );
    assert!(runtime().resolv_conf(&pod, None, None).unwrap().contains("nameserver 10.96.0.10"));
}

#[test]
fn test_dns_policy_none_produces_empty_content() {
    let mut pod = make_pod("test", "default", None, None);
    pod.spec.as_mut().unwrap().dns_policy = Some("None".to_string());
    let content = runtime()
        .resolv_conf(&pod, Some("nameserver 10.96.0.10\n"), None)
        .unwrap_or_default();
    assert!(content.is_empty());
}

#[test]
fn test_dns_config_nameserver_prepend() {
    let dns_config = PodDNSConfig {
        nameservers: Some(vec!["8.8.8.8".to_string()]),
        searches: None,
        options: None,
    };
    let existing = vec!["10.96.0.10".to_string()];
    let merged = merge(&dns_config.nameservers.unwrap(), &existing);
    assert_eq!(merged, vec!["8.8.8.8", "10.96.0.10"]);
}

#[test]
fn test_dns_config_search_domains() {
    let dns_config = PodDNSConfig {
        nameservers: None,
        searches: Some(vec!["custom.local".to_string()]),
        options: None,
    };
    let existing = vec!["default.svc.cluster.local".to_string()];
    let merged = merge(&dns_config.searches.unwrap(), &existing);
    assert_eq!(merged, vec!["custom.local", "default.svc.cluster.local"]);
}

#[test]
fn test_dns_config_options_with_value() {
    let opt = PodDNSConfigOption { name: "ndots".to_string(), value: Some("3".to_string()) };
    assert_eq!(show_option(&opt), "ndots:3");
}

#[test]
fn test_dns_config_options_without_value() {
    let opt = PodDNSConfigOption { name: "single-request-reopen".to_string(), value: None };
    assert_eq!(show_option(&opt), "single-request-reopen");
}

#[test]
fn test_resolv_conf_parsing() {
    let content = "nameserver 10.96.0.10\nsearch default.svc.cluster.local svc.cluster.local cluster.local\noptions ndots:5\n";
    let (nameservers, searches, options) = parse_resolv_conf(content);
    assert_eq!(nameservers, vec!["10.96.0.10"]);
    assert_eq!(
        searches,
        vec!["default.svc.cluster.local", "svc.cluster.local", "cluster.local"]
    );
    assert_eq!(options, vec!["ndots:5"]);
}

#[test]
fn a_pods_own_resolver_entries_come_first() {
    let c = PodDNSConfig {
        nameservers: Some(vec!["8.8.8.8".to_string(), "10.96.0.10".to_string()]),
        searches: Some(vec!["custom.local".to_string()]),
        options: Some(vec![PodDNSConfigOption {
            name: "timeout".to_string(),
            value: Some("2".to_string()),
        }]),
    };
    let content =
        "nameserver 10.96.0.10\nsearch a.local custom.local\noptions ndots:5\n";
    let (nameservers, searches, options) = parse_resolv_conf(&apply_dns_config(content, &c));
    assert_eq!(nameservers, vec!["8.8.8.8", "10.96.0.10"]);
    assert_eq!(searches, vec!["custom.local", "a.local"]);
    assert_eq!(options, vec!["ndots:5", "timeout:2"]);
}

#[test]
fn test_cluster_first_with_host_net_uses_cluster_dns() {
    let cluster_dns = "10.96.0.10";
    let mut pod = make_pod("test", "default", None, None);
    let spec = pod.spec.as_mut().unwrap();
    spec.dns_policy = Some("ClusterFirstWithHostNet".to_string());
    spec.host_network = Some(true);
    let content = runtime().resolv_conf(&pod, Some("nameserver 127.0.0.53\n"), None).unwrap();
    let uses_cluster_dns = content.contains(cluster_dns);
    assert!(uses_cluster_dns);
    assert_eq!(parse_resolv_conf(&content).0, vec!["10.96.0.10"]);
    let content = runtime().resolv_conf(&pod, Some("nameserver 1.1.1.1\n"), None).unwrap();
    assert_eq!(parse_resolv_conf(&content).0, vec!["1.1.1.1", "10.96.0.10"]);
}

#[test]
fn test_cluster_first_with_host_network_uses_host_dns() {
    let mut pod = make_pod("test", "default", None, None);
    let spec = pod.spec.as_mut().unwrap();
    spec.dns_policy = Some("ClusterFirst".to_string());
    spec.host_network = Some(true);
    let content = runtime().resolv_conf(&pod, Some("nameserver 1.1.1.1\n"), None).unwrap();
    let uses_host_dns = content.contains("1.1.1.1") && !content.contains("10.96.0.10");
    assert!(uses_host_dns);
}

#[test]
fn published_ports_become_bindings() {
    let mut pod = make_pod("web", "default", None, None);
    let http = ContainerPort {
        name: Some("http".to_string()),
        container_port: 80,
        host_port: Some(8080),
        host_ip: None,
        protocol: None,
    };
    let dns = ContainerPort {
        name: None,
        container_port: 53,
        host_port: None,
        host_ip: None,
        protocol: Some("UDP".to_string()),
    };
    assert_eq!(port_key(&http), "80/tcp");
    assert_eq!(port_key(&dns), "53/udp");
    pod.spec.as_mut().unwrap().containers[0].ports = Some(vec![http, dns]);
    let (exposed, bound) = pod_ports(&pod, true);
    assert_eq!(exposed, vec!["80/tcp", "53/udp"]);
    assert_eq!(bound.len(), 1);
    assert_eq!(bound[0].key, "80/tcp");
    assert_eq!(bound[0].host_port, "8080");
}

#[test]
fn a_network_namespace_is_named_after_its_pod() {
    assert!(netns_name("web-0").contains("web-0"));
    assert_eq!(netns_path("web-0"), format!("/var/run/netns/{}", netns_name("web-0")));
}

/// Plugins are used only where a trial namespace cannot be made. A message that is not
/// valid UTF-8 is still read.
#[test]
fn a_trial_namespace_speaks_against_plugins() {
    let exists = CommandOutput { success: false, stderr: b"\xffFile exists\xff".to_vec() };
    assert!(netns_exists(&exists));
    let refused = CommandOutput { success: false, stderr: b"Operation not permitted".to_vec() };
    assert!(!netns_exists(&refused));
    let made = CommandOutput { success: true, stderr: Vec::new() };
    for trial in [exists, made] {
        assert_eq!(
            ContainerRuntime::initialize_cni(true, &Some(trial)).unwrap_err(),
            "Network namespace isolation prevents CNI usage"
        );
    }
    assert_eq!(
        ContainerRuntime::initialize_cni(false, &None).unwrap_err(),
        "CNI plugin directory not found"
    );
    assert!(ContainerRuntime::initialize_cni(true, &Some(refused)).is_ok());
    assert!(ContainerRuntime::initialize_cni(true, &None).is_ok());
    assert!(left_netns(true, ""));
}

#[test]
fn a_pods_network_is_its_namespace() {
    let r = runtime_in("/v", "cluster.local", true);
    let made = Some(CommandOutput { success: true, stderr: Vec::new() });
    assert_eq!(r.setup_pod_network("web-0", &made, Some(true)), Some(netns_path("web-0")));
    assert_eq!(r.setup_pod_network("web-0", &None, Some(true)), None);
    assert_eq!(r.setup_pod_network("web-0", &made, None), Some(netns_path("web-0")));
    assert_eq!(r.setup_pod_network("web-0", &made, Some(false)), None);
}

#[test]
fn a_pods_sandbox_is_kept_while_it_has_an_address() {
    let r = runtime();
    assert!(matches!(r.start_pause_container(&None), PauseStep::Create));
    let network = NetworkSettings {
        networks: Some(vec![("rusternetes-network".to_string(), Some("10.0.0.9".to_string()))]),
        ip_address: None,
    };
    let alive = ExistingPause {
        id: Some("abc".to_string()),
        running: Some(true),
        network: Some(network.clone()),
    };
    assert_eq!(r.assigned_ip(&Some(network.clone())), Some("10.0.0.9".to_string()));
    assert!(matches!(r.start_pause_container(&Some(alive)), PauseStep::Use(ip) if ip == "10.0.0.9"));
    let dead = ExistingPause { id: Some("abc".to_string()), running: Some(false), network: None };
    assert!(matches!(r.start_pause_container(&Some(dead)), PauseStep::Replace));
    let bare = ExistingPause { id: Some("abc".to_string()), running: Some(true), network: None };
    assert!(matches!(r.start_pause_container(&Some(bare)), PauseStep::ReplaceRunning));
    assert!(r.pause_ip(&None).is_err());
    assert_eq!(r.pause_ip(&Some(network)), Ok("10.0.0.9".to_string()));
}

#[test]
fn a_sandbox_is_waited_for_until_it_is_late() {
    let r = runtime();
    assert!(matches!(r.pause_wait("p", &Ok(true), false), PauseWait::Running));
    assert!(matches!(r.pause_wait("p", &Ok(false), false), PauseWait::Again));
    assert!(matches!(r.pause_wait("p", &Ok(false), true), PauseWait::GiveUp(_)));
}

#[test]
fn only_this_clusters_containers_are_removed() {
    let r = runtime();
    let own = r.ownership_labels("web-0");
    assert!(r.is_owned_by_this_cluster(&Some(own.clone())));
    assert!(!r.is_owned_by_this_cluster(&None));
    let other = runtime_in("/v", "cluster.local", false);
    let mut foreign = other.ownership_labels("web-0");
    for l in foreign.iter_mut() {
        l.1.push('x');
    }
    assert!(!r.is_owned_by_this_cluster(&Some(foreign.clone())));
    assert!(r.refuse_pause_removal("web-0", &Some(Some(own))).is_none());
    assert!(r.refuse_pause_removal("web-0", &Some(Some(foreign))).is_some());
}

#[test]
fn containers_of_a_lost_sandbox_are_stranded() {
    let r = runtime();
    let mut c = ContainerSummary {
        id: Some("c1".to_string()),
        names: Some(vec!["/web-0_app".to_string()]),
        labels: Some(r.ownership_labels("web-0")),
        network_mode: Some("container:old".to_string()),
        state: Some("running".to_string()),
        created: None,
    };
    let all = vec![c.clone()];
    assert_eq!(r.remove_stranded_dependents("web-0", Some("new"), &all), vec!["c1".to_string()]);
    assert!(r.pause_dependents("web-0", Some("new"), &all).is_empty());
    c.network_mode = Some("container:new".to_string());
    let all = vec![c];
    assert!(r.remove_stranded_dependents("web-0", Some("new"), &all).is_empty());
    assert_eq!(r.pause_dependents("web-0", Some("new"), &all), vec!["c1".to_string()]);
}

fn bring_up(answer: impl Fn(PauseAsk, usize) -> PauseAnswer) -> (Vec<PauseAsk>, PauseState) {
    let r = runtime();
    let mut s = r.first_pause_step();
    let mut seen = vec![s.ask];
    while s.ask != PauseAsk::Done && s.ask != PauseAsk::Failed {
        let a = answer(s.ask, seen.len());
        s = r.next_pause_step("web-0", s, a);
        seen.push(s.ask);
    }
    (seen, s)
}

fn given_address() -> PauseAnswer {
    PauseAnswer::Network(Ok(Some(NetworkSettings {
        networks: None,
        ip_address: Some("10.0.0.4".to_string()),
    })))
}

#[test]
fn a_sandbox_is_brought_up_step_by_step() {
    let own = runtime().ownership_labels("web-0");
    let (seen, s) = bring_up(|ask, n| match ask {
        PauseAsk::Inspect => PauseAnswer::Existing(Some(ExistingPause {
            id: Some("abc".to_string()),
            running: Some(true),
            network: None,
        })),
        PauseAsk::Create => PauseAnswer::No("Conflict".to_string()),
        PauseAsk::InspectName => PauseAnswer::Labels(Some(Some(own.clone()))),
        PauseAsk::RemoveName => PauseAnswer::No("busy".to_string()),
        PauseAsk::Wait => PauseAnswer::Running(Ok(n > 16), false),
        PauseAsk::Address => given_address(),
        _ => PauseAnswer::Yes,
    });
    assert_eq!(
        seen,
        vec![
            PauseAsk::Inspect,
            PauseAsk::RemoveStranded,
            PauseAsk::RemoveDependents,
            PauseAsk::Remove,
            PauseAsk::Image,
            PauseAsk::Create,
            PauseAsk::InspectName,
            PauseAsk::RemoveNameDependents,
            PauseAsk::StopName,
            PauseAsk::RemoveName,
            PauseAsk::Rest(500),
            PauseAsk::CreateAgain,
            PauseAsk::Start,
            PauseAsk::Wait,
            PauseAsk::WaitMore,
            PauseAsk::Wait,
            PauseAsk::WaitMore,
            PauseAsk::Wait,
            PauseAsk::Address,
            PauseAsk::Done,
        ]
    );
    assert_eq!(s.address, Some("10.0.0.4".to_string()));
    assert_eq!(s.id, Some("abc".to_string()));
}

#[test]
fn a_sandbox_that_runs_is_used_as_it_is() {
    let network = NetworkSettings {
        networks: Some(vec![("rusternetes-network".to_string(), Some("10.0.0.9".to_string()))]),
        ip_address: None,
    };
    let (seen, s) = bring_up(|ask, _| match ask {
        PauseAsk::Inspect => PauseAnswer::Existing(Some(ExistingPause {
            id: None,
            running: Some(true),
            network: Some(network.clone()),
        })),
        _ => PauseAnswer::Yes,
    });
    assert_eq!(seen, vec![PauseAsk::Inspect, PauseAsk::RemoveStranded, PauseAsk::Done]);
    assert_eq!(s.address, Some("10.0.0.9".to_string()));
}

#[test]
fn a_sandbox_may_fail_in_many_ways() {
    let why = |at: PauseAsk, answer: fn() -> PauseAnswer| {
        let (_, s) = bring_up(|ask, _| {
            if ask == at {
                return answer();
            }
            match ask {
                PauseAsk::Inspect => PauseAnswer::Existing(None),
                PauseAsk::Wait => PauseAnswer::Running(Ok(true), false),
                PauseAsk::Address => given_address(),
                _ => PauseAnswer::Yes,
            }
        });
        assert_eq!(s.ask, PauseAsk::Failed);
        (s.error.unwrap(), s.cause)
    };
    let no: fn() -> PauseAnswer = || PauseAnswer::No("x".to_string());
    let cause = Some("x".to_string());
    assert_eq!(
        why(PauseAsk::Image, no),
        ("Failed to ensure busybox image for pause container".to_string(), cause.clone())
    );
    assert_eq!(
        why(PauseAsk::Create, no),
        ("Failed to create pause container".to_string(), cause.clone())
    );
    assert_eq!(why(PauseAsk::Start, no), ("Failed to start pause container".to_string(), cause));
    let late: fn() -> PauseAnswer = || PauseAnswer::Running(Ok(false), true);
    assert_eq!(
        why(PauseAsk::Wait, late).0,
        "Pause container web-0_pause did not reach running state within 10s"
    );
    let bare: fn() -> PauseAnswer = || PauseAnswer::Network(Ok(None));
    assert_eq!(
        why(PauseAsk::Address, bare),
        ("Pause container started but no IP address was assigned".to_string(), None)
    );
    let (seen, s) = bring_up(|ask, _| match ask {
        PauseAsk::Inspect => PauseAnswer::Existing(None),
        PauseAsk::Create => PauseAnswer::No("409".to_string()),
        PauseAsk::InspectName => PauseAnswer::Labels(Some(None)),
        _ => PauseAnswer::Yes,
    });
    assert!(!seen.contains(&PauseAsk::RemoveName));
    assert!(s.error.unwrap().starts_with("Pause container name web-0_pause is already in use"));
}
