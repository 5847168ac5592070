//! What a container is created from: its environment, command, mounts and limits.

use kubelet_runtime::api::{
    Capabilities, ConfigMap, Container, ContainerPort, EmptyDirVolumeSource, EnvFromSource,
    EnvSourceRef, EnvVar, EnvVarSource, EphemeralContainer, KeySelector, Lifecycle,
    LifecycleHandler, ObjectFieldSelector, ObjectMeta, Pod, PodSpec, ResourceFieldSelector, ResourceRequirements, Secret,
    SecurityContext, Service, ServicePort, Volume, VolumeMount,
};
use kubelet_runtime::container::{
    conflicting_id, container_limits, container_quantities_fit, first_step, hosts_command,
    name_is_taken, ContainerConfig, ContainerStatusKind, ExistingContainer, StartFacts, StartStep,
};
use kubelet_runtime::env::{env_facts_ready, to_env_word, EnvFacts, EnvFromData};
use kubelet_runtime::expand::{
    entry_get, entry_pairs, expand_k8s_vars, expand_value, path_climbs,
    subpath_settles,
};
use kubelet_runtime::mounts::{
    bind_string, bound_pv_name, effective_sub_path_expr, effective_termination_message_path,
    mounts_any, resolve_mounts, ConfigError,
};
use kubelet_runtime::names::{
    container_name, emptydir_prefix, emptydir_volume_name, ephemeral_claim_name, pod_dir,
    pod_path, termination_file,
};
use kubelet_runtime::quantity::{
    memory_quantity_fits, parse_cpu_quantity, parse_memory_quantity, units_of,
};
use kubelet_runtime::runtime::ContainerRuntime;
use kubelet_runtime::shell::{command_line, needs_shell_quoting, needs_umask_fix, shell_join};
use kubelet_runtime::starting::{ContainerAnswer, ContainerAsk, ContainerStart};

fn make_container(name: &str) -> Container {
    Container {
        name: name.to_string(),
        image: "nginx:latest".to_string(),
        image_pull_policy: Some("IfNotPresent".to_string()),
        ..Default::default()
    }
}

fn make_pod(name: &str, namespace: &str) -> Pod {
    let mut metadata = ObjectMeta::new(name).with_namespace(namespace);
    metadata.uid = "uid-1".to_string();
    Pod {
        metadata,
        spec: Some(PodSpec {
            containers: vec![make_container("app")],
            restart_policy: Some("Always".to_string()),
            ..Default::default()
        }),
        status: None,
    }
}

fn runtime(use_cni: bool) -> ContainerRuntime {
    ContainerRuntime::new(
        "/volumes".to_string(),
        "10.96.0.10".to_string(),
        "cluster.local".to_string(),
        "rusternetes-network".to_string(),
        "10.96.0.1".to_string(),
        use_cni,
        true,
    )
}

fn facts() -> StartFacts {
    StartFacts { env: EnvFacts::default(), host_resolv_conf: None, uplink_resolv_conf: None }
}

fn config(pod: &Pod, c: &Container) -> ContainerConfig {
    match runtime(false).start_container_if_ready(pod, c, &[], None, None, None, &facts()) {
        Some(Ok(plan)) => plan.config,
        _ => panic!("the container cannot be configured"),
    }
}

fn words(list: &[&str]) -> Vec<String> {
    list.iter().map(|s| s.to_string()).collect()
}

fn pairs(list: &[(&str, &str)]) -> Vec<(String, String)> {
    list.iter().map(|p| (p.0.to_string(), p.1.to_string())).collect()
}

// --- paths and names ---

#[test]
fn test_emptydir_volume_path_format() {
    let pod_name = "test-pod-emptydir";
    let volume_name = "test-volume";
    let expected_path = pod_path("/volumes", pod_name, volume_name);
    assert_eq!(expected_path, "/volumes/test-pod-emptydir/test-volume");
}

#[test]
fn test_volume_bind_string_format() {
    let host_path = "/tmp/test";
    let mount_path = "/data";
    let bind_rw = bind_string(host_path, mount_path, false);
    assert_eq!(bind_rw, "/tmp/test:/data");
    let bind_ro = bind_string(host_path, mount_path, true);
    assert_eq!(bind_ro, "/tmp/test:/data:ro");
}

#[test]
fn test_cleanup_volume_path() {
    let pod_name = "test-pod";
    let volume_dir = pod_dir("/volumes", pod_name);
    assert_eq!(volume_dir, "/volumes/test-pod");
    assert_eq!(runtime(false).cleanup_pod_volumes(pod_name, &vec![]).dir, "/volumes/test-pod");
}

#[test]
fn test_ephemeral_pvc_naming() {
    let pod_name = "test-pod";
    let volume_name = "cache";
    let pvc_name = ephemeral_claim_name(pod_name, volume_name);
    assert_eq!(pvc_name, "test-pod-cache");
}

#[test]
fn test_csi_volume_directory_format() {
    let pod_name = "test-pod";
    let volume_name = "csi-vol";
    let volume_dir = pod_path("/volumes", pod_name, volume_name);
    assert_eq!(volume_dir, "/volumes/test-pod/csi-vol");
}

#[test]
fn test_docker_volume_sentinel_path_detection() {
    let sentinel = "docker-vol::rusternetes-emptydir-test-pod-vol1";
    assert!(sentinel.starts_with("docker-vol::"));
    let vol_name = sentinel.strip_prefix("docker-vol::").unwrap();
    assert_eq!(vol_name, "rusternetes-emptydir-test-pod-vol1");
    assert_eq!(vol_name, emptydir_volume_name("test-pod", "vol1"));

    let regular = pod_path("/volumes", "test-pod", "vol1");
    assert_eq!(regular, "/volumes/test-pod/vol1");
    assert!(!regular.starts_with("docker-vol::"));
}

#[test]
fn test_emptydir_docker_volume_name_format() {
    let pod_name = "test-pod";
    let volume_name = "cache-vol";
    let docker_vol_name = emptydir_volume_name(pod_name, volume_name);
    assert_eq!(docker_vol_name, "rusternetes-emptydir-test-pod-cache-vol");
    let prefix = emptydir_prefix(pod_name);
    assert!(docker_vol_name.starts_with(&prefix));
}

#[test]
fn test_ephemeral_container_name_format() {
    let pod_name = "debug-pod";
    let ec_name = "debugger";
    assert_eq!(container_name(pod_name, ec_name), "debug-pod_debugger");
}

#[test]
fn test_new_ephemeral_containers_detected() {
    let ecs = [
        EphemeralContainer {
            name: "debugger".to_string(),
            image: "busybox:latest".to_string(),
            command: Some(words(&["sh"])),
            stdin: Some(true),
            tty: Some(true),
            ..Default::default()
        },
        EphemeralContainer {
            name: "logger".to_string(),
            image: "alpine:latest".to_string(),
            command: Some(words(&["tail", "-f", "/var/log/app.log"])),
            ..Default::default()
        },
    ];
    let pod_name = "my-pod";
    let existing_containers = vec![container_name(pod_name, "debugger")];
    let new_ecs: Vec<&EphemeralContainer> = ecs
        .iter()
        .filter(|ec| !existing_containers.contains(&container_name(pod_name, &ec.name)))
        .collect();
    assert_eq!(new_ecs.len(), 1);
    assert_eq!(new_ecs[0].name, "logger");
}

#[test]
fn test_bound_pv_name_treats_explicit_empty_string_as_unbound() {
    assert_eq!(bound_pv_name(&None), None);
    assert_eq!(bound_pv_name(&Some(String::new())), None);
    assert_eq!(
        bound_pv_name(&Some("pvc-default-my-pvc".to_string())),
        Some("pvc-default-my-pvc")
    );
}

#[test]
fn test_effective_sub_path_expr_treats_explicit_empty_string_as_unset() {
    assert_eq!(effective_sub_path_expr(&None), None);
    assert_eq!(effective_sub_path_expr(&Some(String::new())), None);
    assert_eq!(
        effective_sub_path_expr(&Some("$(POD_NAME)".to_string())),
        Some("$(POD_NAME)")
    );
}

#[test]
fn test_effective_termination_message_path_treats_explicit_empty_string_as_unset() {
    assert_eq!(effective_termination_message_path(&None), "/dev/termination-log");
    assert_eq!(
        effective_termination_message_path(&Some(String::new())),
        "/dev/termination-log"
    );
    assert_eq!(
        effective_termination_message_path(&Some("/custom/path".to_string())),
        "/custom/path"
    );
}

// --- the downward view of a pod ---

#[test]
fn test_downward_api_field_paths() {
    let field_paths = vec![
        "metadata.name",
        "metadata.namespace",
        "metadata.uid",
        "spec.nodeName",
        "spec.serviceAccountName",
        "status.podIP",
        "status.hostIP",
    ];
    let pod = make_pod("web-0", "apps");
    for path in field_paths {
        assert!(path.contains('.'));
        assert!(runtime(false).get_pod_field_value(&pod, path).is_ok(), "{path}");
    }
    let r = runtime(false);
    assert_eq!(r.get_pod_field_value(&pod, "metadata.name"), Ok("web-0".to_string()));
    assert_eq!(r.get_pod_field_value(&pod, "metadata.namespace"), Ok("apps".to_string()));
    assert_eq!(r.get_pod_field_value(&pod, "metadata.uid"), Ok("uid-1".to_string()));
    assert!(r.get_pod_field_value(&pod, "metadata.colour").is_err());
}

#[test]
fn test_downward_api_label_syntax() {
    let field_path = "metadata.labels['app']";
    assert!(field_path.starts_with("metadata.labels['"));
    assert!(field_path.ends_with("']"));
    let key = &field_path[17..field_path.len() - 2];
    assert_eq!(key, "app");
    let mut pod = make_pod("web-0", "apps");
    pod.metadata.labels = Some(pairs(&[("tier", "back"), (key, "shop")]));
    assert_eq!(runtime(false).get_pod_field_value(&pod, field_path), Ok("shop".to_string()));
}

#[test]
fn test_downward_api_annotation_syntax() {
    let field_path = "metadata.annotations['description']";
    assert!(field_path.starts_with("metadata.annotations['"));
    assert!(field_path.ends_with("']"));
    let key = &field_path[22..field_path.len() - 2];
    assert_eq!(key, "description");
    let mut pod = make_pod("web-0", "apps");
    pod.metadata.annotations = Some(pairs(&[(key, "a shop")]));
    assert_eq!(runtime(false).get_pod_field_value(&pod, field_path), Ok("a shop".to_string()));
}

#[test]
fn a_containers_own_resources_can_be_read() {
    let mut pod = make_pod("web-0", "apps");
    pod.spec.as_mut().unwrap().containers[0].resources = Some(ResourceRequirements {
        limits: Some(pairs(&[("memory", "64Mi"), ("cpu", "1500m")])),
        requests: Some(pairs(&[("memory", "1Ki")])),
    });
    let read = |resource: &str, divisor: Option<&str>| {
        runtime(false).get_container_resource_value(
            &pod,
            &ResourceFieldSelector {
                container_name: Some("app".to_string()),
                resource: resource.to_string(),
                divisor: divisor.map(|s| s.to_string()),
            },
            &Vec::new(),
        )
    };
    assert_eq!(read("limits.memory", None), Ok("67108864".to_string()));
    assert_eq!(read("limits.memory", Some("1Mi")), Ok("64".to_string()));
    assert_eq!(read("requests.memory", None), Ok("1024".to_string()));
    assert_eq!(read("limits.cpu", Some("1m")), Ok("1500".to_string()));
    assert_eq!(read("limits.cpu", None), Ok("2".to_string()));
    assert!(read("limits.colour", None).is_err());
}

#[test]
fn keys_are_read_from_maps_and_secrets() {
    let r = runtime(false);
    let map = ConfigMap { data: Some(pairs(&[("k", "v")])), binary_data: None };
    assert_eq!(r.get_configmap_value(&Some(map.clone()), "ns", "m", "k"), Ok("v".to_string()));
    assert!(r.get_configmap_value(&Some(map), "ns", "m", "x").is_err());
    assert!(r.get_configmap_value(&None, "ns", "m", "k").is_err());
    let secret = Secret {
        data: Some(vec![
            ("k".to_string(), b"v".to_vec()),
            ("bad".to_string(), vec![0xff, 0xfe]),
        ]),
    };
    assert_eq!(r.get_secret_value(&Some(secret.clone()), "ns", "s", "k"), Ok("v".to_string()));
    assert!(r.get_secret_value(&Some(secret.clone()), "ns", "s", "bad").is_err());
    assert!(r.get_secret_value(&Some(secret), "ns", "s", "x").is_err());
    assert!(r.get_secret_value(&None, "ns", "s", "k").is_err());
}

// --- quantities ---

#[test]
fn memory_is_counted_in_bytes() {
    for (text, bytes) in [
        ("1Gi", 1_073_741_824i64),
        ("2Mi", 2_097_152),
        ("3Ki", 3_072),
        ("1G", 1_000_000_000),
        ("1M", 1_000_000),
        ("1K", 1_000),
        ("1Ti", 1_099_511_627_776),
        ("2Pi", 2_251_799_813_685_248),
        ("1Ei", 1_152_921_504_606_846_976),
        ("1T", 1_000_000_000_000),
        ("3P", 3_000_000_000_000_000),
        ("9E", 9_000_000_000_000_000_000),
        ("1k", 1_000),
        ("17", 17),
        ("many", 0),
        ("", 0),
    ] {
        assert!(memory_quantity_fits(text), "{text}");
        assert_eq!(parse_memory_quantity(text), bytes, "{text}");
    }
    assert!(!memory_quantity_fits("9223372036854775807Gi"));
    assert!(!memory_quantity_fits("8Ei"));
}

#[test]
fn processor_time_is_counted_in_thousandths() {
    let readings = vec![("0.5".to_string(), 500i64), ("2".to_string(), 2000)];
    assert_eq!(parse_cpu_quantity("250m", &readings), 250);
    assert_eq!(parse_cpu_quantity("0.5", &readings), 500);
    assert_eq!(parse_cpu_quantity("2", &readings), 2000);
    let nothing_read = Vec::new();
    assert_eq!(parse_cpu_quantity("3", &nothing_read), 3000);
    assert_eq!(parse_cpu_quantity("3000m", &nothing_read), 3000);
    assert_eq!(parse_cpu_quantity("1000000000", &nothing_read), 1_000_000_000_000);
    assert_eq!(parse_cpu_quantity("9007199254741", &nothing_read), 0);
    assert_eq!(parse_cpu_quantity("x", &readings), 0);
}

#[test]
fn a_part_of_a_unit_counts_as_one() {
    assert_eq!(units_of(1500, 1000), 2);
    assert_eq!(units_of(2000, 1000), 2);
    assert_eq!(units_of(2001, 1000), 3);
    assert_eq!(units_of(0, 1000), 0);
}

#[test]
fn limits_become_quota_and_shares() {
    let mut c = make_container("app");
    c.resources = Some(ResourceRequirements {
        limits: Some(pairs(&[("memory", "64Mi"), ("cpu", "500m")])),
        requests: Some(pairs(&[("cpu", "250m")])),
    });
    assert!(container_quantities_fit(&c, &Vec::new()));
    let l = container_limits(&c, &Vec::new());
    assert_eq!(l.memory, Some(67_108_864));
    assert_eq!(l.cpu_period, Some(100_000));
    assert_eq!(l.cpu_quota, Some(50_000));
    assert_eq!(l.cpu_shares, Some(256));
}

// --- environment ---

#[test]
fn test_service_env_var_name_formatting() {
    let svc_name = "my-redis-svc";
    let svc_env = to_env_word(svc_name);
    assert_eq!(svc_env, "MY_REDIS_SVC");
}

fn service_environment(cluster_ip: &str, port_name: Option<&str>) -> Vec<String> {
    let service = Service {
        name: "my-svc".to_string(),
        cluster_ip: Some(cluster_ip.to_string()),
        ports: vec![ServicePort {
            name: port_name.map(|s| s.to_string()),
            protocol: None,
            port: 8080,
        }],
    };
    let f = EnvFacts { services: Some(vec![service]), ..Default::default() };
    let pod = make_pod("web-0", "default");
    runtime(false).container_environment(&pod, &make_container("app"), None, &f).unwrap()
}

#[test]
fn test_service_env_var_host_format() {
    let cluster_ip = "10.96.0.10";
    let env = service_environment(cluster_ip, None);
    let env_var = env.iter().find(|e| e.starts_with("MY_SVC_SERVICE_HOST=")).unwrap();
    assert_eq!(env_var, "MY_SVC_SERVICE_HOST=10.96.0.10");
}

#[test]
fn test_service_env_var_port_format() {
    let cluster_ip = "10.96.0.10";
    let env = service_environment(cluster_ip, None);

    let service_port = env.iter().find(|e| e.starts_with("MY_SVC_SERVICE_PORT=")).unwrap();
    assert_eq!(service_port, "MY_SVC_SERVICE_PORT=8080");

    let port_url = env.iter().find(|e| e.starts_with("MY_SVC_PORT=")).unwrap();
    assert_eq!(port_url, "MY_SVC_PORT=tcp://10.96.0.10:8080");

    let port_tcp = env.iter().find(|e| e.starts_with("MY_SVC_PORT_8080_TCP=")).unwrap();
    assert_eq!(port_tcp, "MY_SVC_PORT_8080_TCP=tcp://10.96.0.10:8080");
}

#[test]
fn test_service_env_var_named_port() {
    let port_name = "http-web";
    let env = service_environment("10.96.0.10", Some(port_name));
    let env_var = env.iter().find(|e| e.starts_with("MY_SVC_SERVICE_PORT_")).unwrap();
    assert_eq!(env_var, "MY_SVC_SERVICE_PORT_HTTP_WEB=8080");
}

#[test]
fn test_service_env_var_skips_none_cluster_ip() {
    let cluster_ip = "None";
    let should_skip =
        !service_environment(cluster_ip, None).iter().any(|e| e.starts_with("MY_SVC"));
    assert!(should_skip);
}

#[test]
fn test_service_env_var_skips_empty_cluster_ip() {
    let cluster_ip = "";
    let should_skip =
        !service_environment(cluster_ip, None).iter().any(|e| e.starts_with("MY_SVC"));
    assert!(should_skip);
}

#[test]
fn test_enable_service_links_default_true() {
    let pod = make_pod("test", "default");
    let enable = pod.spec.as_ref().and_then(|s| s.enable_service_links).unwrap_or(true);
    assert!(enable);
    let service = Service {
        name: "db".to_string(),
        cluster_ip: Some("10.96.0.9".to_string()),
        ports: vec![],
    };
    let f = EnvFacts { services: Some(vec![service]), ..Default::default() };
    let c = make_container("app");
    let linked = |p: &Pod| {
        let env = runtime(false).container_environment(p, &c, None, &f).unwrap();
        env.contains(&"DB_SERVICE_HOST=10.96.0.9".to_string())
    };
    assert!(linked(&pod));
    let mut off = pod.clone();
    off.spec.as_mut().unwrap().enable_service_links = Some(false);
    assert!(!linked(&off));
}

#[test]
fn pods_find_the_api_server() {
    let pod = make_pod("web-0", "default");
    let c = make_container("app");
    let env =
        runtime(false).container_environment(&pod, &c, None, &EnvFacts::default()).unwrap();
    assert_eq!(env[0], "KUBERNETES_SERVICE_HOST=10.96.0.1");
    assert_eq!(env[1], "KUBERNETES_SERVICE_PORT=443");
    let by_hand = EnvFacts { host_override: true, ..Default::default() };
    let env = runtime(false).container_environment(&pod, &c, None, &by_hand).unwrap();
    assert_eq!(env[1], "KUBERNETES_SERVICE_PORT=6443");
}

#[test]
fn variables_come_from_values_keys_fields_and_sources() {
    let pod = make_pod("web-0", "apps");
    let mut c = make_container("app");
    c.env_from = Some(vec![EnvFromSource {
        prefix: Some("P_".to_string()),
        config_map_ref: Some(EnvSourceRef { name: "m".to_string(), optional: None }),
        secret_ref: None,
    }]);
    c.env = Some(vec![
        EnvVar { name: "A".to_string(), value: Some("a-$(P_K)".to_string()), value_from: None },
        EnvVar {
            name: "POD".to_string(),
            value: None,
            value_from: Some(EnvVarSource {
                field_ref: Some(ObjectFieldSelector { field_path: "metadata.name".to_string() }),
                ..Default::default()
            }),
        },
        EnvVar {
            name: "KEY".to_string(),
            value: None,
            value_from: Some(EnvVarSource {
                config_map_key_ref: Some(KeySelector {
                    name: "m".to_string(),
                    key: "k".to_string(),
                }),
                ..Default::default()
            }),
        },
        EnvVar {
            name: "IP".to_string(),
            value: None,
            value_from: Some(EnvVarSource {
                field_ref: Some(ObjectFieldSelector { field_path: "status.podIP".to_string() }),
                ..Default::default()
            }),
        },
    ]);
    let f = EnvFacts {
        env_from: vec![EnvFromData {
            config_map: Some(pairs(&[("K", "v")])),
            secret: Some(vec![("S".to_string(), b"x".to_vec()), ("T".to_string(), vec![0xff])]),
        }],
        key_values: vec![None, None, Some("found".to_string()), None],
        ..Default::default()
    };
    assert!(env_facts_ready(&pod, &c, &f));
    let env = runtime(false).container_environment(&pod, &c, Some("10.1.1.1"), &f).unwrap();
    let own: Vec<&str> = env[8..].iter().map(|s| s.as_str()).collect();
    assert_eq!(own, vec!["P_K=v", "P_S=x", "A=a-v", "POD=web-0", "KEY=found", "IP=10.1.1.1"]);
}

#[test]
fn entries_are_split_at_their_first_sign() {
    assert_eq!(entry_get(&words(&["A=1", "B=2"]), "B"), Some("2".to_string()));
    assert_eq!(entry_get(&words(&["A=1"]), "C"), None);
    assert_eq!(entry_pairs(&words(&["A=1=2", "B="])), pairs(&[("A", "1=2"), ("B", "")]));
}

#[test]
fn values_expand_by_what_stands_before_them() {
    let env = words(&["A=1", "B=two"]);
    assert_eq!(expand_value("$(A)-$(B)", &env, 100), Some("1-two".to_string()));
    assert_eq!(expand_value("plain", &env, 100), Some("plain".to_string()));
}

// --- expansion ---

#[test]
fn test_expand_k8s_vars_preserves_shell_substitutions() {
    let resolved_env_pairs = pairs(&[("MY_VAR", "hello"), ("PORT", "8080")]);
    let expand = |items: &[String]| -> Vec<String> { expand_k8s_vars(items, &resolved_env_pairs) };

    assert_eq!(expand(&["echo $(MY_VAR)".to_string()]), vec!["echo hello"]);
    assert_eq!(
        expand(&["test $(id -u) -eq 65534".to_string()]),
        vec!["test $(id -u) -eq 65534"]
    );
    assert_eq!(
        expand(&["$(MY_VAR):$(PORT) $(unknown)".to_string()]),
        vec!["hello:8080 $(unknown)"]
    );
    assert_eq!(expand(&["plain text".to_string()]), vec!["plain text"]);
    assert_eq!(
        expand(&["check=$$(dig +notcp)".to_string()]),
        vec!["check=$(dig +notcp)"],
        "$$ should be unescaped to $ for shell command substitution"
    );
    assert_eq!(expand(&["$$A $$B $$(cmd)".to_string()]), vec!["$A $B $(cmd)"]);
    assert_eq!(
        expand(&["$$(echo $(MY_VAR))".to_string()]),
        vec!["$(echo hello)"],
        "$$ unescaped then $(MY_VAR) expanded"
    );
    assert_eq!(expand(&["$$$$$$(BIG_MONEY)".to_string()]), vec!["$$$(BIG_MONEY)"]);
    assert_eq!(
        expand(&[
            r#"for i in 1 2 3; do check="$$(dig +notcp)" && test -n "$$check"; done"#.to_string()
        ]),
        vec![r#"for i in 1 2 3; do check="$(dig +notcp)" && test -n "$check"; done"#],
        "DNS probe command $$ escaping must produce valid shell syntax"
    );
}

#[test]
fn test_expand_subpath_expr_basic() {
    let env = pairs(&[("POD_NAME", "my-pod"), ("NAMESPACE", "default")]);
    let result = ContainerRuntime::expand_subpath_expr("$(POD_NAME)", &env);
    assert_eq!(result.unwrap(), "my-pod");
}

#[test]
fn test_expand_subpath_expr_multiple_vars() {
    let env = pairs(&[("POD_NAME", "my-pod"), ("NAMESPACE", "default")]);
    let result = ContainerRuntime::expand_subpath_expr("$(NAMESPACE)/$(POD_NAME)", &env);
    assert_eq!(result.unwrap(), "default/my-pod");
}

#[test]
fn test_expand_subpath_expr_rejects_backticks_in_expr() {
    let env = pairs(&[("POD_NAME", "my-pod")]);
    let result = ContainerRuntime::expand_subpath_expr("$(POD_NAME)`echo hack`", &env);
    assert!(result.is_err());
    assert!(result.unwrap_err().contains("backtick"));
}

#[test]
fn test_expand_subpath_expr_rejects_absolute_path() {
    let env = pairs(&[("DIR", "/etc")]);
    let result = ContainerRuntime::expand_subpath_expr("$(DIR)/passwd", &env);
    assert!(result.is_err());
    assert!(result.unwrap_err().contains("absolute path"));
}

#[test]
fn test_expand_subpath_expr_rejects_dotdot_component() {
    let env = pairs(&[("DIR", "foo")]);
    let result = ContainerRuntime::expand_subpath_expr("$(DIR)/../secret", &env);
    assert!(result.is_err());
    assert!(result.unwrap_err().contains(".."));
}

#[test]
fn test_expand_subpath_expr_allows_dots_in_name() {
    let env = pairs(&[("POD_NAME", "foo..bar")]);
    let result = ContainerRuntime::expand_subpath_expr("$(POD_NAME)", &env);
    assert_eq!(result.unwrap(), "foo..bar");
}

#[test]
fn test_expand_subpath_expr_backtick_checked_before_expansion() {
    let env = pairs(&[("POD_NAME", "/tmp")]);
    let result = ContainerRuntime::expand_subpath_expr("`$(POD_NAME)`", &env);
    assert!(result.is_err());
    assert!(result.unwrap_err().contains("backtick"));
}

#[test]
fn a_path_climbs_by_a_whole_component() {
    assert!(path_climbs("a/../b"));
    assert!(path_climbs(".."));
    assert!(!path_climbs("a..b/c"));
    assert!(subpath_settles("$(A)", &pairs(&[("A", "x")])));
}

#[test]
fn host_paths_take_the_process_environment() {
    let env = pairs(&[("HOME", "/home/me"), ("X_1", "one")]);
    assert_eq!(ContainerRuntime::expand_env_vars("${HOME}/data", &env), "/home/me/data");
    assert_eq!(ContainerRuntime::expand_env_vars("$HOME/$X_1", &env), "/home/me/one");
    assert_eq!(ContainerRuntime::expand_env_vars("/plain", &env), "/plain");
}

// --- commands ---

#[test]
fn test_needs_umask_fix_false_without_emptydir() {
    let has_emptydir_mount = false;
    let has_shell = true;
    assert!(
        !needs_umask_fix(has_emptydir_mount, has_shell),
        "needs_umask_fix should be false without emptyDir mount"
    );
}

#[test]
fn test_needs_umask_fix_false_without_shell() {
    let has_emptydir_mount = true;
    let has_shell = false;
    assert!(
        !needs_umask_fix(has_emptydir_mount, has_shell),
        "needs_umask_fix should be false when image has no shell"
    );
}

#[test]
fn test_needs_umask_fix_true_only_with_both() {
    let has_emptydir_mount = true;
    let has_shell = true;
    assert!(
        needs_umask_fix(has_emptydir_mount, has_shell),
        "needs_umask_fix should be true when both conditions hold"
    );
}

#[test]
fn words_are_quoted_where_a_shell_would_read_them() {
    assert!(!needs_shell_quoting("plain-word.txt"));
    assert!(needs_shell_quoting("two words"));
    assert!(needs_shell_quoting("it's"));
    assert_eq!(shell_join(&words(&["echo", "a b", "it's", ""])), "echo 'a b' 'it'\\''s' ''");
    let (a, b) = (words(&["run", "a;b"]), words(&["", "it's"]));
    let all = words(&["run", "a;b", "", "it's"]);
    assert_eq!(shell_join(&all), format!("{} {}", shell_join(&a), shell_join(&b)));
    assert_eq!(shell_join(&words(&["$HOME/\"x\""])), "\"$HOME/\\\"x\\\"\"");
}

#[test]
fn a_command_is_expanded_and_wrapped() {
    let env = pairs(&[("N", "3")]);
    let none: Vec<String> = Vec::new();
    let mut c = make_container("app");
    let plain = command_line(&c, &env, false, &none, &none);
    assert!(plain.entrypoint.is_none() && plain.cmd.is_none());
    c.command = Some(words(&["sleep", "$(N)"]));
    let plain = command_line(&c, &env, false, &none, &none);
    assert_eq!(plain.entrypoint, Some(words(&["sleep", "3"])));
    let fixed = command_line(&c, &env, true, &none, &none);
    assert_eq!(
        fixed.entrypoint,
        Some(words(&["/bin/sh", "-c", "umask 0000 && exec sleep 3"]))
    );
    c.command = Some(words(&["sh", "-c", "touch x"]));
    let script = command_line(&c, &env, true, &none, &none);
    assert_eq!(script.entrypoint, Some(words(&["sh", "-c", "umask 0000 && touch x"])));
    c.command = None;
    let image = command_line(&c, &env, true, &words(&["/app"]), &words(&["-v"]));
    assert_eq!(image.entrypoint, Some(words(&["/bin/sh", "-c", "umask 0000 && exec /app -v"])));
}

// --- mounts ---

fn mount(name: &str, path: &str) -> VolumeMount {
    VolumeMount { name: name.to_string(), mount_path: path.to_string(), ..Default::default() }
}

#[test]
fn test_has_emptydir_mount_detection() {
    let empty_dir_volumes = words(&["cache-vol"]);

    let mut container_with = make_container("app");
    container_with.volume_mounts = Some(vec![mount("cache-vol", "/cache")]);
    let has_emptydir = mounts_any(&container_with, &empty_dir_volumes);
    assert!(has_emptydir, "should detect emptyDir mount");

    let mut container_without = make_container("sidecar");
    container_without.volume_mounts = Some(vec![mount("config-vol", "/config")]);
    let has_emptydir = mounts_any(&container_without, &empty_dir_volumes);
    assert!(!has_emptydir, "should not detect emptyDir mount for non-emptyDir volume");

    let container_none = make_container("plain");
    let has_emptydir = mounts_any(&container_none, &empty_dir_volumes);
    assert!(!has_emptydir, "should not detect emptyDir mount when no volume mounts");
}

#[test]
fn mounts_become_binds() {
    let mut pod = make_pod("web-0", "default");
    pod.spec.as_mut().unwrap().volumes = Some(vec![
        Volume { name: "data".to_string(), ..Default::default() },
        Volume {
            name: "fast".to_string(),
            empty_dir: Some(EmptyDirVolumeSource { medium: Some("Memory".to_string()) }),
            ..Default::default()
        },
    ]);
    let mut c = make_container("app");
    let mut read_only = mount("data", "/ro");
    read_only.read_only = Some(true);
    let mut part = mount("data", "/part");
    part.sub_path_expr = Some("$(WHO)/x".to_string());
    c.volume_mounts =
        Some(vec![mount("data", "/data"), read_only, part, mount("fast", "/fast")]);
    let env = pairs(&[("WHO", "me")]);
    let paths = pairs(&[("data", "/host/data"), ("fast", "/host/fast")]);
    let m = resolve_mounts(&pod, &c, &env, &paths).ok().unwrap();
    assert_eq!(
        m.binds,
        words(&["/host/data:/data", "/host/data:/ro:ro", "/host/data/me/x:/part"])
    );
    assert_eq!(m.sub_paths, words(&["/host/data/me/x"]));
    assert_eq!(m.tmpfs.len(), 1);
    assert_eq!(m.tmpfs[0].0, "/fast");
}

#[test]
fn a_mount_that_escapes_is_refused() {
    let pod = make_pod("web-0", "default");
    let mut c = make_container("app");
    let paths = pairs(&[("data", "/host/data")]);
    let mut up = mount("data", "/part");
    up.sub_path_expr = Some("../x".to_string());
    let mut fine = mount("data", "/fine");
    fine.sub_path = Some("logs".to_string());
    c.volume_mounts = Some(vec![fine, up]);
    match resolve_mounts(&pod, &c, &[], &paths) {
        Err(ConfigError::Refused(message, made)) => {
            assert!(message.contains("subPathExpr expansion failed"));
            assert_eq!(made, vec!["/host/data/logs".to_string()]);
        }
        _ => panic!("the mount is refused"),
    }
}

#[test]
fn test_etc_hosts_bind_mount_is_read_write() {
    let hosts_path = "/var/lib/kubelet/pods/abc/etc-hosts";
    let pod = make_pod("web-0", "default");
    let plan = runtime(false)
        .start_container_if_ready(
            &pod,
            &make_container("app"),
            &[],
            None,
            Some(hosts_path),
            None,
            &facts(),
        )
        .unwrap()
        .ok()
        .unwrap();
    let binds = plan.config.binds.unwrap();
    let bind = binds.iter().find(|b| b.starts_with(hosts_path)).unwrap();
    assert!(
        !bind.contains(":ro"),
        "/etc/hosts bind mount must not be read-only, got: {}",
        bind
    );
    assert!(
        bind.ends_with(":/etc/hosts"),
        "bind mount should end with :/etc/hosts (no :ro suffix), got: {}",
        bind
    );
}

#[test]
fn test_etc_hosts_vs_resolv_conf_mount_mode() {
    let resolv_bind = bind_string("/tmp/resolv.conf", "/etc/resolv.conf", true);
    let hosts_bind = bind_string("/tmp/hosts", "/etc/hosts", false);
    assert!(resolv_bind.contains(":ro"), "resolv.conf should be mounted read-only");
    assert!(!hosts_bind.contains(":ro"), "/etc/hosts should be mounted read-write");
}

// --- the configuration as a whole ---

#[test]
fn test_non_cni_network_mode_uses_pause_container() {
    let pod_name = "my-pod";
    let network_mode =
        config(&make_pod(pod_name, "default"), &make_container("app")).network_mode;
    assert_eq!(network_mode, "container:my-pod_pause");
}

#[test]
fn a_network_namespace_takes_the_place_of_the_sandbox() {
    let pod = make_pod("my-pod", "default");
    let plan = runtime(true)
        .start_container_if_ready(
            &pod,
            &make_container("app"),
            &[],
            Some("/var/run/netns/cni-my-pod"),
            None,
            None,
            &facts(),
        )
        .unwrap()
        .ok()
        .unwrap();
    assert_eq!(plan.config.network_mode, "ns:/var/run/netns/cni-my-pod");
    assert_eq!(plan.config.ipc_mode, None);
}

#[test]
fn a_configuration_says_what_the_container_asks_for() {
    let pod = make_pod("web-0", "default");
    let mut c = make_container("app");
    c.working_dir = Some("/srv".to_string());
    c.tty = Some(true);
    c.ports = Some(vec![ContainerPort { container_port: 80, ..Default::default() }]);
    c.security_context = Some(SecurityContext {
        privileged: Some(true),
        read_only_root_filesystem: Some(true),
        run_as_user: Some(7),
        capabilities: Some(Capabilities {
            add: Some(words(&["NET_ADMIN"])),
            drop: Some(words(&["ALL"])),
        }),
        ..Default::default()
    });
    let k = config(&pod, &c);
    assert_eq!(k.name, "web-0_app");
    assert_eq!(k.image, "nginx:latest");
    assert_eq!(k.working_dir.as_deref(), Some("/srv"));
    assert_eq!(k.tty, Some(true));
    assert_eq!(k.user.as_deref(), Some("7"));
    assert_eq!(k.privileged, Some(true));
    assert_eq!(k.readonly_rootfs, Some(true));
    assert_eq!(k.cap_add, Some(words(&["NET_ADMIN"])));
    assert_eq!(k.cap_drop, Some(words(&["ALL"])));
    assert_eq!(k.ipc_mode.as_deref(), Some("container:web-0_pause"));
    assert!(runtime(false).is_owned_by_this_cluster(&Some(k.labels)));
}

#[test]
fn a_termination_message_has_a_file_of_its_own() {
    assert_eq!(termination_file("/volumes", "web-0", "app"), "/volumes/web-0/termination/app");
}

#[test]
fn facts_that_are_missing_hold_a_container_up() {
    let pod = make_pod("web-0", "default");
    let mut c = make_container("app");
    c.env = Some(vec![EnvVar {
        name: "A".to_string(),
        value: Some("1".to_string()),
        value_from: None,
    }]);
    assert!(runtime(false)
        .start_container_if_ready(&pod, &c, &[], None, None, None, &facts())
        .is_none());
}

#[test]
fn a_container_that_runs_is_left_alone() {
    assert_eq!(first_step(None), StartStep::Create);
    let running =
        ExistingContainer { running: Some(true), status: Some(ContainerStatusKind::Running) };
    assert_eq!(first_step(Some(running)), StartStep::Leave);
    let exited =
        ExistingContainer { running: Some(false), status: Some(ContainerStatusKind::Exited) };
    assert_eq!(first_step(Some(exited)), StartStep::Replace);
}

#[test]
fn a_taken_name_tells_its_holder() {
    let error = "Conflict. The container name \"/web-0_app\" is already in use by container \"0123456789abcdef\". You have to remove that container";
    assert!(name_is_taken(error));
    assert_eq!(conflicting_id(error), Some("0123456789abcdef".to_string()));
    assert!(!name_is_taken("no such image"));
    let r = runtime(false);
    let creating = ContainerStart { ask: ContainerAsk::Create, target: None, error: None };
    let c = make_container("app");
    let refused = ContainerAnswer::No(error.to_string());
    let s = r.next_container_step("web-0_app", &c, false, creating, refused);
    assert_eq!(s.ask, ContainerAsk::InspectHolder);
    assert_eq!(r.name_holder("web-0_app", &s), "0123456789abcdef");
    assert!(r.refuse_removal("web-0_app", &Some(Some(r.ownership_labels("web-0")))).is_none());
    assert!(r.refuse_removal("web-0_app", &Some(None)).is_some());
}

#[test]
fn a_hosts_file_is_written_by_a_shell() {
    let argv = hosts_command("127.0.0.1\tlocalhost\n");
    assert_eq!(argv[0], "sh");
    assert_eq!(argv[1], "-c");
    assert!(argv[2].contains("127.0.0.1\tlocalhost"));
}

fn start_asks(
    name: &str,
    c: &Container,
    answer: impl Fn(ContainerAsk, usize) -> ContainerAnswer,
) -> (Vec<ContainerAsk>, ContainerStart) {
    let r = runtime(false);
    let mut s = r.first_container_step();
    let mut seen = vec![s.ask];
    while s.ask != ContainerAsk::Done && s.ask != ContainerAsk::Failed {
        let a = answer(s.ask, seen.len());
        s = r.next_container_step(name, c, true, s, a);
        seen.push(s.ask);
    }
    (seen, s)
}

const TAKEN: &str = "409: name is already in use by container \"beef\". Remove it";

#[test]
fn a_taken_name_is_cleared_and_tried_once_more() {
    let own = runtime(false).ownership_labels("web-0");
    let c = make_container("app");
    let (seen, s) = start_asks("web-0_app", &c, |ask, _| match ask {
        ContainerAsk::Inspect => ContainerAnswer::Existing(None),
        ContainerAsk::InspectHolder => ContainerAnswer::Labels(Some(Some(own.clone()))),
        ContainerAsk::Create => ContainerAnswer::No(TAKEN.to_string()),
        _ => ContainerAnswer::Yes,
    });
    assert_eq!(
        seen,
        vec![
            ContainerAsk::Inspect,
            ContainerAsk::Prepare,
            ContainerAsk::Create,
            ContainerAsk::InspectHolder,
            ContainerAsk::RemoveHolder,
            ContainerAsk::RemoveName,
            ContainerAsk::RestAfterHolder,
            ContainerAsk::CreateAgain,
            ContainerAsk::Start,
            ContainerAsk::WriteHosts,
            ContainerAsk::Done,
        ]
    );
    assert_eq!(s.error, None);
    let (_, s) = start_asks("web-0_app", &c, |ask, _| match ask {
        ContainerAsk::Inspect => ContainerAnswer::Existing(None),
        ContainerAsk::InspectHolder => ContainerAnswer::Labels(None),
        ContainerAsk::Create | ContainerAsk::CreateAgain => {
            ContainerAnswer::No(TAKEN.to_string())
        }
        _ => ContainerAnswer::Yes,
    });
    assert_eq!(s.error, Some(format!("Failed to create container: {}", TAKEN)));
}

#[test]
fn a_container_of_another_cluster_is_not_removed() {
    let c = make_container("app");
    let (seen, s) = start_asks("web-0_app", &c, |ask, _| match ask {
        ContainerAsk::Inspect => ContainerAnswer::Existing(None),
        ContainerAsk::InspectHolder => ContainerAnswer::Labels(Some(None)),
        ContainerAsk::Create => ContainerAnswer::No(TAKEN.to_string()),
        _ => ContainerAnswer::Yes,
    });
    assert!(!seen.contains(&ContainerAsk::RemoveHolder));
    assert_eq!(
        s.error.unwrap(),
        "Container name web-0_app is already in use by a container this cluster did not \
         create; refusing to remove it"
    );
}

#[test]
fn a_container_whose_hook_fails_is_stopped() {
    let mut c = make_container("app");
    c.lifecycle = Some(Lifecycle {
        post_start: Some(LifecycleHandler::default()),
        ..Default::default()
    });
    let exited =
        ExistingContainer { running: Some(false), status: Some(ContainerStatusKind::Dead) };
    let (seen, s) = start_asks("web-0_app", &c, |ask, _| match ask {
        ContainerAsk::Inspect => ContainerAnswer::Existing(Some(exited)),
        ContainerAsk::PostStart => ContainerAnswer::No("exit 1".to_string()),
        ContainerAsk::Stop => ContainerAnswer::No("gone".to_string()),
        _ => ContainerAnswer::Yes,
    });
    assert_eq!(seen[1], ContainerAsk::RemoveOld);
    assert_eq!(seen[2], ContainerAsk::RestAfterOld);
    assert_eq!(seen[seen.len() - 2], ContainerAsk::Stop);
    assert_eq!(s.error.unwrap(), "PostStartHook failed for container app: exit 1");
    let (_, s) = start_asks("web-0_app", &c, |ask, _| match ask {
        ContainerAsk::Inspect => ContainerAnswer::Existing(None),
        ContainerAsk::Start => ContainerAnswer::No("no network".to_string()),
        _ => ContainerAnswer::Yes,
    });
    assert_eq!(s.error.unwrap(), "Failed to start container web-0_app: no network");
}
