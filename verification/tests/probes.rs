//! Probes: what they ask, how their answers are counted, and what follows.

use kubelet_runtime::api::{
    Container, ContainerPort, ExecAction, GRPCAction, HTTPGetAction, HTTPHeader, IntOrString,
    Lifecycle, LifecycleHandler, ObjectMeta, Pod, PodSpec, Probe, TCPSocketAction, Timestamp,
};
use kubelet_runtime::daemon::NetworkSettings;
use kubelet_runtime::names::probe_key;
use kubelet_runtime::probe::{
    check_probe, effective_probe_host, grpc_request, grpc_serving, holder_of, http_status_ok,
    request_url, resolve_probe_port, show_port, InspectedNetwork, LivenessAnswer, LivenessAsk,
    ProbeKind, ProbeState,
};
use kubelet_runtime::runtime::ContainerRuntime;
use kubelet_runtime::time::elapsed_seconds;

fn make_container(name: &str) -> Container {
    Container {
        name: name.to_string(),
        image: "nginx:latest".to_string(),
        image_pull_policy: Some("IfNotPresent".to_string()),
        ..Default::default()
    }
}

fn pod_of(container: Container) -> Pod {
    Pod {
        metadata: ObjectMeta::new("web-0").with_namespace("default"),
        spec: Some(PodSpec { containers: vec![container], ..Default::default() }),
        status: None,
    }
}

fn runtime() -> ContainerRuntime {
    ContainerRuntime::new(
        "/volumes".to_string(),
        "10.96.0.10".to_string(),
        "cluster.local".to_string(),
        "rusternetes-network".to_string(),
        "10.96.0.1".to_string(),
        false,
        true,
    )
}

fn exec_probe(command: &[&str]) -> Probe {
    Probe {
        exec_action: Some(ExecAction { command: command.iter().map(|s| s.to_string()).collect() }),
        ..Default::default()
    }
}

fn exec_handler(command: &[&str]) -> Option<LifecycleHandler> {
    Some(LifecycleHandler {
        exec_action: Some(ExecAction { command: command.iter().map(|s| s.to_string()).collect() }),
        ..Default::default()
    })
}

fn at(secs: i64) -> Timestamp {
    Timestamp { secs, nanos: 0 }
}

#[test]
fn test_effective_probe_host_treats_explicit_empty_string_as_unset() {
    assert_eq!(effective_probe_host(&None), None);
    assert_eq!(effective_probe_host(&Some(String::new())), None);
    assert_eq!(effective_probe_host(&Some("10.0.0.5".to_string())), Some("10.0.0.5"));
}

#[test]
fn test_container_startup_probe_field() {
    let mut container = make_container("app");
    assert!(container.startup_probe.is_none());
    container.startup_probe = Some(Probe {
        initial_delay_seconds: Some(5),
        period_seconds: Some(10),
        timeout_seconds: Some(1),
        success_threshold: Some(1),
        failure_threshold: Some(30),
        ..exec_probe(&["cat", "/tmp/healthy"])
    });
    assert!(container.startup_probe.is_some());
    let probe = container.startup_probe.unwrap();
    assert_eq!(probe.failure_threshold, Some(30));
    assert!(probe.exec_action.is_some());
    assert_eq!(check_probe(&probe), (ProbeKind::Exec, 1));
}

#[test]
fn test_startup_probe_prevents_readiness_when_not_started() {
    let mut container = make_container("app");
    container.startup_probe = Some(exec_probe(&["cat"]));
    container.readiness_probe = Some(exec_probe(&["cat"]));
    let mut r = runtime();
    let running = true;
    let startup_passed = r.startup_passed("web-0", &container, running, false);
    let ready = r.readiness("web-0", &container, startup_passed, Some(at(0)), at(100), true);
    assert!(!ready);
    assert!(!startup_passed);
}

#[test]
fn test_startup_probe_allows_readiness_when_started() {
    let mut container = make_container("app");
    container.startup_probe = Some(exec_probe(&["cat"]));
    container.readiness_probe = Some(exec_probe(&["cat"]));
    let mut r = runtime();
    let startup_passed = r.startup_passed("web-0", &container, true, true);
    assert!(r.readiness_due(&container, startup_passed, Some(at(0)), at(100)));
    let ready = r.readiness("web-0", &container, startup_passed, Some(at(0)), at(100), true);
    assert!(ready);
}

#[test]
fn test_startup_probe_blocks_liveness_check() {
    let mut container = make_container("app");
    container.startup_probe = Some(exec_probe(&["cat"]));
    container.liveness_probe = Some(exec_probe(&["cat"]));
    let pod = pod_of(container);
    let mut r = runtime();
    let ask = r.first_liveness_ask(&pod);
    assert_eq!(ask, LivenessAsk::Startup(0));
    let next = r.check_liveness(&pod, ask, LivenessAnswer::Probed(false));
    let should_skip_liveness = next == LivenessAsk::Done(false);
    assert!(should_skip_liveness);
}

#[test]
fn test_no_startup_probe_does_not_block_liveness() {
    let mut container = make_container("app");
    container.liveness_probe = Some(exec_probe(&["cat"]));
    let should_skip_liveness =
        runtime().first_liveness_ask(&pod_of(container)) != LivenessAsk::Liveness(0);
    assert!(!should_skip_liveness);
}

#[test]
fn test_lifecycle_and_startup_probe_on_same_container() {
    let mut container = make_container("app");
    container.lifecycle = Some(Lifecycle {
        post_start: exec_handler(&["echo", "started"]),
        pre_stop: exec_handler(&["echo", "stopping"]),
    });
    container.startup_probe = Some(Probe {
        initial_delay_seconds: Some(0),
        period_seconds: Some(5),
        timeout_seconds: Some(1),
        success_threshold: Some(1),
        failure_threshold: Some(10),
        ..exec_probe(&["cat", "/tmp/ready"])
    });
    assert!(container.lifecycle.is_some());
    assert!(container.startup_probe.is_some());
    let lc = container.lifecycle.as_ref().unwrap();
    assert!(lc.post_start.is_some());
    assert!(lc.pre_stop.is_some());
}

#[test]
fn test_probe_state_default() {
    let state = ProbeState::default();
    assert_eq!(state.consecutive_failures, 0);
    assert_eq!(state.consecutive_successes, 0);
}

#[test]
fn test_probe_threshold_logic_single_failure_no_action() {
    let failure_threshold = 3;
    let mut state = ProbeState::default();
    state.record(false);
    assert!(state.consecutive_failures < failure_threshold);
}

#[test]
fn test_probe_threshold_logic_threshold_reached() {
    let failure_threshold = 3;
    let mut state = ProbeState::default();
    for _ in 0..3 {
        state.record(false);
    }
    assert!(state.consecutive_failures >= failure_threshold);
}

#[test]
fn test_probe_threshold_success_resets_failures() {
    let mut state = ProbeState { consecutive_failures: 2, consecutive_successes: 0 };
    state.record(true);
    assert_eq!(state.consecutive_failures, 0);
    assert_eq!(state.consecutive_successes, 1);
}

#[test]
fn test_probe_threshold_failure_resets_successes() {
    let mut state = ProbeState { consecutive_successes: 1, consecutive_failures: 0 };
    state.record(false);
    assert_eq!(state.consecutive_successes, 0);
    assert_eq!(state.consecutive_failures, 1);
}

#[test]
fn test_probe_threshold_readiness_needs_success_threshold() {
    let success_threshold = 3;
    let mut state = ProbeState::default();
    state.record(true);
    assert!(state.consecutive_successes < success_threshold);
    state.record(true);
    assert!(state.consecutive_successes < success_threshold);
    state.record(true);
    assert!(state.consecutive_successes >= success_threshold);

    let mut container = make_container("app");
    container.readiness_probe =
        Some(Probe { success_threshold: Some(3), ..exec_probe(&["cat"]) });
    let mut r = runtime();
    for expected in [false, false, true] {
        assert_eq!(r.readiness("web-0", &container, true, Some(at(0)), at(9), true), expected);
    }
}

#[test]
fn test_probe_threshold_defaults() {
    let probe = Probe::default();
    assert_eq!(probe.failure_threshold.unwrap_or(3), 3);
    assert_eq!(probe.success_threshold.unwrap_or(1), 1);
    assert_eq!(probe.period_seconds.unwrap_or(10), 10);

    let mut container = make_container("app");
    container.liveness_probe = Some(exec_probe(&["cat"]));
    let pod = pod_of(container);
    let mut r = runtime();
    for expected in [false, false, true] {
        let ask = r.first_liveness_ask(&pod);
        let done = r.check_liveness(&pod, ask, LivenessAnswer::Probed(false));
        assert_eq!(done, LivenessAsk::Done(expected));
    }
}

#[test]
fn test_probe_state_map_key_format() {
    let pod_name = "web-0";
    let container_name = "nginx";
    let liveness_key = probe_key(pod_name, container_name, "liveness");
    let readiness_key = probe_key(pod_name, container_name, "readiness");
    let startup_key = probe_key(pod_name, container_name, "startup");
    assert_eq!(liveness_key, "web-0/nginx/liveness");
    assert_eq!(readiness_key, "web-0/nginx/readiness");
    assert_eq!(startup_key, "web-0/nginx/startup");
    assert_ne!(liveness_key, readiness_key);
    assert_ne!(readiness_key, startup_key);
}

#[test]
fn test_clear_probe_states_removes_pod_entries() {
    let mut r = runtime();
    r.probe_states = vec![
        (
            "web-0/nginx/liveness".to_string(),
            ProbeState { consecutive_failures: 2, consecutive_successes: 0 },
        ),
        (
            "web-0/nginx/readiness".to_string(),
            ProbeState { consecutive_failures: 0, consecutive_successes: 3 },
        ),
        (
            "redis-0/redis/liveness".to_string(),
            ProbeState { consecutive_failures: 1, consecutive_successes: 0 },
        ),
    ];
    r.clear_probe_states_for_pod("web-0");
    let has = |key: &str| r.probe_states.iter().any(|p| p.0 == key);
    assert!(!has("web-0/nginx/liveness"));
    assert!(!has("web-0/nginx/readiness"));
    assert!(has("redis-0/redis/liveness"));
}

#[test]
fn test_probe_timeout_zero_uses_default() {
    let timeout = |seconds: Option<i32>| {
        check_probe(&Probe { timeout_seconds: seconds, ..exec_probe(&["cat"]) }).1
    };
    assert_eq!(timeout(Some(0)), 1);
    assert_eq!(timeout(None), 1);
    assert_eq!(timeout(Some(5)), 5);
}

fn get(path: &str, port: i32, host: Option<&str>, scheme: Option<&str>) -> HTTPGetAction {
    HTTPGetAction {
        path: Some(path.to_string()),
        port: IntOrString::Int(port),
        host: host.map(|s| s.to_string()),
        scheme: scheme.map(|s| s.to_string()),
        http_headers: None,
    }
}

#[test]
fn test_http_probe_url_scheme_lowercased() {
    let url = request_url(&get("/readyz", 443, None, Some("HTTPS")), "172.18.0.5", 443);
    assert_eq!(url, "https://172.18.0.5:443/readyz");
}

#[test]
fn test_http_probe_url_scheme_default_is_http() {
    let url = request_url(&get("/healthz", 8080, None, None), "10.244.0.5", 8080);
    assert_eq!(url, "http://10.244.0.5:8080/healthz");
}

#[test]
fn test_http_probe_url_with_uppercase_http_scheme() {
    let mut http_get = get("/", 80, Some("my-service"), Some("HTTP"));
    http_get.path = None;
    let request =
        runtime().check_http_probe(&make_container("app"), &http_get, "127.0.0.1").unwrap();
    assert_eq!(request.url, "http://my-service:80/");
}

#[test]
fn test_http_probe_custom_headers_parsed() {
    let mut http_get = get("/readyz", 443, None, Some("HTTPS"));
    let header = |name: &str, value: &str| HTTPHeader {
        name: name.to_string(),
        value: value.to_string(),
    };
    http_get.http_headers =
        Some(vec![header("X-Custom-Header", "test-value"), header("Accept", "application/json")]);
    let request =
        runtime().check_http_probe(&make_container("app"), &http_get, "10.0.0.1").unwrap();
    assert_eq!(
        request.headers,
        vec![
            ("X-Custom-Header".to_string(), "test-value".to_string()),
            ("Accept".to_string(), "application/json".to_string()),
        ]
    );
}

/// Headers that HTTP has no room for are left out.
#[test]
fn malformed_headers_are_dropped() {
    let mut http_get = get("/", 80, None, None);
    let header = |name: &str, value: &str| HTTPHeader {
        name: name.to_string(),
        value: value.to_string(),
    };
    http_get.http_headers = Some(vec![
        header("Two Words", "x"),
        header("", "x"),
        header("X-Line", "a\nb"),
        header("X-Tab", "a\tb"),
        header("X-Ok", "fine"),
    ]);
    let request = runtime().check_http_probe(&make_container("app"), &http_get, "::1").unwrap();
    let names: Vec<&str> = request.headers.iter().map(|h| h.0.as_str()).collect();
    assert_eq!(names, vec!["X-Tab", "X-Ok"]);
    for (name, value) in &request.headers {
        assert!(http::HeaderName::from_bytes(name.as_bytes()).is_ok());
        assert!(http::HeaderValue::from_str(value).is_ok());
    }
}

#[test]
fn ports_have_numbers_or_names() {
    let mut c = make_container("app");
    c.ports = Some(vec![ContainerPort {
        name: Some("http".to_string()),
        container_port: 8080,
        ..Default::default()
    }]);
    assert_eq!(resolve_probe_port(&IntOrString::Int(80), &c), Some(80));
    assert_eq!(resolve_probe_port(&IntOrString::Int(0), &c), None);
    assert_eq!(resolve_probe_port(&IntOrString::Int(65_536), &c), None);
    assert_eq!(resolve_probe_port(&IntOrString::Str("http".to_string()), &c), Some(8080));
    assert_eq!(resolve_probe_port(&IntOrString::Str("grpc".to_string()), &c), None);
    assert_eq!(show_port(&IntOrString::Int(-1)), "-1");
    assert_eq!(show_port(&IntOrString::Str("http".to_string())), "http");
    let r = runtime();
    assert_eq!(
        r.check_tcp_probe(&c, &IntOrString::Int(80), "10.0.0.1"),
        Some("10.0.0.1:80".to_string())
    );
    assert_eq!(r.check_tcp_probe(&c, &IntOrString::Int(0), "10.0.0.1"), None);
    assert_eq!(
        r.check_grpc_probe(&c, &IntOrString::Int(90), "10.0.0.1"),
        Some("http://10.0.0.1:90".to_string())
    );
    assert!(r.check_http_probe(&c, &get("/", 0, None, None), "10.0.0.1").is_none());
}

#[test]
fn answers_are_read() {
    assert!(http_status_ok(200));
    assert!(http_status_ok(399));
    assert!(!http_status_ok(199));
    assert!(!http_status_ok(400));
    assert!(grpc_serving(1));
    assert!(!grpc_serving(0));
    assert!(!grpc_serving(2));
    let r = runtime();
    assert!(r.check_exec_probe(Some(0)));
    assert!(!r.check_exec_probe(Some(1)));
    assert!(!r.check_exec_probe(None));
}

#[test]
fn a_health_request_names_its_service() {
    assert!(grpc_request(&None).is_empty());
    assert_eq!(grpc_request(&Some("db".to_string())), vec![0x0a, 2, b'd', b'b']);
    let long = "s".repeat(200);
    let body = grpc_request(&Some(long));
    assert_eq!(&body[..3], &[0x0a, 0xc8, 0x01]);
    assert_eq!(body.len(), 203);
    let body = grpc_request(&Some("s".repeat(16_383)));
    assert_eq!(&body[..4], &[0x0a, 0xff, 0x7f, b's']);
    let body = grpc_request(&Some("s".repeat(16_384)));
    assert_eq!(&body[..5], &[0x0a, 0x80, 0x80, 0x01, b's']);
    assert_eq!(body.len(), 16_388);
}

#[test]
fn the_first_action_decides_the_kind() {
    let mut p = Probe {
        grpc: Some(GRPCAction { port: IntOrString::Int(90), service: None }),
        ..Default::default()
    };
    assert_eq!(check_probe(&p).0, ProbeKind::Grpc);
    p.exec_action = Some(ExecAction::default());
    assert_eq!(check_probe(&p).0, ProbeKind::Exec);
    p.tcp_socket = Some(TCPSocketAction { port: IntOrString::Int(80), host: None });
    assert_eq!(check_probe(&p).0, ProbeKind::Tcp);
    p.http_get = Some(get("/", 80, None, None));
    assert_eq!(check_probe(&p).0, ProbeKind::Http);
    assert_eq!(check_probe(&Probe::default()).0, ProbeKind::Nothing);
}

#[test]
fn liveness_waits_for_its_delay() {
    let mut container = make_container("app");
    container.liveness_probe = Some(Probe {
        initial_delay_seconds: Some(30),
        failure_threshold: Some(1),
        ..exec_probe(&["cat"])
    });
    let pod = pod_of(container);
    let mut r = runtime();
    let ask = r.first_liveness_ask(&pod);
    assert_eq!(ask, LivenessAsk::StartTime(0));
    let early = LivenessAnswer::Started { at: Some(at(100)), now: at(110) };
    assert_eq!(r.check_liveness(&pod, ask, early), LivenessAsk::Done(false));
    let late = LivenessAnswer::Started { at: Some(at(100)), now: at(140) };
    assert_eq!(r.check_liveness(&pod, ask, late), LivenessAsk::Liveness(0));
    let down = r.check_liveness(&pod, LivenessAsk::Liveness(0), LivenessAnswer::Probed(false));
    assert_eq!(down, LivenessAsk::Done(true));
}

#[test]
fn a_success_forgives_failures() {
    let mut container = make_container("app");
    container.liveness_probe = Some(exec_probe(&["cat"]));
    let pod = pod_of(container);
    let mut r = runtime();
    for success in [false, false, true, false, false] {
        let ask = r.first_liveness_ask(&pod);
        let done = r.check_liveness(&pod, ask, LivenessAnswer::Probed(success));
        assert_eq!(done, LivenessAsk::Done(false));
    }
    assert!(r.probe_counter_has_room("web-0", &pod.spec.as_ref().unwrap().containers[0], "liveness"));
}

#[test]
fn an_address_may_be_the_sandboxs() {
    let r = runtime();
    let settings = NetworkSettings {
        networks: Some(vec![("rusternetes-network".to_string(), Some("10.0.0.7".to_string()))]),
        ip_address: None,
    };
    assert_eq!(r.extract_container_ip(&Some(settings.clone())), "10.0.0.7");
    let elsewhere = NetworkSettings {
        networks: Some(vec![("bridge".to_string(), Some("172.17.0.2".to_string()))]),
        ip_address: Some("10.0.0.8".to_string()),
    };
    assert_eq!(r.extract_container_ip(&Some(elsewhere.clone())), "172.17.0.2");
    let bare = NetworkSettings {
        networks: Some(vec![
            ("bridge".to_string(), Some("0.0.0.0".to_string())),
            ("rusternetes-network".to_string(), Some(String::new())),
        ]),
        ..elsewhere
    };
    assert_eq!(r.extract_container_ip(&Some(bare)), "10.0.0.8");
    assert_eq!(r.extract_container_ip(&None), "127.0.0.1");
    assert_eq!(
        holder_of(&Some("container:abc".to_string())),
        Some("abc".to_string())
    );
    assert_eq!(holder_of(&Some("bridge".to_string())), None);
    let joined = InspectedNetwork {
        network_mode: Some("container:abc".to_string()),
        settings: None,
    };
    assert_eq!(
        r.get_effective_container_ip(&Some(joined), &Some(Some(settings))),
        "10.0.0.7"
    );
}

#[test]
fn elapsed_time_is_cut_to_whole_seconds() {
    assert_eq!(elapsed_seconds(at(10), at(3)), 7);
    let early = Timestamp { secs: 3, nanos: 900_000_000 };
    assert_eq!(elapsed_seconds(at(10), early), 6);
    assert_eq!(elapsed_seconds(early, at(10)), -6);
}

#[test]
fn a_check_of_liveness_comes_to_an_end() {
    let mut first = make_container("app");
    first.startup_probe = Some(exec_probe(&["cat"]));
    first.liveness_probe = Some(exec_probe(&["cat"]));
    let mut second = make_container("side");
    second.liveness_probe = Some(exec_probe(&["cat"]));
    let mut pod = pod_of(first);
    pod.spec.as_mut().unwrap().containers.push(make_container("plain"));
    pod.spec.as_mut().unwrap().containers.push(second);
    let mut r = runtime();
    let mut ask = r.first_liveness_ask(&pod);
    let mut asked = Vec::new();
    while !matches!(ask, LivenessAsk::Done(_)) {
        asked.push(ask);
        ask = r.check_liveness(&pod, ask, LivenessAnswer::Probed(true));
    }
    let expected =
        vec![LivenessAsk::Startup(0), LivenessAsk::Liveness(0), LivenessAsk::Liveness(2)];
    assert_eq!(asked, expected);
    assert_eq!(ask, LivenessAsk::Done(false));
    assert_eq!(r.check_liveness(&pod, ask, LivenessAnswer::Probed(false)), ask);
}
