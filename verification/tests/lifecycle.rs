//! Lifecycle hooks, and stopping a pod.

use kubelet_runtime::api::{
    Container, ExecAction, HTTPGetAction, HTTPHeader, IntOrString, Lifecycle, LifecycleHandler,
    ObjectMeta, Pod, PodSpec, SleepAction, TCPSocketAction,
};
use kubelet_runtime::container::ContainerStatusKind;
use kubelet_runtime::daemon::{ContainerSummary, NetworkSettings};
use kubelet_runtime::lifecycle::{
    exec_outcome, handler_namespace, handler_pause_name, handler_request, handler_tcp_address,
    http_outcome, own_handler_address, resolve_handler_host, tcp_outcome, Connection, HostFacts,
    LifecycleStep, PodAddress,
};
use kubelet_runtime::probe::ProbeState;
use kubelet_runtime::runtime::ContainerRuntime;
use kubelet_runtime::status::{init_progress, InitProgress};
use kubelet_runtime::stop::{name_of, AddressOf, EndState};

fn make_container(name: &str) -> Container {
    Container {
        name: name.to_string(),
        image: "nginx:latest".to_string(),
        image_pull_policy: Some("IfNotPresent".to_string()),
        ..Default::default()
    }
}

fn make_pod(name: &str, namespace: &str) -> Pod {
    Pod {
        metadata: ObjectMeta::new(name).with_namespace(namespace),
        spec: Some(PodSpec {
            containers: vec![make_container("app")],
            restart_policy: Some("Always".to_string()),
            ..Default::default()
        }),
        status: None,
    }
}

fn runtime() -> ContainerRuntime {
    ContainerRuntime::new(
        "/volumes".to_string(),
        "10.96.0.10".to_string(),
        "cluster.local".to_string(),
        "rusternetes-network".to_string(),
        "10.96.0.1".to_string(),
        false,
        true,
    )
}

fn exec_hook(command: &[&str]) -> LifecycleHandler {
    LifecycleHandler {
        exec_action: Some(ExecAction { command: command.iter().map(|s| s.to_string()).collect() }),
        ..Default::default()
    }
}

fn step(handler: &LifecycleHandler) -> LifecycleStep {
    runtime().execute_lifecycle_handler(handler, "web-0_app", &make_container("app"))
}

fn listed(id: &str, name: &str, state: &str) -> ContainerSummary {
    ContainerSummary {
        id: Some(id.to_string()),
        names: Some(vec![format!("/{name}")]),
        state: Some(state.to_string()),
        ..Default::default()
    }
}

#[test]
fn test_lifecycle_handler_exec_is_recognized() {
    let lifecycle = Lifecycle {
        post_start: Some(exec_hook(&["/bin/sh", "-c", "echo hello"])),
        pre_stop: None,
    };
    assert!(lifecycle.post_start.is_some());
    let handler = lifecycle.post_start.unwrap();
    assert!(matches!(step(&handler), LifecycleStep::Exec(c) if c.len() == 3));
    assert!(handler.exec_action.is_some());
    assert_eq!(handler.exec_action.unwrap().command.len(), 3);
}

#[test]
fn test_lifecycle_handler_http_get_is_recognized() {
    let lifecycle = Lifecycle {
        post_start: None,
        pre_stop: Some(LifecycleHandler {
            http_get: Some(HTTPGetAction {
                path: Some("/shutdown".to_string()),
                port: IntOrString::Int(8080),
                host: Some("localhost".to_string()),
                scheme: Some("HTTP".to_string()),
                http_headers: None,
            }),
            ..Default::default()
        }),
    };
    assert!(lifecycle.pre_stop.is_some());
    let handler = lifecycle.pre_stop.unwrap();
    assert!(matches!(step(&handler), LifecycleStep::Http(8080)));
    assert!(handler.http_get.is_some());
    let http = handler.http_get.unwrap();
    assert_eq!(http.port, IntOrString::Int(8080));
    assert_eq!(http.path.as_deref(), Some("/shutdown"));
}

#[test]
fn test_lifecycle_handler_sleep_is_recognized() {
    let lifecycle = Lifecycle {
        post_start: None,
        pre_stop: Some(LifecycleHandler {
            sleep: Some(SleepAction { seconds: 5 }),
            ..Default::default()
        }),
    };
    assert!(lifecycle.pre_stop.is_some());
    let handler = lifecycle.pre_stop.unwrap();
    assert!(matches!(step(&handler), LifecycleStep::Sleep(5)));
    assert!(handler.sleep.is_some());
    assert_eq!(handler.sleep.unwrap().seconds, 5);
}

#[test]
fn test_container_lifecycle_field_present() {
    let mut container = make_container("app");
    assert!(container.lifecycle.is_none());
    container.lifecycle = Some(Lifecycle {
        post_start: Some(exec_hook(&["/bin/sh", "-c", "touch /tmp/started"])),
        pre_stop: Some(exec_hook(&["/bin/sh", "-c", "touch /tmp/stopping"])),
    });
    assert!(container.lifecycle.is_some());
    let lc = container.lifecycle.unwrap();
    assert!(lc.post_start.is_some());
    assert!(lc.pre_stop.is_some());
}

#[test]
fn hooks_without_a_port_or_an_action_are_told_apart() {
    let tcp = LifecycleHandler {
        tcp_socket: Some(TCPSocketAction { port: IntOrString::Int(9000), host: None }),
        ..Default::default()
    };
    assert!(matches!(step(&tcp), LifecycleStep::Tcp(9000)));
    let nowhere = LifecycleHandler {
        tcp_socket: Some(TCPSocketAction {
            port: IntOrString::Str("nowhere".to_string()),
            host: None,
        }),
        ..Default::default()
    };
    assert!(matches!(
        step(&nowhere),
        LifecycleStep::Refuse(m)
            if m == "Lifecycle TCP handler port nowhere unresolvable for container web-0_app"
    ));
    assert!(matches!(step(&LifecycleHandler::default()), LifecycleStep::Nothing));
}

#[test]
fn a_hooks_request_carries_its_headers() {
    let g = HTTPGetAction {
        path: None,
        port: IntOrString::Int(8080),
        host: None,
        scheme: Some("HTTPS".to_string()),
        http_headers: Some(vec![HTTPHeader {
            name: "X-Hook".to_string(),
            value: "1".to_string(),
        }]),
    };
    let request = handler_request(&g, "10.0.0.1", 8080);
    assert_eq!(request.url, "https://10.0.0.1:8080/");
    assert_eq!(request.headers, vec![("X-Hook".to_string(), "1".to_string())]);
}

#[test]
fn a_hooks_host_is_an_address_or_is_looked_up() {
    let facts = HostFacts { resolved: Some("10.2.2.2".to_string()), ..Default::default() };
    for address in ["10.1.1.1", "::1", "fe80::1:2", "1:2:3:4:5:6:7:8", "::ffff:10.0.0.1"] {
        assert_eq!(resolve_handler_host(address, "web-0_app", &facts), address);
    }
    for name in ["10.1.1", "10.1.1.256", "1:2:3:4:5:6:7:8:9", "1::2::3", "fe80:"] {
        assert_eq!(resolve_handler_host(name, "web-0_app", &facts), "10.2.2.2");
    }
    let facts = HostFacts { resolved: Some("10.2.2.2".to_string()), ..Default::default() };
    assert_eq!(resolve_handler_host("db", "web-0_app", &facts), "10.2.2.2");
    let facts = HostFacts {
        storage: true,
        cluster_ip: Some("10.96.0.7".to_string()),
        ..Default::default()
    };
    assert_eq!(resolve_handler_host("db", "web-0_app", &facts), "10.96.0.7");
    assert_eq!(resolve_handler_host("db", "web-0_app", &HostFacts::default()), "db");
    let pods = vec![PodAddress {
        name: "web-0".to_string(),
        namespace: Some("apps".to_string()),
        ip: None,
    }];
    assert_eq!(handler_namespace(&pods, "web-0_app"), "apps");
    assert_eq!(handler_namespace(&vec![], "web-0_app"), "default");
    assert_eq!(handler_pause_name("web-0_app"), "web-0_pause");
}

#[test]
fn a_hook_reaches_its_own_container() {
    let own = Some(NetworkSettings {
        networks: None,
        ip_address: Some("10.0.0.1".to_string()),
    });
    let pause = Some(NetworkSettings {
        networks: None,
        ip_address: Some("10.0.0.2".to_string()),
    });
    assert_eq!(own_handler_address(&own, &pause), "10.0.0.1");
    assert_eq!(own_handler_address(&None, &pause), "10.0.0.2");
    assert_eq!(handler_tcp_address(&own, 80), "10.0.0.1:80");
}

#[test]
fn outcomes_say_what_went_wrong() {
    assert!(exec_outcome(Some(0)).is_ok());
    assert!(exec_outcome(Some(3)).unwrap_err().contains('3'));
    assert!(http_outcome(&None).is_ok());
    assert!(http_outcome(&Some("refused".to_string())).unwrap_err().contains("refused"));
    assert!(tcp_outcome(&Connection::Made).is_ok());
    assert!(tcp_outcome(&Connection::Failed("refused".to_string())).unwrap_err().contains("refused"));
    assert!(tcp_outcome(&Connection::TimedOut).is_err());
}

#[test]
fn test_prestop_lifecycle_handler_variants() {
    let exec_hook = exec_hook(&["/bin/sh", "-c", "graceful"]);
    assert!(exec_hook.exec_action.is_some());
    let http_hook = LifecycleHandler {
        http_get: Some(HTTPGetAction {
            host: None,
            http_headers: None,
            path: Some("/shutdown".to_string()),
            port: IntOrString::Int(8080),
            scheme: None,
        }),
        ..Default::default()
    };
    assert!(http_hook.http_get.is_some());
    let tcp_hook = LifecycleHandler {
        tcp_socket: Some(TCPSocketAction { host: None, port: IntOrString::Int(9000) }),
        ..Default::default()
    };
    assert!(tcp_hook.tcp_socket.is_some());
    let sleep_hook = LifecycleHandler {
        sleep: Some(SleepAction { seconds: 5 }),
        ..Default::default()
    };
    assert!(sleep_hook.sleep.is_some());
    for hook in [exec_hook, http_hook, tcp_hook, sleep_hook] {
        let mut pod = make_pod("web-0", "default");
        pod.spec.as_mut().unwrap().containers[0].lifecycle =
            Some(Lifecycle { post_start: None, pre_stop: Some(hook) });
        let r = runtime();
        let hooks = r.pre_stop_hooks(&pod, &vec![listed("1", "web-0_app", "running")]);
        assert_eq!(hooks.len(), 1);
        assert_eq!(hooks[0].container_name, "web-0_app");
        assert!(!matches!(step(hooks[0].handler), LifecycleStep::Nothing));
        assert!(r.pre_stop_hooks(&pod, &vec![listed("1", "web-0_app", "exited")]).is_empty());
    }
}

#[test]
fn test_termination_grace_period_propagation() {
    let mut pod = make_pod("graceful", "default");
    pod.spec.as_mut().unwrap().termination_grace_period_seconds = Some(45);
    let grace =
        pod.spec.as_ref().and_then(|s| s.termination_grace_period_seconds).unwrap_or(30);
    assert_eq!(grace, 45, "spec.terminationGracePeriodSeconds must propagate");
    let mut r = runtime();
    assert_eq!(r.pre_stop_budget(grace), 45);
    let plan = r.stop_pod_for(&pod, &vec![listed("1", "graceful_app", "running")], grace, 5);
    assert_eq!(plan.grace_period_seconds, 40);
}

#[test]
fn the_sandbox_is_stopped_last() {
    let all = vec![
        listed("p", "web-0_pause", "running"),
        listed("a", "web-0_app", "running"),
        listed("b", "web-0_side", "running"),
    ];
    let plan = runtime().stop_pod_with_grace_period(&all, 30);
    assert_eq!(plan.stop, vec!["a".to_string(), "b".to_string(), "p".to_string()]);
    assert_eq!(plan.grace_period_seconds, 30);
    assert!(!plan.remove);
    let mut r = runtime();
    r.probe_states = vec![
        ("web-0/app/liveness".to_string(), ProbeState::default()),
        ("web-1/app/liveness".to_string(), ProbeState::default()),
    ];
    assert!(r.stop_and_remove_pod("web-0", &all).remove);
    assert_eq!(r.probe_states.len(), 1);
    assert_eq!(r.stop_pod("web-1", &all).stop.last().map(|s| s.as_str()), Some("p"));
    assert_eq!(name_of(&all[0]), "web-0_pause");
}

#[test]
fn a_pod_runs_while_its_network_does() {
    let r = runtime();
    let mut app = listed("a", "web-0_app", "running");
    app.network_mode = Some("container:p".to_string());
    let pause = listed("p", "web-0_pause", "running");
    assert!(r.is_pod_running("web-0", &vec![pause.clone(), app.clone()]));
    assert!(!r.is_pod_running("web-0", &vec![app.clone()]));
    assert!(!r.is_pod_running("web-0", &vec![pause.clone()]));
    app.network_mode = Some("container:old".to_string());
    assert!(!r.is_pod_running("web-0", &vec![pause, app.clone()]));
    assert!(r.any_container_running(&vec![app]));
    assert!(!r.any_container_running(&vec![]));
}

#[test]
fn ended_containers_are_found() {
    let r = runtime();
    let state = |running: Option<bool>, exit_code: Option<i64>, status: ContainerStatusKind| {
        Some(EndState { running, exit_code, status: Some(status) })
    };
    let exited = ContainerStatusKind::Exited;
    let dead = state(Some(false), None, ContainerStatusKind::Dead);
    let empty = state(None, Some(0), ContainerStatusKind::Empty);
    let busy = state(Some(true), Some(0), exited);
    let created = state(Some(false), None, ContainerStatusKind::Created);
    assert!(r.has_terminated_containers(&vec![None, empty]));
    assert!(r.has_terminated_containers(&vec![dead]));
    assert!(!r.has_terminated_containers(&vec![busy, created, None]));
    assert_eq!(init_progress(None), InitProgress::Missing);
    assert_eq!(init_progress(busy), InitProgress::Running);
    assert_eq!(
        init_progress(state(None, Some(3), exited)),
        InitProgress::Exited(Some(3))
    );
    assert_eq!(init_progress(dead), InitProgress::Other);
    assert!(r.is_container_running(Some(true)));
    assert!(!r.is_container_running(None));
    assert_eq!(r.get_container_exit_code(Some(7)), 7);
    assert!(r.remove_terminated_container(Some(Some(false))));
    assert!(!r.remove_terminated_container(Some(Some(true))));
}

#[test]
fn a_pods_address_is_that_of_its_sandbox_first() {
    let r = runtime();
    let hold = vec![listed("hold", "web-0_pause", "running")];
    let other = Some(vec![listed("app", "web-0_app", "running")]);
    assert!(matches!(r.address_of(&hold, &None), AddressOf::Container(id) if id == "hold"));
    assert!(matches!(r.address_of(&hold, &other), AddressOf::Container(id) if id == "hold"));
    assert!(matches!(r.address_of(&vec![], &None), AddressOf::OtherContainers));
    assert!(matches!(r.address_of(&vec![], &other), AddressOf::Container(id) if id == "app"));
    assert!(matches!(r.address_of(&vec![], &Some(vec![])), AddressOf::Nobody));
    let nameless = vec![ContainerSummary::default()];
    assert!(matches!(r.address_of(&nameless, &other), AddressOf::Nobody));
}

#[test]
fn a_pods_address_is_its_plugins_or_its_sandboxs() {
    let mut r = runtime();
    r.use_cni = true;
    let network = Some(NetworkSettings {
        networks: Some(vec![("rusternetes-network".to_string(), Some("10.0.0.3".to_string()))]),
        ip_address: None,
    });
    assert_eq!(r.get_pod_ip(Some("10.1.0.1".to_string()), &network), Some("10.1.0.1".to_string()));
    assert_eq!(r.get_pod_ip(None, &network), Some("10.0.0.3".to_string()));
    assert_eq!(r.get_pod_ip(None, &None), None);
    r.use_cni = false;
    assert_eq!(r.get_pod_ip(Some("10.1.0.1".to_string()), &network), Some("10.0.0.3".to_string()));
}
