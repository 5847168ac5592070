//! The statuses that are reported of a pod's containers.

use kubelet_runtime::api::{
    Container, ContainerState, ContainerStatus, EphemeralContainer, ObjectMeta, Phase, Pod,
    PodSpec, PodStatus, Timestamp,
};
use kubelet_runtime::daemon::ContainerSummary;
use kubelet_runtime::pod::{initializing_statuses, terminal_phase};
use kubelet_runtime::runtime::ContainerRuntime;
use kubelet_runtime::status::{
    effective_restart_policy, leaves_message, read_container_logs_tail, read_inspection,
    reported_id, reported_image_id, ContainerInspect, InitObservation, InitProgress, Inspection,
    Observation, TerminationMessage,
};
use kubelet_runtime::time::parse_time;

fn make_container(name: &str) -> Container {
    Container {
        name: name.to_string(),
        image: "nginx:latest".to_string(),
        image_pull_policy: Some("IfNotPresent".to_string()),
        ..Default::default()
    }
}

fn make_pod(restart_policy: &str, init: &[&str]) -> Pod {
    Pod {
        metadata: ObjectMeta::new("test-pod").with_namespace("default"),
        spec: Some(PodSpec {
            containers: vec![make_container("app")],
            init_containers: Some(init.iter().map(|n| make_container(n)).collect()),
            restart_policy: Some(restart_policy.to_string()),
            ..Default::default()
        }),
        status: None,
    }
}

fn runtime() -> ContainerRuntime {
    ContainerRuntime::new(
        "/volumes".to_string(),
        "10.96.0.10".to_string(),
        "cluster.local".to_string(),
        "rusternetes-network".to_string(),
        "10.96.0.1".to_string(),
        false,
        true,
    )
}

fn now() -> Timestamp {
    parse_time("2026-01-01T00:10:00Z").unwrap()
}

fn exited(id: &str, code: i64, started: &str, finished: &str) -> Inspection {
    read_inspection(&ContainerInspect {
        id: Some(id.to_string()),
        image: Some("sha256:abc".to_string()),
        restart_count: Some(0),
        running: Some(false),
        exited: true,
        exit_code: Some(code),
        error: None,
        started_at: Some(started.to_string()),
        finished_at: Some(finished.to_string()),
    })
}

fn running(id: &str, started: &str) -> Inspection {
    read_inspection(&ContainerInspect {
        id: Some(id.to_string()),
        image: Some("sha256:abc".to_string()),
        running: Some(true),
        started_at: Some(started.to_string()),
        ..Default::default()
    })
}

fn terminated(code: i32, id: &str) -> ContainerState {
    ContainerState::Terminated {
        exit_code: code,
        signal: None,
        reason: Some("Error".to_string()),
        message: None,
        started_at: parse_time("2026-01-01T00:00:00Z"),
        finished_at: parse_time("2026-01-01T00:01:00Z"),
        container_id: Some(id.to_string()),
    }
}

fn init_statuses(pod: &Pod, inspections: Vec<Option<Inspection>>) -> Vec<ContainerStatus> {
    let observed = inspections
        .into_iter()
        .map(|i| InitObservation { inspection: i, message: None })
        .collect();
    runtime().get_init_container_statuses(pod, &observed, false, now()).unwrap()
}

fn with_init_status(pod: &mut Pod, s: ContainerStatus) {
    pod.status =
        Some(PodStatus { init_container_statuses: Some(vec![s]), ..Default::default() });
}

#[test]
fn test_init_container_failure_restart_never_init_shows_terminated() {
    let pod = make_pod("Never", &["init-fail"]);
    let failed = exited("abc123", 1, "2026-01-01T00:00:00Z", "2026-01-01T00:00:01Z");
    let init_statuses = init_statuses(&pod, vec![Some(failed)]);
    assert_eq!(init_statuses.len(), 1);
    let init_status = &init_statuses[0];
    assert_eq!(init_status.name, "init-fail");
    assert!(!init_status.ready, "failed init container should not be ready");
    match &init_status.state {
        Some(ContainerState::Terminated { exit_code, .. }) => {
            assert_eq!(*exit_code, 1, "init container exit code should be 1");
        }
        other => panic!("Expected Terminated state, got: {:?}", other),
    }
    assert_eq!(init_status.container_id.as_deref(), Some("docker://abc123"));
}

#[test]
fn test_init_container_failure_restart_never_app_not_started() {
    let pod = make_pod("Never", &["init-fail"]);
    let app_statuses = initializing_statuses(&pod);
    assert_eq!(app_statuses.len(), 1);
    let app_status = &app_statuses[0];
    assert_eq!(app_status.name, "app");
    assert!(!app_status.ready, "app container should not be ready");
    assert_eq!(app_status.started, Some(false), "app container should not have started");
    assert!(
        app_status.container_id.is_none(),
        "app container should have no container ID (never created)"
    );
    match &app_status.state {
        Some(ContainerState::Waiting { reason, .. }) => {
            assert_eq!(
                reason.as_deref(),
                Some("PodInitializing"),
                "app container should be Waiting with reason PodInitializing"
            );
        }
        other => panic!("Expected Waiting state for app container, got: {:?}", other),
    }
}

#[test]
fn test_init_container_failure_restart_always_app_not_started() {
    let pod = make_pod("Always", &["init-fail"]);
    let app_statuses = runtime().get_container_statuses(&pod, &vec![Observation::default()]);
    assert_eq!(app_statuses.len(), 1);
    let app_status = &app_statuses[0];
    assert!(!app_status.ready, "app container should not be ready");
    assert_eq!(app_status.started, Some(false));
    assert!(app_status.container_id.is_none());
    match &app_status.state {
        Some(ContainerState::Waiting { reason, .. }) => {
            assert_eq!(reason.as_deref(), Some("PodInitializing"));
        }
        other => panic!("Expected Waiting state for app container, got: {:?}", other),
    }
}

#[test]
fn test_container_status_terminated_has_started_at() {
    let started = parse_time("2026-01-01T00:00:00Z").unwrap();
    let finished = parse_time("2026-01-01T00:01:00Z").unwrap();
    let pod = make_pod("Always", &[]);
    let observed = vec![Observation {
        inspection: Some(exited("abc123", 0, "2026-01-01T00:00:00Z", "2026-01-01T00:01:00Z")),
        ..Default::default()
    }];
    let state = runtime().get_container_statuses(&pod, &observed).remove(0).state.unwrap();
    match state {
        ContainerState::Terminated { started_at, finished_at, reason, container_id, .. } => {
            assert_eq!(started_at, Some(started), "Terminated state must include started_at");
            assert_eq!(finished_at, Some(finished), "Terminated state must include finished_at");
            assert_eq!(reason.as_deref(), Some("Completed"));
            assert_eq!(container_id.as_deref(), Some("docker://abc123"));
        }
        _ => panic!("Expected Terminated state"),
    }
}

#[test]
fn test_container_status_last_state_preserved() {
    let mut pod = make_pod("Always", &[]);
    pod.status = Some(PodStatus {
        container_statuses: Some(vec![ContainerStatus {
            name: "app".to_string(),
            restart_count: 1,
            last_state: Some(terminated(1, "docker://prev123")),
            ..Default::default()
        }]),
        ..Default::default()
    });
    let observed = vec![Observation {
        inspection: Some(running("new456", "2026-01-01T00:02:00Z")),
        started_up: true,
        ..Default::default()
    }];
    let status = runtime().get_container_statuses(&pod, &observed).remove(0);
    assert!(status.last_state.is_some(), "last_state should be set");
    match &status.last_state {
        Some(ContainerState::Terminated { exit_code, .. }) => {
            assert_eq!(*exit_code, 1, "last_state should have the previous exit code");
        }
        _ => panic!("Expected Terminated last_state"),
    }
    assert_eq!(status.restart_count, 1);
    assert_eq!(status.container_id.as_deref(), Some("docker://new456"));
}

#[test]
fn test_container_status_image_id_format() {
    let sha = "sha256:abcdef1234567890";
    let formatted = reported_image_id(&Some(sha.to_string())).unwrap();
    assert_eq!(
        formatted, "docker-pullable://sha256:abcdef1234567890",
        "image_id should be prefixed with docker-pullable://"
    );
    assert_eq!(reported_image_id(&Some("nginx".to_string())), Some("nginx".to_string()));
    assert_eq!(reported_id(&Some("abc".to_string())), Some("docker://abc".to_string()));
    assert_eq!(reported_id(&None), None);
}

#[test]
fn test_init_container_status_shows_crashloopbackoff_on_failure() {
    let mut pod = make_pod("Always", &["init1"]);
    with_init_status(
        &mut pod,
        ContainerStatus {
            name: "init1".to_string(),
            state: Some(terminated(1, "docker://a")),
            ..Default::default()
        },
    );
    let state = init_statuses(&pod, vec![None]).remove(0).state.unwrap();
    match &state {
        ContainerState::Waiting { reason, message } => {
            assert_eq!(reason.as_deref(), Some("CrashLoopBackOff"));
            assert_eq!(
                message.as_deref(),
                Some("back-off restarting failed container init container \"init1\" exited with 1")
            );
        }
        _ => panic!("Expected Waiting state"),
    }
}

#[test]
fn test_app_containers_show_pod_initializing_during_init() {
    let pod = make_pod("Always", &["init1"]);
    let app_status =
        runtime().get_container_statuses(&pod, &vec![Observation::default()]).remove(0);
    match &app_status.state {
        Some(ContainerState::Waiting { reason, .. }) => {
            assert_eq!(
                reason.as_deref(),
                Some("PodInitializing"),
                "App containers must show PodInitializing while init containers run"
            );
        }
        _ => panic!("App container should be in Waiting state during init"),
    }
    assert!(!app_status.ready, "App container should not be ready during init");
    assert_eq!(
        app_status.started,
        Some(false),
        "App container should not be started during init"
    );
}

#[test]
fn test_init_container_restart_count_increments() {
    let mut pod = make_pod("Always", &["init1"]);
    let mut status = ContainerStatus {
        name: "init1".to_string(),
        state: Some(terminated(1, "docker://run0")),
        container_id: Some("docker://run0".to_string()),
        ..Default::default()
    };
    for run in 1..4 {
        with_init_status(&mut pod, status);
        let id = format!("run{run}");
        let failed = exited(&id, 1, "2026-01-01T00:00:00Z", "2026-01-01T00:00:01Z");
        status = init_statuses(&pod, vec![Some(failed)]).remove(0);
    }
    assert!(
        status.restart_count >= 3,
        "Init container restart count should be >= 3 after multiple failures"
    );
    assert!(
        status.last_state.is_some(),
        "Init container should have lastTerminationState after restart"
    );
    match &status.last_state {
        Some(ContainerState::Terminated { exit_code, .. }) => {
            assert_ne!(*exit_code, 0, "LastTerminationState should show non-zero exit code");
        }
        _ => panic!("LastTerminationState should be Terminated"),
    }
}

#[test]
fn test_pod_stays_pending_during_init_failure() {
    let mut pod = make_pod("Always", &["init1"]);
    pod.status = Some(PodStatus {
        phase: Some(Phase::Pending),
        reason: Some("PodInitializing".to_string()),
        ..Default::default()
    });
    assert_eq!(
        pod.status.as_ref().unwrap().phase,
        Some(Phase::Pending),
        "Pod must stay Pending during init container failures"
    );
    assert_eq!(terminal_phase(&initializing_statuses(&pod)), None);
}

#[test]
fn test_init_container_state_machine_no_init_containers() {
    let has_init = false;
    assert!(!has_init, "Pod without init containers should be considered initialized");
    let pod = make_pod("Always", &[]);
    assert_eq!(
        runtime().compute_init_container_actions(&pod, &vec![]),
        (true, None, false),
        "Pod without init containers should be considered initialized"
    );
}

#[test]
fn test_second_init_container_waits_for_first() {
    let mut pod = make_pod("Always", &["init1", "init2"]);
    with_init_status(
        &mut pod,
        ContainerStatus {
            name: "init1".to_string(),
            state: Some(terminated(1, "docker://a")),
            ..Default::default()
        },
    );
    let init_statuses = init_statuses(&pod, vec![None, None]);
    match &init_statuses[0].state {
        Some(ContainerState::Waiting { reason, .. }) => {
            assert_eq!(reason.as_deref(), Some("CrashLoopBackOff"));
        }
        _ => panic!("First init container should be Waiting/CrashLoopBackOff"),
    }
    match &init_statuses[1].state {
        Some(ContainerState::Waiting { reason, .. }) => {
            assert_eq!(reason.as_deref(), Some("PodInitializing"));
        }
        _ => panic!("Second init container should be Waiting/PodInitializing"),
    }
    assert_eq!(init_statuses[0].restart_count, 1);
    assert_eq!(init_statuses[1].restart_count, 0);
}

#[test]
fn init_containers_are_started_one_after_another() {
    let r = runtime();
    let pod = make_pod("Always", &["init1", "init2"]);
    let actions = |pod: &Pod, p: &[InitProgress]| r.compute_init_container_actions(pod, &p.to_vec());
    use_actions(&pod, &actions);
    let never = make_pod("Never", &["init1", "init2"]);
    assert_eq!(
        actions(&never, &[InitProgress::Exited(Some(1)), InitProgress::Missing]),
        (false, None, false)
    );
    let mut sidecar = make_pod("Always", &["proxy", "init2"]);
    sidecar.spec.as_mut().unwrap().init_containers.as_mut().unwrap()[0].restart_policy =
        Some("Always".to_string());
    assert_eq!(
        actions(&sidecar, &[InitProgress::Running, InitProgress::Missing]),
        (false, Some(1), false)
    );
}

fn use_actions(
    pod: &Pod,
    actions: &dyn Fn(&Pod, &[InitProgress]) -> (bool, Option<usize>, bool),
) {
    assert_eq!(
        actions(pod, &[InitProgress::Missing, InitProgress::Missing]),
        (false, Some(0), false)
    );
    assert_eq!(
        actions(pod, &[InitProgress::Running, InitProgress::Missing]),
        (false, None, false)
    );
    assert_eq!(
        actions(pod, &[InitProgress::Exited(Some(1)), InitProgress::Missing]),
        (false, Some(0), true)
    );
    assert_eq!(
        actions(pod, &[InitProgress::Exited(Some(0)), InitProgress::Other]),
        (false, Some(1), false)
    );
    assert_eq!(
        actions(pod, &[InitProgress::Exited(Some(0)), InitProgress::Exited(Some(0))]),
        (true, None, false)
    );
}

#[test]
fn an_init_success_outlives_its_container() {
    let mut pod = make_pod("Always", &["init1"]);
    with_init_status(
        &mut pod,
        ContainerStatus {
            name: "init1".to_string(),
            restart_count: 2,
            state: Some(terminated(0, "docker://a")),
            ..Default::default()
        },
    );
    let s = init_statuses(&pod, vec![None]).remove(0);
    assert!(s.ready);
    assert_eq!(s.restart_count, 2);
    assert!(matches!(s.state, Some(ContainerState::Terminated { exit_code: 0, .. })));
}

#[test]
fn test_last_state_terminated_carries_exit_code() {
    let mut pod = make_pod("Always", &[]);
    pod.status = Some(PodStatus {
        container_statuses: Some(vec![ContainerStatus {
            name: "app".to_string(),
            restart_count: 1,
            last_state: Some(terminated(42, "docker://prev")),
            ..Default::default()
        }]),
        ..Default::default()
    });
    let observed = vec![Observation {
        inspection: Some(running("next", "2026-01-01T00:00:10Z")),
        ready: true,
        started_up: true,
        message: None,
    }];
    let cs = runtime().get_container_statuses(&pod, &observed).remove(0);
    match cs.last_state {
        Some(ContainerState::Terminated { exit_code, .. }) => {
            assert_eq!(exit_code, 42, "lastState exit_code must match previous run");
        }
        _ => panic!("lastState must be Terminated with exit_code"),
    }
}

#[test]
fn a_killed_container_names_its_cause() {
    let pod = make_pod("Never", &[]);
    let observed = vec![Observation {
        inspection: Some(exited("abc", 137, "2026-01-01T00:00:00Z", "2026-01-01T00:00:30Z")),
        message: Some("last words".to_string()),
        ..Default::default()
    }];
    match runtime().get_container_statuses(&pod, &observed).remove(0).state {
        Some(ContainerState::Terminated { exit_code, reason, message, .. }) => {
            assert_eq!(exit_code, 137);
            assert_eq!(reason.as_deref(), Some("OOMKilled"));
            assert_eq!(message.as_deref(), Some("last words"));
        }
        _ => panic!("the container has ended"),
    }
}

#[test]
fn a_restart_count_does_not_go_down() {
    let mut pod = make_pod("Always", &[]);
    pod.status = Some(PodStatus {
        container_statuses: Some(vec![ContainerStatus {
            name: "app".to_string(),
            restart_count: 5,
            ..Default::default()
        }]),
        ..Default::default()
    });
    let mut i = running("a", "2026-01-01T00:00:10Z");
    i.restart_count = Some(2);
    let observed = vec![Observation { inspection: Some(i), ..Default::default() }];
    assert_eq!(runtime().get_container_statuses(&pod, &observed)[0].restart_count, 5);
}

#[test]
fn ephemeral_containers_are_reported_too() {
    let mut pod = make_pod("Always", &[]);
    pod.spec.as_mut().unwrap().ephemeral_containers = Some(vec![EphemeralContainer {
        name: "debugger".to_string(),
        image: "busybox".to_string(),
        ..Default::default()
    }]);
    let s = runtime()
        .get_ephemeral_container_statuses(&pod, &vec![Some(running("d", "2026-01-01T00:00:00Z"))])
        .unwrap();
    assert_eq!(s[0].name, "debugger");
    assert!(s[0].ready);
    let s = runtime().get_ephemeral_container_statuses(&pod, &vec![None]).unwrap();
    assert!(matches!(
        &s[0].state,
        Some(ContainerState::Waiting { reason: Some(r), .. }) if r == "ContainerCreating"
    ));
}

#[test]
fn application_containers_are_told_from_init_containers() {
    let pod = make_pod("Always", &["init1"]);
    let named = |n: &str| ContainerSummary {
        names: Some(vec![format!("/{n}")]),
        ..Default::default()
    };
    let r = runtime();
    assert!(r.has_any_app_container(&pod, &vec![named("test-pod_app")]));
    assert!(!r.has_any_app_container(&pod, &vec![named("test-pod_init1"), named("test-pod_pause")]));
}

#[test]
fn an_unset_restart_policy_is_always() {
    let mut pod = make_pod("", &[]);
    assert_eq!(effective_restart_policy(&pod), "Always");
    pod.spec.as_mut().unwrap().restart_policy = None;
    assert_eq!(effective_restart_policy(&pod), "Always");
    pod.spec.as_mut().unwrap().restart_policy = Some("Never".to_string());
    assert_eq!(effective_restart_policy(&pod), "Never");
}

fn message(policy: Option<&str>, content: Option<&str>, exit_code: i64) -> TerminationMessage {
    let mut c = make_container("app");
    c.termination_message_policy = policy.map(|s| s.to_string());
    runtime().read_termination_message(&c, &content.map(|s| s.to_string()), exit_code)
}

#[test]
fn test_fallback_to_logs_on_error_policy_detection() {
    let policy_fallback = Some("FallbackToLogsOnError");
    let policy_file = Some("File");
    assert!(
        matches!(message(policy_fallback, None, 1), TerminationMessage::Logs),
        "FallbackToLogsOnError policy should match"
    );
    assert!(
        !matches!(message(policy_file, None, 1), TerminationMessage::Logs),
        "File policy should not match FallbackToLogsOnError"
    );
    assert!(
        !matches!(message(None, None, 1), TerminationMessage::Logs),
        "None policy should not match FallbackToLogsOnError"
    );
}

#[test]
fn test_fallback_skipped_on_success_exit() {
    let policy = "FallbackToLogsOnError";
    assert!(
        matches!(message(Some(policy), None, 0), TerminationMessage::Nothing),
        "FallbackToLogsOnError with exit_code 0 should produce no message"
    );
}

#[test]
fn a_success_has_what_its_file_says() {
    for policy in [None, Some("File"), Some("FallbackToLogsOnError")] {
        assert!(matches!(
            message(policy, Some("all done"), 0),
            TerminationMessage::Found(m) if m == "all done"
        ));
        assert!(matches!(message(policy, Some(""), 0), TerminationMessage::Nothing));
    }
}

#[test]
fn test_fallback_triggered_on_error_exit() {
    let policy = "FallbackToLogsOnError";
    let should_read = !matches!(message(Some(policy), Some(""), 1), TerminationMessage::Nothing);
    assert!(
        should_read,
        "FallbackToLogsOnError with non-zero exit should read termination message"
    );
    assert!(matches!(
        message(Some(policy), Some("from the file"), 1),
        TerminationMessage::Found(m) if m == "from the file"
    ));
}

#[test]
fn test_termination_message_truncation() {
    let long_content = "x".repeat(8192);
    let content = match message(None, Some(&long_content), 0) {
        TerminationMessage::Found(m) => m,
        _ => panic!("there is a message"),
    };
    assert_eq!(content.len(), 4096);
}

#[test]
fn a_message_is_cut_between_characters() {
    let mut long = "x".repeat(4095);
    long.push_str("\u{e9}\u{e9}");
    match message(None, Some(&long), 0) {
        TerminationMessage::Found(m) => assert_eq!(m.len(), 4095),
        _ => panic!("there is a message"),
    }
    let mut log = "a".to_string();
    log.push_str(&"\u{e9}".repeat(2048));
    let tail = read_container_logs_tail(&log).unwrap();
    assert_eq!(tail.len(), 4095);
    assert!(log.starts_with(&tail));
    let log = "y".repeat(5000);
    assert_eq!(read_container_logs_tail(&log).unwrap().len(), 4096);
    assert_eq!(read_container_logs_tail(""), None);
    assert_eq!(read_container_logs_tail("short"), Some("short".to_string()));
}

#[test]
fn a_message_file_lies_in_its_pods_directory() {
    let r = runtime();
    assert_eq!(
        r.termination_host_file("test-pod_app", &make_container("app")),
        "/volumes/test-pod/termination/app"
    );
}

#[test]
fn times_are_read_as_rfc_3339() {
    assert_eq!(
        parse_time("1970-01-01T00:01:00.5Z"),
        Some(Timestamp { secs: 60, nanos: 500_000_000 })
    );
    assert_eq!(
        parse_time("1970-01-01T01:00:00+01:00"),
        Some(Timestamp { secs: 0, nanos: 0 })
    );
    assert_eq!(parse_time("yesterday"), None);
}

#[test]
fn a_container_is_ready_only_while_it_runs() {
    let pod = make_pod("Always", &[]);
    let report = |inspection: Inspection, started_up: bool| {
        let observed = vec![Observation {
            inspection: Some(inspection),
            started_up,
            ready: true,
            ..Default::default()
        }];
        let s = runtime().get_container_statuses(&pod, &observed).remove(0);
        (s.started, s.ready)
    };
    let begun = "2026-01-01T00:02:00Z";
    assert_eq!(report(running("a", begun), true), (Some(true), true));
    assert_eq!(report(running("a", begun), false), (Some(false), false));
    let over = exited("a", 0, begun, "2026-01-01T00:03:00Z");
    assert!(leaves_message(&over));
    assert!(!leaves_message(&running("a", begun)));
    assert_eq!(report(over, true), (Some(false), false));
}

#[test]
fn a_status_that_is_kept_is_kept_whole() {
    let mut pod = make_pod("Always", &[]);
    pod.status = Some(PodStatus {
        container_statuses: Some(vec![ContainerStatus {
            name: "app".to_string(),
            last_state: Some(ContainerState::Terminated {
                exit_code: 137,
                signal: Some(9),
                reason: None,
                message: None,
                started_at: None,
                finished_at: None,
                container_id: None,
            }),
            stop_signal: Some("SIGINT".to_string()),
            user: Some("{\"linux\":{\"uid\":1000}}".to_string()),
            volume_mounts: Some("[]".to_string()),
            allocated_resources_status: Some("[]".to_string()),
            ..Default::default()
        }]),
        ..Default::default()
    });
    let s = runtime().get_container_statuses(&pod, &vec![Observation::default()]).remove(0);
    assert!(matches!(s.last_state, Some(ContainerState::Terminated { signal: Some(9), .. })));
    assert_eq!(s.stop_signal.as_deref(), Some("SIGINT"));
    assert_eq!(s.user.as_deref(), Some("{\"linux\":{\"uid\":1000}}"));
    assert_eq!(s.volume_mounts.as_deref(), Some("[]"));
    assert_eq!(s.allocated_resources_status.as_deref(), Some("[]"));
}
