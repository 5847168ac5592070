//! Images, garbage collection, measurements, starting a pod and launching the programs.

use kubelet_runtime::api::{
    Container, ContainerState, ContainerStatus, ObjectMeta, Phase, Pod, PodSpec, PodStatus,
    Timestamp, Volume,
};
use kubelet_runtime::daemon::ContainerSummary;
use kubelet_runtime::gc::{age_in_seconds, container_ages_fit, should_fully_cleanup_pod};
use kubelet_runtime::image::ImageAsk;
use kubelet_runtime::launch::{
    election_config, endpoints, launch_plan, log_level, metrics_address, scheduler_storage,
    service_host, storage_config, LaunchArgs, LogLevel, StorageArgs, StorageConfig,
};
use kubelet_runtime::metrics::{
    cpu_shares_used, memory_in_use, memory_total_fits, CpuSample, MemorySample,
};
use kubelet_runtime::pod::{
    inject_token_volume, refresh_init_container_statuses, report_end, report_initializing,
    retry_backoff, retry_message, store_token_volume, terminal_phase, token_volume, StartAnswer,
    StartAsk, WaitOutcome, WaitState,
};
use kubelet_runtime::runtime::ContainerRuntime;
use kubelet_runtime::token::SA_TOKEN_MOUNT_DESTINATION;

fn runtime(use_cni: bool) -> ContainerRuntime {
    ContainerRuntime::new(
        "/volumes".to_string(),
        "10.96.0.10".to_string(),
        "cluster.local".to_string(),
        "rusternetes-network".to_string(),
        "10.96.0.1".to_string(),
        use_cni,
        true,
    )
}

fn container(name: &str) -> Container {
    Container { name: name.to_string(), image: "nginx".to_string(), ..Default::default() }
}

fn pod(init: &[&str], apps: &[&str]) -> Pod {
    Pod {
        metadata: ObjectMeta::new("web-0").with_namespace("default"),
        spec: Some(PodSpec {
            containers: apps.iter().map(|n| container(n)).collect(),
            init_containers: Some(init.iter().map(|n| container(n)).collect()),
            restart_policy: Some("Always".to_string()),
            ..Default::default()
        }),
        status: None,
    }
}

fn listed(id: &str, name: &str, state: &str, created: i64) -> ContainerSummary {
    ContainerSummary {
        id: Some(id.to_string()),
        names: Some(vec![format!("/{name}")]),
        state: Some(state.to_string()),
        created: Some(created),
        ..Default::default()
    }
}

// --- garbage collection ---

#[test]
fn should_not_fully_cleanup_pod_with_no_running_container_but_still_in_storage() {
    assert!(!should_fully_cleanup_pod(false, true));
}

#[test]
fn should_fully_cleanup_pod_with_no_running_container_and_gone_from_storage() {
    assert!(should_fully_cleanup_pod(false, false));
}

#[test]
fn should_not_fully_cleanup_pod_with_a_running_container() {
    assert!(!should_fully_cleanup_pod(true, true));
    assert!(!should_fully_cleanup_pod(true, false));
}

#[test]
fn the_newest_dead_container_of_a_live_pod_stays() {
    let all = vec![
        listed("old", "web-0_app", "exited", 100),
        listed("new", "web-0_app", "exited", 200),
        listed("run", "web-0_side", "running", 300),
        listed("gone", "lost_app", "exited", 50),
        listed("idle", "web-1_app", "created", 600),
        listed("fresh", "web-1_app", "created", 950),
        listed("infra", "rusternetes-etcd", "exited", 1),
    ];
    assert!(container_ages_fit(&all, 1000));
    let plan = runtime(false).garbage_collect_containers(&all, &vec!["web-0".to_string()], 1000);
    assert_eq!(plan.remove, vec!["old".to_string(), "gone".to_string()]);
    assert_eq!(plan.cleanup_pods, vec!["lost".to_string()]);
    assert_eq!(plan.remove_again, vec!["gone".to_string()]);
    assert_eq!(plan.stale, vec!["idle".to_string()]);
    assert!(!container_ages_fit(&vec![listed("x", "p_c", "exited", i64::MIN)], 1));
}

#[test]
fn an_orphaned_sandbox_goes_though_it_runs() {
    let all = vec![
        listed("app", "web-0_app", "exited", 100),
        listed("hold", "web-0_pause", "running", 90),
        listed("alone", "web-1_pause", "running", 90),
        listed("used", "web-2_pause", "running", 90),
        listed("side", "web-2_app", "running", 95),
        listed("kept", "web-3_pause", "running", 90),
    ];
    let plan = runtime(false).garbage_collect_containers(&all, &vec!["web-3".to_string()], 200);
    assert_eq!(plan.remove, vec!["app".to_string()]);
    assert_eq!(plan.remove_again, vec!["app".to_string()]);
    assert_eq!(plan.cleanup_pods, vec!["web-0".to_string(), "web-1".to_string()]);
    assert!(plan.stale.is_empty());
}

#[test]
fn pods_are_listed_by_their_containers() {
    let r = runtime(false);
    let all = vec![
        listed("1", "web-0_app", "running", 0),
        listed("2", "web-0_pause", "running", 0),
        listed("3", "rusternetes-etcd", "running", 0),
        listed("4", "db-0_app", "running", 0),
    ];
    assert_eq!(r.list_running_pods(&all), vec!["web-0".to_string(), "db-0".to_string()]);
    assert!(r.list_all_pods(&all).is_empty());
    let mut own = all.clone();
    own[3].labels = Some(r.ownership_labels("db-0"));
    assert_eq!(r.list_all_pods(&own), vec!["db-0".to_string()]);
    assert_eq!(r.orphan_sandbox("web-0"), "web-0_pause");
}

#[test]
fn ages_are_never_negative() {
    let now = Timestamp { secs: 100, nanos: 0 };
    let r = runtime(false);
    assert_eq!(r.get_container_age(&Some("1970-01-01T00:00:40Z".to_string()), now), 60);
    assert_eq!(r.get_container_age(&Some("1970-01-01T00:02:40Z".to_string()), now), 0);
    assert_eq!(r.get_container_age(&Some("nonsense".to_string()), now), 0);
    assert_eq!(r.get_container_age(&None, now), 0);
    assert_eq!(age_in_seconds(Some(Timestamp { secs: 1, nanos: 0 }), now), 99);
}

// --- images ---

#[test]
fn image_names_are_completed() {
    let r = runtime(false);
    assert_eq!(r.normalize_image_name("nginx:1"), "docker.io/library/nginx:1");
    assert_eq!(r.normalize_image_name("bitnami/redis"), "docker.io/bitnami/redis");
    assert_eq!(r.normalize_image_name("quay.io/a/b"), "quay.io/a/b");
    assert_eq!(r.normalize_image_name("localhost:5000/b"), "localhost:5000/b");
    let full = r.normalize_image_name("nginx");
    assert_eq!(r.normalize_image_name(&full), full);
}

#[test]
fn policies_say_when_to_pull() {
    let r = runtime(false);
    assert!(r.should_pull(Some("Always"), true));
    assert!(!r.should_pull(Some("Never"), false));
    assert!(r.should_pull(Some("IfNotPresent"), false));
    assert!(!r.should_pull(None, true));
}

#[test]
fn an_image_is_asked_for_once() {
    let mut r = runtime(false);
    let ask = r.first_image_ask("nginx", None);
    assert_eq!(ask, ImageAsk::Exists);
    let ask = r.ensure_image("nginx", None, ask, false);
    assert_eq!(ask, ImageAsk::PullFull);
    let ask = r.ensure_image("nginx", None, ask, false);
    assert_eq!(ask, ImageAsk::PullAsGiven);
    assert_eq!(r.ensure_image("nginx", None, ask, true), ImageAsk::Done);
    assert_eq!(r.first_image_ask("nginx", None), ImageAsk::Done);
    assert_eq!(r.first_image_ask("docker.io/library/nginx", None), ImageAsk::Done);
    assert_eq!(r.first_image_ask("nginx", Some("Always")), ImageAsk::Exists);
    let ask = r.ensure_image("quay.io/x", None, ImageAsk::PullFull, false);
    assert_eq!(ask, ImageAsk::Failed);
}

#[test]
fn a_pull_tells_its_errors() {
    let r = runtime(false);
    assert!(r.pull_image_with_retry(&vec![]).is_ok());
    let e = r.pull_image_with_retry(&vec!["not found".to_string()]);
    assert!(e.unwrap_err().contains("not found"));
}

// --- measurements ---

#[test]
fn memory_without_the_cache_is_in_use() {
    let samples = vec![
        MemorySample { usage: Some(100), cache: 30 },
        MemorySample { usage: Some(5), cache: 9 },
        MemorySample { usage: None, cache: 9 },
    ];
    assert!(memory_total_fits(&samples));
    assert_eq!(memory_in_use(&samples), 70);
    let huge = MemorySample { usage: Some(u64::MAX), cache: 0 };
    assert!(!memory_total_fits(&vec![huge, huge]));
}

#[test]
fn processor_use_needs_two_samples() {
    let s = CpuSample {
        total: 30,
        previous_total: 10,
        system: Some(200),
        previous_system: Some(100),
    };
    assert_eq!(cpu_shares_used(&s), Some((20, 100)));
    assert_eq!(cpu_shares_used(&CpuSample { system: None, ..s }), None);
}

#[test]
fn the_containers_of_the_pods_are_measured() {
    let all = vec![
        listed("a", "web-0_app", "running", 0),
        listed("p", "web-0_pause", "running", 0),
        listed("b", "db-0_app", "running", 0),
        listed("c", "web-02_app", "running", 0),
    ];
    let ids = runtime(false).collect_node_metrics(&vec!["web-0".to_string()], &all);
    assert_eq!(ids, vec!["a".to_string()]);
}

#[test]
fn resources_are_updated_together() {
    let u = runtime(false).update_container_resources(Some(100_000), Some(50_000), Some(512), Some(64));
    assert_eq!(u.cpu_period, Some(100_000));
    assert_eq!(u.cpu_quota, Some(50_000));
    assert_eq!(u.cpu_shares, Some(512));
    assert_eq!(u.memory, Some(64));
}

// --- starting a pod ---

#[test]
fn a_pod_is_started_step_by_step() {
    let r = runtime(false);
    let mut p = pod(&["init"], &["app"]);
    p.spec.as_mut().unwrap().restart_policy = Some("Never".to_string());
    let mut s = r.first_start_step();
    let mut seen = vec![s.ask];
    while s.ask != StartAsk::Done && s.ask != StartAsk::Failed {
        let answer = match s.ask {
            StartAsk::Running | StartAsk::Settle => StartAnswer::No,
            _ => StartAnswer::Yes,
        };
        s = r.start_pod(&p, s, answer);
        seen.push(s.ask);
        assert!(seen.len() < 40);
    }
    assert_eq!(s.ask, StartAsk::Done);
    let position = |ask: StartAsk| seen.iter().position(|a| *a == ask).unwrap();
    assert!(position(StartAsk::StoreTokenVolume) < position(StartAsk::Volumes));
    assert!(position(StartAsk::Volumes) < position(StartAsk::Images));
    assert!(position(StartAsk::WaitForInit(0, 0)) < position(StartAsk::StartMain(0)));
    assert!(!seen.contains(&StartAsk::Network));
}

#[test]
fn a_failed_init_container_is_started_over() {
    let r = runtime(false);
    let p = pod(&["init"], &["app"]);
    let mut s = r.first_start_step();
    let mut starts: u32 = 0;
    for _ in 0..80 {
        let answer = match s.ask {
            StartAsk::Running => StartAnswer::No,
            StartAsk::StartInit(..) => {
                starts += 1;
                StartAnswer::Yes
            }
            StartAsk::WaitForInit(..) => StartAnswer::Error,
            StartAsk::StartMain(_) => panic!("the init container failed"),
            StartAsk::Done | StartAsk::Failed => break,
            _ => StartAnswer::Yes,
        };
        s = r.start_pod(&p, s, answer);
    }
    assert_eq!(s.ask, StartAsk::Failed);
    assert_eq!(starts, 4);
    assert_eq!(
        [0u32, 1, 2, 3, 4, 9].map(retry_backoff),
        [1, 2, 4, 8, 16, 30]
    );
    assert!(retry_message("init", 4).contains("4"));
}

#[test]
fn a_running_pod_is_not_started_again() {
    let r = runtime(true);
    let p = pod(&[], &["app"]);
    let s = r.first_start_step();
    assert_eq!(r.start_pod(&p, s, StartAnswer::Yes).ask, StartAsk::Done);
    let next = r.start_pod(&p, s, StartAnswer::No);
    assert_eq!(r.start_pod(&p, next, StartAnswer::Yes).ask, StartAsk::Network);
}

#[test]
fn a_pod_gets_a_token_volume_once() {
    let mut p = pod(&["init"], &["app", "side"]);
    assert!(inject_token_volume(&mut p));
    let spec = p.spec.as_ref().unwrap();
    assert_eq!(spec.volumes.as_ref().unwrap()[0].name, "kube-api-access");
    for c in &spec.containers {
        let m = &c.volume_mounts.as_ref().unwrap()[0];
        assert_eq!(m.mount_path, SA_TOKEN_MOUNT_DESTINATION);
        assert_eq!(m.read_only, Some(true));
    }
    assert!(spec.init_containers.as_ref().unwrap()[0].volume_mounts.is_none());
    assert!(!inject_token_volume(&mut p));
    assert_eq!(token_volume().projected.unwrap().sources.unwrap().len(), 3);

    let mut stored = pod(&["init"], &["app", "side"]);
    let spec = p.spec.unwrap();
    assert!(store_token_volume(&mut stored, spec.volumes.clone(), spec.containers.clone()));
    assert!(!store_token_volume(&mut stored, spec.volumes, spec.containers));
    let mut own = pod(&[], &["app"]);
    own.spec.as_mut().unwrap().volumes =
        Some(vec![Volume { name: "my-kube-api-access".to_string(), ..Default::default() }]);
    assert!(!inject_token_volume(&mut own));
}

#[test]
fn images_are_listed_once() {
    let mut p = pod(&["init"], &["app"]);
    p.spec.as_mut().unwrap().containers[0].image = "redis".to_string();
    p.spec.as_mut().unwrap().containers[0].image_pull_policy = Some("Always".to_string());
    p.spec.as_mut().unwrap().containers.push(container("again"));
    let images = runtime(false).pod_images(&p);
    assert_eq!(images.len(), 2);
    assert!(images.contains(&("nginx".to_string(), None)));
    assert!(images.contains(&("redis".to_string(), Some("Always".to_string()))));
    assert_eq!(runtime(false).old_container_filter("web-0"), "^/web-0");
}

#[test]
fn an_init_container_is_waited_for() {
    let r = runtime(false);
    let running = Some(WaitState { running: Some(true), exit_code: None, error: None });
    assert!(matches!(
        r.wait_for_container_completion("c", false, &running),
        WaitOutcome::Again
    ));
    assert!(matches!(
        r.wait_for_container_completion("c", true, &running),
        WaitOutcome::Failed(m) if m == "Timeout waiting for init container c to complete"
    ));
    let done = Some(WaitState { running: Some(false), exit_code: Some(0), error: None });
    assert!(matches!(
        r.wait_for_container_completion("c", false, &done),
        WaitOutcome::Completed
    ));
    let failed = Some(WaitState { running: Some(false), exit_code: Some(2), error: None });
    assert!(matches!(
        r.wait_for_container_completion("c", false, &failed),
        WaitOutcome::Failed(m) if m.contains('2')
    ));
}

fn ended(code: i32) -> ContainerStatus {
    ContainerStatus {
        name: "app".to_string(),
        state: Some(ContainerState::Terminated {
            exit_code: code,
            signal: None,
            reason: None,
            message: None,
            started_at: None,
            finished_at: None,
            container_id: None,
        }),
        ..Default::default()
    }
}

#[test]
fn a_pod_ends_as_its_containers_do() {
    assert_eq!(terminal_phase(&vec![ended(0), ended(0)]), Some(Phase::Succeeded));
    assert_eq!(terminal_phase(&vec![ended(0), ended(1)]), Some(Phase::Failed));
    assert_eq!(terminal_phase(&vec![ended(0), ContainerStatus::default()]), None);
    let mut s = PodStatus::default();
    report_end(&mut s, Phase::Succeeded, vec![ended(0)], Timestamp { secs: 9, nanos: 0 });
    assert_eq!(s.phase, Some(Phase::Succeeded));
    assert_eq!(s.container_statuses.unwrap().len(), 1);
}

#[test]
fn a_pod_reports_that_it_is_being_initialised() {
    let mut s = PodStatus::default();
    report_initializing(&mut s, Some(vec![ended(0)]), vec![ContainerStatus::default()]);
    assert_eq!(s.init_container_statuses.as_ref().unwrap().len(), 1);
    assert_eq!(s.container_statuses.as_ref().unwrap().len(), 1);
    refresh_init_container_statuses(&mut s, None, Some("Because"), Some("text".to_string()));
    assert_eq!(s.reason.as_deref(), Some("Because"));
    assert_eq!(s.message.as_deref(), Some("text"));
}

// --- launching ---

#[test]
fn words_become_levels() {
    assert_eq!(log_level("trace"), LogLevel::Trace);
    assert_eq!(log_level("debug"), LogLevel::Debug);
    assert_eq!(log_level("info"), LogLevel::Info);
    assert_eq!(log_level("warn"), LogLevel::Warn);
    assert_eq!(log_level("error"), LogLevel::Error);
    assert_eq!(log_level("loud"), LogLevel::Info);
}

#[test]
fn storage_is_chosen_by_name() {
    let args = |backend: &str| StorageArgs {
        storage_backend: backend.to_string(),
        data_dir: "/d/db".to_string(),
        etcd_servers: "http://a:1, http://b:2".to_string(),
        redis_url: "redis://r".to_string(),
    };
    assert!(matches!(
        storage_config(&args("sqlite"), &Ok(())),
        Ok(StorageConfig::Sqlite { path }) if path == "/d/db"
    ));
    assert!(matches!(
        storage_config(&args("etcd"), &Ok(())),
        Ok(StorageConfig::Etcd { endpoints }) if endpoints == vec!["http://a:1", "http://b:2"]
    ));
    assert!(matches!(
        storage_config(&args("redis"), &Ok(())),
        Ok(StorageConfig::Redis { url }) if url == "redis://r"
    ));
    assert_eq!(
        storage_config(&args("tape"), &Ok(())).unwrap_err(),
        "Unknown storage backend: tape. Use 'sqlite', 'etcd', or 'redis'."
    );
    assert_eq!(endpoints(" a ,b"), vec!["a", "b"]);
    assert!(matches!(
        scheduler_storage("etcd", "/d", "x", &Ok(())),
        Ok(StorageConfig::Etcd { .. })
    ));
    let refused = Err("backend tape is not compiled in".to_string());
    assert_eq!(
        scheduler_storage("tape", "/d", "x", &refused).unwrap_err(),
        "backend tape is not compiled in"
    );
    assert_eq!(
        storage_config(&args("sqlite"), &refused).unwrap_err(),
        "backend tape is not compiled in"
    );
}

#[test]
fn a_lease_is_renewed_three_times_over() {
    let e = election_config(&None, "f00", "/lock", 15);
    assert_eq!(e.identity, "scheduler-f00");
    assert_eq!((e.lease_duration, e.renew_interval, e.retry_interval), (15, 5, 2));
    let e = election_config(&Some("me".to_string()), "f00", "/lock", 15);
    assert_eq!(e.identity, "me");
    assert!(metrics_address(9100).ends_with(":9100"));
}

#[test]
fn one_set_of_arguments_configures_all_programs() {
    let a = LaunchArgs {
        node_name: "n1".to_string(),
        tls: true,
        proxy_sync_interval: 30,
        ..Default::default()
    };
    let p = launch_plan(&a, &Some("10.0.0.1".to_string()));
    assert!(p.api_server.tls_self_signed);
    assert_eq!(p.kubelet.node_name, "n1");
    assert_eq!(p.kubelet.cluster_domain, "cluster.local");
    assert_eq!(p.kubelet.metrics_port, 10250);
    assert_eq!(p.kubelet.kubernetes_service_host, "10.0.0.1");
    assert_eq!(p.kube_proxy.unwrap().sync_interval, 30);
    let p = launch_plan(&LaunchArgs { disable_proxy: true, ..a }, &None);
    assert!(p.kube_proxy.is_none());
    assert_eq!(service_host(&None, &None), "127.0.0.1");
}
