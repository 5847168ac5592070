//! Security options, users and capabilities of a container.

use kubelet_runtime::api::{
    Capabilities, Container, ObjectMeta, Pod, PodSecurityContext, PodSpec, SeccompProfile,
    SecurityContext, Sysctl,
};
use kubelet_runtime::sandbox::extract_sysctls;
use kubelet_runtime::security::{run_as_user, security_opts_for};

fn profile(kind: &str) -> Option<SeccompProfile> {
    Some(SeccompProfile { type_: kind.to_string(), localhost_profile: None })
}

#[test]
fn security_opts_none_when_nothing_set() {
    assert_eq!(security_opts_for(None, None), None);
}

#[test]
fn security_opts_no_new_privileges_from_container_allow_privilege_escalation() {
    let sc = SecurityContext { allow_privilege_escalation: Some(false), ..Default::default() };
    assert_eq!(
        security_opts_for(Some(&sc), None),
        Some(vec!["no-new-privileges".to_string()])
    );
}

#[test]
fn a_pods_user_says_nothing_of_privileges() {
    for run_as_non_root in [Some(false), Some(true), None] {
        let pod_sc = PodSecurityContext { run_as_non_root, ..Default::default() };
        assert_eq!(security_opts_for(None, Some(&pod_sc)), None);
        let allowed =
            SecurityContext { allow_privilege_escalation: Some(true), ..Default::default() };
        assert_eq!(security_opts_for(Some(&allowed), Some(&pod_sc)), None);
    }
}

#[test]
fn security_opts_seccomp_unconfined_from_container() {
    let sc = SecurityContext { seccomp_profile: profile("Unconfined"), ..Default::default() };
    assert_eq!(
        security_opts_for(Some(&sc), None),
        Some(vec!["seccomp=unconfined".to_string()])
    );
}

#[test]
fn security_opts_seccomp_falls_back_to_pod_level() {
    let pod_sc =
        PodSecurityContext { seccomp_profile: profile("Unconfined"), ..Default::default() };
    assert_eq!(
        security_opts_for(None, Some(&pod_sc)),
        Some(vec!["seccomp=unconfined".to_string()])
    );
}

#[test]
fn security_opts_container_seccomp_overrides_pod_level() {
    let pod_sc =
        PodSecurityContext { seccomp_profile: profile("Unconfined"), ..Default::default() };
    let container_sc =
        SecurityContext { seccomp_profile: profile("RuntimeDefault"), ..Default::default() };
    assert_eq!(security_opts_for(Some(&container_sc), Some(&pod_sc)), None);
}

#[test]
fn security_opts_runtime_default_and_localhost_add_no_entry() {
    for profile_type in ["RuntimeDefault", "Localhost"] {
        let sc = SecurityContext { seccomp_profile: profile(profile_type), ..Default::default() };
        assert_eq!(security_opts_for(Some(&sc), None), None);
    }
}

#[test]
fn security_opts_combines_both_entries() {
    let sc = SecurityContext {
        allow_privilege_escalation: Some(false),
        seccomp_profile: profile("Unconfined"),
        ..Default::default()
    };
    assert_eq!(
        security_opts_for(Some(&sc), None),
        Some(vec!["no-new-privileges".to_string(), "seccomp=unconfined".to_string()])
    );
}

#[test]
fn security_opts_supports_the_nested_namespace_grant_without_privileged() {
    let sc = SecurityContext {
        capabilities: Some(Capabilities { add: Some(vec!["SYS_ADMIN".to_string()]), drop: None }),
        seccomp_profile: profile("Unconfined"),
        ..Default::default()
    };
    assert_eq!(sc.privileged, None);
    assert_eq!(
        security_opts_for(Some(&sc), None),
        Some(vec!["seccomp=unconfined".to_string()])
    );
}

#[test]
fn the_container_user_comes_before_the_pods() {
    let mut pod = make_pod_with_sysctls("p", None);
    pod.spec.as_mut().unwrap().security_context =
        Some(PodSecurityContext { run_as_user: Some(1000), ..Default::default() });
    let mut c = Container::default();
    assert_eq!(run_as_user(&pod, &c).as_deref(), Some("1000"));
    c.security_context =
        Some(SecurityContext { run_as_user: Some(7), run_as_group: Some(8), ..Default::default() });
    assert_eq!(run_as_user(&pod, &c).as_deref(), Some("7:8"));
    pod.spec.as_mut().unwrap().security_context = None;
    c.security_context = None;
    assert_eq!(run_as_user(&pod, &c), None);
}

fn make_pod_with_sysctls(name: &str, sysctls: Option<Vec<Sysctl>>) -> Pod {
    Pod {
        metadata: ObjectMeta::new(name).with_namespace("default"),
        spec: Some(PodSpec {
            restart_policy: Some("Always".to_string()),
            security_context: sysctls
                .map(|s| PodSecurityContext { sysctls: Some(s), ..Default::default() }),
            ..Default::default()
        }),
        status: None,
    }
}

fn sysctl(name: &str, value: &str) -> Sysctl {
    Sysctl { name: name.to_string(), value: value.to_string() }
}

fn value<'a>(map: &'a [(String, String)], name: &str) -> Option<&'a str> {
    map.iter().find(|p| p.0 == name).map(|p| p.1.as_str())
}

#[test]
fn test_safe_sysctls_accepted() {
    let safe_sysctls = vec![
        sysctl("kernel.shm_rmid_forced", "1"),
        sysctl("net.ipv4.ip_local_port_range", "1024 65535"),
        sysctl("net.ipv4.tcp_syncookies", "1"),
        sysctl("net.ipv4.ping_group_range", "0 2147483647"),
    ];
    let pod = make_pod_with_sysctls("safe-sysctl-pod", Some(safe_sysctls));
    let result = extract_sysctls(&pod);
    assert!(result.is_some());
    let map = result.unwrap();
    assert_eq!(map.len(), 4);
    assert_eq!(value(&map, "kernel.shm_rmid_forced"), Some("1"));
    assert_eq!(value(&map, "net.ipv4.ip_local_port_range"), Some("1024 65535"));
    assert_eq!(value(&map, "net.ipv4.tcp_syncookies"), Some("1"));
    assert_eq!(value(&map, "net.ipv4.ping_group_range"), Some("0 2147483647"));
}

#[test]
fn test_unsafe_sysctls_accepted_when_explicitly_set() {
    let unsafe_sysctls = vec![
        sysctl("kernel.msgmax", "65536"),
        sysctl("net.core.somaxconn", "1024"),
        sysctl("kernel.shmmax", "67108864"),
    ];
    let pod = make_pod_with_sysctls("unsafe-sysctl-pod", Some(unsafe_sysctls));
    let result = extract_sysctls(&pod);
    assert!(result.is_some());
    let map = result.unwrap();
    assert_eq!(map.len(), 3);
    assert_eq!(value(&map, "kernel.msgmax"), Some("65536"));
    assert_eq!(value(&map, "net.core.somaxconn"), Some("1024"));
    assert_eq!(value(&map, "kernel.shmmax"), Some("67108864"));
}

#[test]
fn test_sysctls_values_passed_to_docker_config() {
    let sysctls =
        vec![sysctl("net.ipv4.ip_forward", "1"), sysctl("net.ipv4.conf.all.forwarding", "1")];
    let pod = make_pod_with_sysctls("sysctl-docker-pod", Some(sysctls));
    let sysctls_map = extract_sysctls(&pod);
    assert!(sysctls_map.is_some());
    let map = sysctls_map.unwrap();
    assert_eq!(value(&map, "net.ipv4.ip_forward"), Some("1"));
    assert_eq!(value(&map, "net.ipv4.conf.all.forwarding"), Some("1"));
}

#[test]
fn test_pod_without_sysctls_has_none() {
    let pod = make_pod_with_sysctls("no-sysctl-pod", None);
    let result = extract_sysctls(&pod);
    assert!(result.is_none(), "Pod without sysctls should return None");
}

#[test]
fn test_pod_with_empty_security_context_no_sysctls() {
    let mut pod = make_pod_with_sysctls("empty-sc-pod", None);
    pod.spec.as_mut().unwrap().security_context =
        Some(PodSecurityContext { run_as_user: Some(1000), ..Default::default() });
    let result = extract_sysctls(&pod);
    assert!(result.is_none(), "Security context without sysctls should return None");
}

#[test]
fn test_single_sysctl_produces_single_entry() {
    let sysctls = vec![sysctl("kernel.shm_rmid_forced", "0")];
    let pod = make_pod_with_sysctls("single-sysctl-pod", Some(sysctls));
    let map = extract_sysctls(&pod).unwrap();
    assert_eq!(map.len(), 1);
    assert_eq!(value(&map, "kernel.shm_rmid_forced"), Some("0"));
}

/// A setting named twice keeps the value that came last.
#[test]
fn a_repeated_sysctl_keeps_the_last_value() {
    let sysctls = vec![sysctl("a", "1"), sysctl("b", "2"), sysctl("a", "3")];
    let map = extract_sysctls(&make_pod_with_sysctls("p", Some(sysctls))).unwrap();
    assert_eq!(map.len(), 2);
    assert_eq!(value(&map, "a"), Some("3"));
}
