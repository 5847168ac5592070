//! Service account tokens: when one is renewed, where its volume may lie, and what
//! it claims.

use kubelet_runtime::api::{ObjectMeta, Pod, PodSpec, Secret, ServiceAccountTokenProjection};
use kubelet_runtime::runtime::ContainerRuntime;
use kubelet_runtime::token::{
    service_account_claims, service_account_name, token_is_old, token_lifetime,
    token_mount_is_stranded, token_needs_rotation, token_or_placeholder, token_or_static,
    MountPoint, SA_TOKEN_MOUNT_DESTINATION,
};
use kubelet_runtime::volumes::VolumeStep;
use std::time::Duration;

fn runtime(base: &str) -> ContainerRuntime {
    ContainerRuntime::new(
        base.to_string(),
        "10.96.0.10".to_string(),
        "cluster.local".to_string(),
        "rusternetes".to_string(),
        "10.96.0.1".to_string(),
        false,
        true,
    )
}

fn pod(name: &str) -> Pod {
    let mut metadata = ObjectMeta::new(name).with_namespace("apps");
    metadata.uid = "pod-uid".to_string();
    Pod {
        metadata,
        spec: Some(PodSpec {
            service_account_name: Some("runner".to_string()),
            node_name: Some("node-1".to_string()),
            ..Default::default()
        }),
        status: None,
    }
}

#[test]
fn token_needs_rotation_when_file_missing() {
    assert!(token_needs_rotation(None, 3600));
}

#[test]
fn token_needs_rotation_false_for_a_fresh_token() {
    assert!(!token_needs_rotation(Some(Duration::from_secs(0)), 3600));
    assert!(!token_needs_rotation(Some(Duration::from_secs(60)), 3600));
}

#[test]
fn token_needs_rotation_false_just_under_80_percent_of_ttl() {
    assert!(!token_needs_rotation(Some(Duration::from_secs(2879)), 3600));
}

#[test]
fn token_needs_rotation_true_at_and_past_80_percent_of_ttl() {
    assert!(token_needs_rotation(Some(Duration::from_secs(2880)), 3600));
    assert!(token_needs_rotation(Some(Duration::from_secs(3600)), 3600));
    assert!(token_needs_rotation(Some(Duration::from_secs(9999)), 3600));
}

#[test]
fn token_needs_rotation_respects_a_custom_expiration_seconds() {
    assert!(!token_needs_rotation(Some(Duration::from_secs(479)), 600));
    assert!(token_needs_rotation(Some(Duration::from_secs(480)), 600));
}

#[test]
fn rotation_counts_parts_of_a_second() {
    assert!(!token_needs_rotation(Some(Duration::from_millis(2_879_999)), 3600));
    assert!(token_needs_rotation(Some(Duration::from_millis(2_880_001)), 3600));
    assert!(!token_needs_rotation(Some(Duration::from_secs(2)), 3));
    assert!(!token_needs_rotation(Some(Duration::from_nanos(2_399_999_999)), 3));
    assert!(token_needs_rotation(Some(Duration::from_millis(2400)), 3));
    assert_eq!(token_is_old(Some(2_879_999_999_999), 3600), false);
    assert_eq!(token_is_old(Some(2_880_000_000_000), 3600), true);
    assert_eq!(token_is_old(None, 3600), true);
}

#[test]
fn rotation_is_due_at_eight_tenths_of_any_lifetime() {
    for ttl in [1i64, 2, 3, 4, 5, 7, 601, 3599, 86_400, 9_007_199_254_740_993, i64::MAX] {
        let limit = ttl as u128 * 800_000_000;
        assert!(token_is_old(Some(limit), ttl));
        assert!(!token_is_old(Some(limit - 1), ttl));
        assert!(token_is_old(Some(limit), ttl - 1));
    }
    for ttl in [0i64, -1, -3600, i64::MIN] {
        assert!(token_is_old(Some(0), ttl));
    }
}

#[test]
fn token_mount_under_the_configured_base_is_not_stranded() {
    assert!(!token_mount_is_stranded(
        "/srv/rinr/.rinr/integration/volumes/my-pod/kube-api-access",
        "/srv/rinr/.rinr/integration/volumes"
    ));
}

#[test]
fn token_mount_under_a_different_root_is_stranded() {
    let base = "/srv/rinr/vendor/rusternetes/volumes";
    for stranded in [
        "/srv/rinr/volumes/my-pod/kube-api-access",
        "/srv/rinr/operators/volumes/my-pod/kube-api-access",
    ] {
        assert!(
            token_mount_is_stranded(stranded, base),
            "{stranded} should be stranded relative to {base}"
        );
    }
}

#[test]
fn a_prefix_sharing_sibling_root_is_still_stranded() {
    assert!(token_mount_is_stranded(
        "/srv/rinr/volumes-old/my-pod/kube-api-access",
        "/srv/rinr/volumes"
    ));
}

#[test]
fn a_trailing_slash_on_either_side_does_not_create_a_false_alarm() {
    assert!(!token_mount_is_stranded(
        "/srv/rinr/volumes/my-pod/",
        "/srv/rinr/volumes/"
    ));
    assert!(!token_mount_is_stranded(
        "/srv/rinr/volumes",
        "/srv/rinr/volumes/"
    ));
}

#[test]
fn an_empty_configured_base_reports_nothing() {
    assert!(!token_mount_is_stranded("/anywhere/at/all", ""));
    assert!(!token_mount_is_stranded("/anywhere/at/all", "/"));
}

#[test]
fn only_a_stranded_token_mount_is_reported() {
    let r = runtime("/srv/volumes");
    let token = MountPoint {
        destination: Some(SA_TOKEN_MOUNT_DESTINATION.to_string()),
        source: Some("/old/volumes/p/token".to_string()),
    };
    let other = MountPoint {
        destination: Some("/data".to_string()),
        source: Some("/old/volumes/p/data".to_string()),
    };
    let fine = MountPoint {
        destination: Some(SA_TOKEN_MOUNT_DESTINATION.to_string()),
        source: Some("/srv/volumes/p/token".to_string()),
    };
    assert_eq!(
        r.warn_if_pod_volumes_stranded(&vec![other.clone(), token]),
        Some("/old/volumes/p/token".to_string())
    );
    assert_eq!(r.warn_if_pod_volumes_stranded(&vec![other, fine]), None);
}

#[test]
fn claims_name_the_account_the_pod_and_the_node() {
    let p = pod("job");
    assert_eq!(service_account_name(&p), "runner");
    let c = service_account_claims(
        &p,
        "account-uid",
        &Some("node-uid".to_string()),
        &None,
        1_000,
        3_600,
    );
    assert_eq!(c.sub, "system:serviceaccount:apps:runner");
    assert_eq!(c.namespace, "apps");
    assert_eq!(c.uid, "account-uid");
    assert_eq!((c.iat, c.exp), (1_000, 4_600));
    assert_eq!(c.pod_name.as_deref(), Some("job"));
    assert_eq!(c.pod_uid.as_deref(), Some("pod-uid"));
    assert_eq!(c.node_name.as_deref(), Some("node-1"));
    assert_eq!(c.node_uid.as_deref(), Some("node-uid"));
    let k = c.kubernetes.unwrap();
    assert_eq!(k.svcacct.name, "runner");
    assert_eq!(k.pod.unwrap().name, "job");
}

#[test]
fn a_requested_audience_and_lifetime_are_used() {
    let t = ServiceAccountTokenProjection {
        audience: Some("vault".to_string()),
        expiration_seconds: Some(600),
        path: "token".to_string(),
    };
    assert_eq!(token_lifetime(&t), 600);
    let unset = ServiceAccountTokenProjection { expiration_seconds: None, ..t.clone() };
    assert_eq!(token_lifetime(&unset), 3600);
    let c = runtime("/v").mint_serviceaccount_token(&pod("job"), &t, "u", &None, 10);
    assert_eq!(c.aud, vec!["vault".to_string()]);
    assert_eq!(c.exp, 610);
}

#[test]
fn a_token_that_was_not_signed_is_replaced() {
    assert_eq!(token_or_placeholder(Some("jwt".to_string())), "jwt");
    assert_eq!(
        token_or_placeholder(None),
        "eyJhbGciOiJSUzI1NiIsInR5cCI6IkpXVCJ9.placeholder"
    );
    let secret = Secret { data: Some(vec![("token".to_string(), b"stored".to_vec())]) };
    assert_eq!(token_or_static(None, &Some(secret.clone())), "stored");
    assert_eq!(token_or_static(Some("jwt".to_string()), &Some(secret)), "jwt");
}

#[test]
fn the_certificate_comes_from_the_nearest_place() {
    let r = runtime("/srv/volumes");
    let home = Some("/home/me".to_string());
    assert_eq!(
        r.ca_cert_source(&Some("/etc/ca.crt".to_string()), true, &home),
        "/etc/ca.crt"
    );
    assert_eq!(r.ca_cert_source(&None, true, &home), r.volumes_ca_cert());
    assert!(r.ca_cert_source(&None, false, &home).starts_with("/home/me/"));
}

#[test]
fn the_token_volume_holds_token_namespace_and_certificate() {
    let plan = runtime("/srv/volumes").create_serviceaccount_token_volume(&pod("job"), true, "jwt");
    let dir = plan.outcome.unwrap();
    assert!(dir.starts_with("/srv/volumes/job/"));
    let mut written: Vec<(String, Vec<u8>)> = Vec::new();
    let mut certificate = false;
    for s in &plan.steps {
        match s {
            VolumeStep::Write { path, content, .. } => {
                written.push((path.clone(), content.clone()));
            }
            VolumeStep::PutCaCert(_) => certificate = true,
            _ => {}
        }
    }
    assert!(certificate);
    assert!(written.contains(&(format!("{dir}/token"), b"jwt".to_vec())));
    assert!(written.contains(&(format!("{dir}/namespace"), b"apps".to_vec())));
}
