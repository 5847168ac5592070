//! Volumes: what is written when one is made, brought up to date or cleaned up.

use kubelet_runtime::api::{
    ConfigMap, ConfigMapVolumeSource, CSIVolumeSource, Container, DownwardAPIVolumeFile,
    DownwardAPIVolumeSource, EmptyDirVolumeSource, EphemeralVolumeSource, HostPathVolumeSource,
    KeyToPath, ObjectFieldSelector, ObjectMeta, PersistentVolumeClaimTemplate,
    PersistentVolumeClaimVolumeSource, Pod,
    PodSecurityContext, PodSpec, ProjectedVolumeSource, Secret, SecretVolumeSource,
    ServiceAccountTokenProjection, Volume, VolumeProjection,
};
use kubelet_runtime::files::{
    content_differs, fs_group, fsgroup_entry_mode, fsgroup_missed, fsgroup_root_mode,
    removes_entry, volume_can_be_refreshed, write_file_if_changed, DirEntry,
};
use kubelet_runtime::runtime::ContainerRuntime;
use kubelet_runtime::volumes::{
    ephemeral_claim, setup_emptydir_dir, volume_source, wants_bound_token, ClaimFacts,
    PersistentVolume, ProjectionFacts, SourceKind, VolumeFacts, VolumePlan, VolumeStep,
};

fn runtime() -> ContainerRuntime {
    ContainerRuntime::new(
        "/volumes".to_string(),
        "10.96.0.10".to_string(),
        "cluster.local".to_string(),
        "rusternetes-network".to_string(),
        "10.96.0.1".to_string(),
        false,
        true,
    )
}

fn pod_with(volume: &Volume) -> Pod {
    Pod {
        metadata: ObjectMeta::new("test-pod").with_namespace("default"),
        spec: Some(PodSpec {
            containers: vec![Container { name: "app".to_string(), ..Default::default() }],
            volumes: Some(vec![volume.clone()]),
            ..Default::default()
        }),
        status: None,
    }
}

fn facts() -> VolumeFacts {
    VolumeFacts {
        storage: true,
        process_env: vec![("HOME".to_string(), "/home/me".to_string())],
        config_map: Err("no config map".to_string()),
        secret: Err("no secret".to_string()),
        bound_token: None,
        claim: ClaimFacts::default(),
        projections: Vec::new(),
        readings: Vec::new(),
    }
}

fn make(volume: &Volume, f: &VolumeFacts) -> VolumePlan {
    runtime().create_volume_if_ready(&pod_with(volume), volume, f).expect("the volume can be made")
}

fn item(key: &str, path: &str) -> KeyToPath {
    KeyToPath { key: key.to_string(), path: path.to_string(), mode: None }
}

fn bytes(list: &[(&str, &str)]) -> Option<Vec<(String, Vec<u8>)>> {
    Some(list.iter().map(|p| (p.0.to_string(), p.1.as_bytes().to_vec())).collect())
}

fn texts(list: &[(&str, &str)]) -> Option<Vec<(String, String)>> {
    Some(list.iter().map(|p| (p.0.to_string(), p.1.to_string())).collect())
}

/// The files that stand after `steps`, where those of `before` stood.
fn files_after(before: &[(&str, &str)], steps: &[VolumeStep]) -> Vec<(String, String)> {
    let mut files: Vec<(String, String)> =
        before.iter().map(|p| (p.0.to_string(), p.1.to_string())).collect();
    for s in steps {
        match s {
            VolumeStep::Write { path, content, .. } => {
                files.retain(|f| &f.0 != path);
                files.push((path.clone(), String::from_utf8(content.clone()).unwrap()));
            }
            VolumeStep::RemoveAll(dir) => {
                let inside = format!("{dir}/");
                files.retain(|f| !f.0.starts_with(&inside));
            }
            VolumeStep::RemoveNamesExcept { dir, .. } | VolumeStep::RemoveFilesExcept { dir, .. } => {
                let inside = format!("{dir}/");
                files.retain(|f| match f.0.strip_prefix(&inside) {
                    Some(name) if !name.contains('/') => !removes_entry(
                        s,
                        &DirEntry {
                            name: Some(name.to_string()),
                            path: f.0.clone(),
                            is_file: true,
                        },
                    ),
                    _ => true,
                });
            }
            _ => {}
        }
    }
    files
}

fn content<'a>(files: &'a [(String, String)], path: &str) -> Option<&'a str> {
    files.iter().find(|f| f.0 == path).map(|f| f.1.as_str())
}

fn config_volume(items: Option<Vec<KeyToPath>>) -> Volume {
    Volume {
        name: "vol".to_string(),
        config_map: Some(ConfigMapVolumeSource {
            name: Some("config".to_string()),
            items,
            default_mode: None,
            optional: None,
        }),
        ..Default::default()
    }
}

fn secret_volume(items: Option<Vec<KeyToPath>>) -> Volume {
    Volume {
        name: "vol".to_string(),
        secret: Some(SecretVolumeSource {
            secret_name: Some("keys".to_string()),
            items,
            default_mode: None,
            optional: None,
        }),
        ..Default::default()
    }
}

#[test]
fn test_configmap_volume_items_selective_mount() {
    let volume = config_volume(Some(vec![item("data-2", "path/to/data-2")]));
    let mut f = facts();
    f.config_map = Ok(ConfigMap {
        data: texts(&[("data-1", "value-1"), ("data-2", "value-2"), ("data-3", "value-3")]),
        binary_data: None,
    });
    let plan = make(&volume, &f);
    let files = files_after(&[], &plan.steps);
    assert_eq!(content(&files, "/volumes/test-pod/vol/path/to/data-2"), Some("value-2"));
    assert!(content(&files, "/volumes/test-pod/vol/data-1").is_none());
    assert!(content(&files, "/volumes/test-pod/vol/data-3").is_none());
    assert_eq!(plan.outcome, Ok("/volumes/test-pod/vol".to_string()));
}

#[test]
fn test_secret_volume_items_selective_mount() {
    let volume = secret_volume(Some(vec![item("data-1", "new-path-data-1")]));
    let mut f = facts();
    f.secret = Ok(Secret { data: bytes(&[("data-1", "value-1"), ("data-2", "value-2")]) });
    let files = files_after(&[], &make(&volume, &f).steps);
    assert_eq!(content(&files, "/volumes/test-pod/vol/new-path-data-1"), Some("value-1"));
    assert!(content(&files, "/volumes/test-pod/vol/data-1").is_none());
    assert!(content(&files, "/volumes/test-pod/vol/data-2").is_none());
}

#[test]
fn test_secret_resync_with_items_only_writes_mapped_paths() {
    let volume = secret_volume(Some(vec![item("data-1", "new-path-data-1")]));
    let mut f = facts();
    f.secret = Ok(Secret { data: bytes(&[("data-1", "value-1"), ("data-2", "value-2")]) });
    let pod = pod_with(&volume);
    assert!(volume_can_be_refreshed(&pod, &volume, &f));
    let steps = runtime().resync_volumes(&pod, &vec![f]);
    let files = files_after(&[("/volumes/test-pod/vol/stale-key", "old-value")], &steps);
    assert_eq!(content(&files, "/volumes/test-pod/vol/new-path-data-1"), Some("value-1"));
    assert!(content(&files, "/volumes/test-pod/vol/stale-key").is_none());
    assert!(content(&files, "/volumes/test-pod/vol/data-1").is_none());
    assert!(content(&files, "/volumes/test-pod/vol/data-2").is_none());
}

#[test]
fn test_configmap_resync_with_items_handles_nested_paths() {
    let volume = config_volume(Some(vec![item("data-2", "path/to/data-2")]));
    let mut f = facts();
    f.config_map =
        Ok(ConfigMap { data: texts(&[("data-2", "value-2")]), binary_data: None });
    let steps = runtime().resync_volumes(&pod_with(&volume), &vec![f]);
    let files = files_after(&[], &steps);
    assert_eq!(content(&files, "/volumes/test-pod/vol/path/to/data-2"), Some("value-2"));
}

#[test]
fn a_secret_that_is_gone_takes_its_files_along() {
    let mut volume = secret_volume(None);
    let steps = runtime().resync_volumes(&pod_with(&volume), &vec![facts()]);
    let before = [("/volumes/test-pod/vol/key", "x")];
    assert!(files_after(&before, &steps).is_empty());
    volume.secret.as_mut().unwrap().optional = Some(true);
    let steps = runtime().resync_volumes(&pod_with(&volume), &vec![facts()]);
    assert_eq!(files_after(&before, &steps).len(), 1);
}

#[test]
fn all_keys_are_written_where_no_items_are_named() {
    let volume = config_volume(None);
    let mut f = facts();
    f.config_map = Ok(ConfigMap {
        data: texts(&[("a", "1")]),
        binary_data: Some(vec![("b".to_string(), b"2".to_vec())]),
    });
    let files = files_after(&[], &make(&volume, &f).steps);
    assert_eq!(content(&files, "/volumes/test-pod/vol/a"), Some("1"));
    assert_eq!(content(&files, "/volumes/test-pod/vol/b"), Some("2"));
}

#[test]
fn a_missing_source_is_an_error_unless_optional() {
    let mut volume = config_volume(None);
    assert!(make(&volume, &facts()).outcome.is_err());
    volume.config_map.as_mut().unwrap().optional = Some(true);
    assert!(make(&volume, &facts()).outcome.is_ok());
    let mut volume = secret_volume(None);
    assert!(make(&volume, &facts()).outcome.is_err());
    volume.secret.as_mut().unwrap().optional = Some(true);
    assert!(make(&volume, &facts()).outcome.is_ok());
    let mut nameless = config_volume(None);
    nameless.config_map.as_mut().unwrap().name = None;
    assert_eq!(
        make(&nameless, &facts()).outcome,
        Err("ConfigMap volume must specify name".to_string())
    );
    let mut no_storage = facts();
    no_storage.storage = false;
    assert_eq!(
        make(&config_volume(None), &no_storage).outcome,
        Err("Storage not available for ConfigMap volumes".to_string())
    );
}

#[test]
fn test_hostpath_volume_path() {
    let path = "/tmp/test-hostpath";
    let volume = host_path(path, None);
    assert_eq!(make(&volume, &facts()).outcome.unwrap(), "/tmp/test-hostpath");
}

fn host_path(path: &str, kind: Option<&str>) -> Volume {
    Volume {
        name: "vol".to_string(),
        host_path: Some(HostPathVolumeSource {
            path: path.to_string(),
            type_: kind.map(|s| s.to_string()),
        }),
        ..Default::default()
    }
}

#[test]
fn test_hostpath_types() {
    let types = vec![
        "DirectoryOrCreate",
        "Directory",
        "FileOrCreate",
        "File",
        "Socket",
        "CharDevice",
        "BlockDevice",
    ];
    for hp_type in types {
        assert!(!hp_type.is_empty());
        let plan = make(&host_path("/tmp/x", Some(hp_type)), &facts());
        assert_eq!(plan.outcome, Ok("/tmp/x".to_string()));
        let made = plan.steps.iter().any(|s| matches!(s, VolumeStep::MakeDir(d) if d == "/tmp/x"));
        assert_eq!(made, hp_type == "DirectoryOrCreate", "{hp_type}");
    }
}

#[test]
fn host_paths_know_the_process_environment() {
    let plan = make(&host_path("${HOME}/data", None), &facts());
    assert_eq!(plan.outcome, Ok("/home/me/data".to_string()));
}

#[test]
fn an_empty_dir_is_open_to_all() {
    let volume = Volume {
        name: "cache".to_string(),
        empty_dir: Some(EmptyDirVolumeSource { medium: None }),
        ..Default::default()
    };
    let plan = make(&volume, &facts());
    assert_eq!(plan.outcome, Ok("/volumes/test-pod/cache".to_string()));
    assert!(plan
        .steps
        .iter()
        .any(|s| matches!(s, VolumeStep::SetMode(d, m) if d == "/volumes/test-pod/cache" && *m == 0o777)));
}

#[test]
fn a_claim_leads_to_its_bound_volume() {
    let volume = Volume {
        name: "data".to_string(),
        persistent_volume_claim: Some(PersistentVolumeClaimVolumeSource {
            claim_name: "my-pvc".to_string(),
            read_only: None,
        }),
        ..Default::default()
    };
    let mut f = facts();
    f.claim = ClaimFacts {
        volume_name: Some(Some("pv-1".to_string())),
        volume: Some(PersistentVolume { host_path: Some("/mnt/pv-1".to_string()) }),
    };
    assert_eq!(make(&volume, &f).outcome, Ok("/mnt/pv-1".to_string()));
    f.claim = ClaimFacts { volume_name: Some(Some(String::new())), volume: None };
    assert!(make(&volume, &f).outcome.is_err());
    f.claim = ClaimFacts { volume_name: None, volume: None };
    assert!(make(&volume, &f).outcome.is_err());
}

#[test]
fn fields_of_the_pod_become_files() {
    let volume = Volume {
        name: "info".to_string(),
        downward_api: Some(DownwardAPIVolumeSource {
            items: Some(vec![DownwardAPIVolumeFile {
                path: "name".to_string(),
                field_ref: Some(ObjectFieldSelector { field_path: "metadata.name".to_string() }),
                resource_field_ref: None,
                mode: None,
            }]),
            default_mode: None,
        }),
        ..Default::default()
    };
    let files = files_after(&[], &make(&volume, &facts()).steps);
    assert_eq!(content(&files, "/volumes/test-pod/info/name"), Some("test-pod"));
    let mut bad = volume.clone();
    bad.downward_api.as_mut().unwrap().items.as_mut().unwrap()[0].field_ref = None;
    assert_eq!(
        make(&bad, &facts()).outcome,
        Err("DownwardAPI item must have either fieldRef or resourceFieldRef".to_string())
    );
    let mut open = volume.clone();
    open.downward_api.as_mut().unwrap().items.as_mut().unwrap()[0].field_ref =
        Some(ObjectFieldSelector { field_path: "metadata.labels[']".to_string() });
    assert!(!runtime().volume_can_be_made(&pod_with(&open), &open, &facts()));
    assert!(runtime().create_volume_if_ready(&pod_with(&open), &open, &facts()).is_none());
}

#[test]
fn driver_and_ephemeral_volumes_have_directories_of_their_own() {
    let csi = Volume {
        name: "csi-vol".to_string(),
        csi: Some(CSIVolumeSource { driver: "x".to_string() }),
        ..Default::default()
    };
    assert_eq!(make(&csi, &facts()).outcome, Ok("/volumes/test-pod/csi-vol".to_string()));
    let ephemeral = Volume {
        name: "scratch".to_string(),
        ephemeral: Some(EphemeralVolumeSource {
            volume_claim_template: Some(PersistentVolumeClaimTemplate::default()),
        }),
        ..Default::default()
    };
    assert_eq!(
        make(&ephemeral, &facts()).outcome,
        Err("Ephemeral PVC test-pod-scratch not found".to_string())
    );
    let nothing = Volume { name: "none".to_string(), ..Default::default() };
    assert_eq!(make(&nothing, &facts()).outcome, Ok("/volumes/test-pod/none".to_string()));
}

#[test]
fn projected_tokens_are_rotated() {
    let volume = Volume {
        name: "api".to_string(),
        projected: Some(ProjectedVolumeSource {
            sources: Some(vec![VolumeProjection {
                service_account_token: Some(ServiceAccountTokenProjection {
                    audience: None,
                    expiration_seconds: Some(600),
                    path: "token".to_string(),
                }),
                ..Default::default()
            }]),
            default_mode: None,
        }),
        ..Default::default()
    };
    let mut f = facts();
    f.projections =
        vec![ProjectionFacts { config_map: None, secret: None, token: "jwt".to_string() }];
    let files = files_after(&[], &make(&volume, &f).steps);
    assert_eq!(content(&files, "/volumes/test-pod/api/token"), Some("jwt"));
    let steps = runtime().refresh_volumes(&pod_with(&volume), true, &vec![f]);
    assert!(steps.iter().any(|s| matches!(
        s,
        VolumeStep::RotateToken { path, expiration_seconds: 600, volume: 0, source: 0 }
            if path == "/volumes/test-pod/api/token"
    )));
}

#[test]
fn token_secrets_get_a_bound_token() {
    assert!(wants_bound_token("kube-api-access-x1", "any"));
    assert!(wants_bound_token("vol", "default-token"));
    assert!(!wants_bound_token("vol", "keys"));
}

#[test]
fn a_file_is_replaced_only_when_it_differs() {
    let same = Some(b"abc".to_vec());
    assert!(!content_differs(&same, &b"abc".to_vec()));
    assert!(content_differs(&same, &b"abd".to_vec()));
    assert!(content_differs(&None, &b"abc".to_vec()));
    assert_eq!(write_file_if_changed("/v/f", &same, &b"abc".to_vec(), 42), None);
    assert_eq!(
        write_file_if_changed("/v/f", &same, &b"x".to_vec(), 42),
        Some("/v/f.tmp-42".to_string())
    );
}

#[test]
fn test_fsgroup_preserves_restrictive_permissions() {
    let new_mode = fsgroup_entry_mode(0o100440).unwrap_or(0o100440);
    assert_eq!(
        new_mode & 0o777,
        0o440,
        "fsGroup should preserve 0440 permissions, got {:04o}",
        new_mode & 0o777
    );
}

#[test]
fn test_fsgroup_copies_owner_bits_to_group() {
    let new_mode = fsgroup_entry_mode(0o100644).unwrap_or(0o100644);
    assert_eq!(
        new_mode & 0o777,
        0o664,
        "fsGroup should copy owner rw bits to group, got {:04o}",
        new_mode & 0o777
    );
}

#[test]
fn a_volumes_root_hands_its_group_on() {
    assert_eq!(fsgroup_root_mode(0o040755) & 0o2000, 0o2000);
    assert!(fsgroup_missed(0, 1000));
    assert!(!fsgroup_missed(1000, 1000));
    let volume = secret_volume(None);
    let mut pod = pod_with(&volume);
    assert_eq!(fs_group(&pod), None);
    pod.spec.as_mut().unwrap().security_context =
        Some(PodSecurityContext { fs_group: Some(2000), ..Default::default() });
    assert_eq!(fs_group(&pod), Some(2000));
}

#[test]
fn volumes_are_listed_with_their_paths() {
    let volume = secret_volume(None);
    let pod = pod_with(&volume);
    assert_eq!(
        runtime().create_pod_volumes(&pod, &vec!["/volumes/test-pod/vol".to_string()]),
        vec![("vol".to_string(), "/volumes/test-pod/vol".to_string())]
    );
}

#[test]
fn a_pods_named_volumes_go_with_it() {
    let named = vec![
        "rusternetes-emptydir-test-pod-cache".to_string(),
        "rusternetes-emptydir-other-cache".to_string(),
    ];
    let plan = runtime().cleanup_pod_volumes("test-pod", &named);
    assert_eq!(plan.dir, "/volumes/test-pod");
    assert_eq!(plan.named_volumes, vec!["rusternetes-emptydir-test-pod-cache".to_string()]);
}

#[test]
fn an_ephemeral_volume_has_a_claim_of_its_own() {
    let template = PersistentVolumeClaimTemplate {
        metadata: Some(ObjectMeta {
            labels: Some(vec![("app".to_string(), "db".to_string())]),
            ..Default::default()
        }),
        spec: "{\"accessModes\":[\"ReadWriteOnce\"]}".to_string(),
    };
    let mut volume = Volume {
        name: "cache".to_string(),
        ephemeral: Some(EphemeralVolumeSource { volume_claim_template: Some(template) }),
        ..Default::default()
    };
    let pod = pod_with(&volume);
    let claim = ephemeral_claim(&pod, &volume).unwrap();
    assert_eq!(claim.kind, "PersistentVolumeClaim");
    assert_eq!(claim.api_version, "v1");
    assert_eq!(claim.metadata.name, "test-pod-cache");
    assert_eq!(claim.metadata.namespace, Some(pod.namespace().to_string()));
    assert_eq!(claim.metadata.labels, Some(vec![("app".to_string(), "db".to_string())]));
    assert_eq!(claim.metadata.annotations, None);
    assert_eq!(claim.spec, "{\"accessModes\":[\"ReadWriteOnce\"]}");
    assert_eq!(volume_source(&volume), SourceKind::Ephemeral);
    volume.empty_dir = Some(EmptyDirVolumeSource::default());
    assert!(ephemeral_claim(&pod, &volume).is_none());
    assert_eq!(volume_source(&volume), SourceKind::EmptyDir);
}

#[test]
fn an_empty_directory_is_opened_though_it_is_there() {
    let steps = setup_emptydir_dir("/volumes/test-pod/tmp");
    assert!(matches!(&steps[0], VolumeStep::MakeDir(d) if d == "/volumes/test-pod/tmp"));
    assert!(matches!(&steps[1], VolumeStep::SetMode(d, 0o777) if d == "/volumes/test-pod/tmp"));
    assert_eq!(steps.len(), 2);
}

#[test]
fn a_minted_token_goes_into_token_volumes_only() {
    let secret = Secret {
        data: Some(vec![("token".to_string(), b"stored".to_vec())]),
        ..Default::default()
    };
    for (name, expected) in [("creds", "stored"), ("default-token", "minted")] {
        let volume = Volume {
            name: "vol".to_string(),
            secret: Some(SecretVolumeSource {
                secret_name: Some(name.to_string()),
                ..Default::default()
            }),
            ..Default::default()
        };
        let mut f = facts();
        f.secret = Ok(secret.clone());
        f.bound_token = Some("minted".to_string());
        let written: Vec<Vec<u8>> = make(&volume, &f)
            .steps
            .into_iter()
            .filter_map(|s| match s {
                VolumeStep::Write { content, .. } => Some(content),
                _ => None,
            })
            .collect();
        assert_eq!(written, vec![expected.as_bytes().to_vec()]);
    }
}

#[test]
fn host_paths_keep_what_is_no_reference() {
    let env = vec![("\u{e9}ab".to_string(), "x".to_string())];
    assert_eq!(ContainerRuntime::expand_env_vars("/data/\u{e9}", &env), "/data/\u{e9}");
    assert_eq!(ContainerRuntime::expand_env_vars("/$\u{e9}ab/\u{fc}", &env), "/x/\u{fc}");
    assert_eq!(ContainerRuntime::expand_env_vars("/${\u{e9}ab}$", &env), "/x$");
}

#[test]
fn only_the_source_that_decides_has_to_be_told() {
    let endless = HostPathVolumeSource { path: "${A}".to_string(), type_: None };
    let mut volume =
        Volume { name: "v".to_string(), host_path: Some(endless), ..Default::default() };
    volume.empty_dir = Some(EmptyDirVolumeSource::default());
    volume.downward_api = Some(DownwardAPIVolumeSource {
        items: Some(vec![DownwardAPIVolumeFile {
            path: "f".to_string(),
            field_ref: Some(ObjectFieldSelector { field_path: "metadata.labels[']".to_string() }),
            ..Default::default()
        }]),
        ..Default::default()
    });
    let f = facts();
    let pod = pod_with(&volume);
    assert!(runtime().volume_can_be_made(&pod, &volume, &f));
    assert_eq!(make(&volume, &f).outcome, Ok("/volumes/test-pod/v".to_string()));
    volume.empty_dir = None;
    volume.host_path = None;
    assert!(!runtime().volume_can_be_made(&pod, &volume, &f));
    if let Some(items) = volume.downward_api.as_mut().and_then(|d| d.items.as_mut()) {
        items.insert(0, DownwardAPIVolumeFile { path: "e".to_string(), ..Default::default() });
    }
    assert!(runtime().volume_can_be_made(&pod, &volume, &f));
    assert_eq!(
        make(&volume, &f).outcome,
        Err("DownwardAPI item must have either fieldRef or resourceFieldRef".to_string())
    );
    assert!(!volume_can_be_refreshed(&pod, &volume, &f));
    volume.secret = Some(SecretVolumeSource::default());
    assert!(volume_can_be_refreshed(&pod, &volume, &f));
}
