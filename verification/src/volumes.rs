//! Volumes on the host: which directories and files a pod's volumes are made of, and
//! how they are brought up to date while the pod runs.

use crate::api;
use crate::api::{
    ConfigMap, DownwardAPIVolumeFile, KeyToPath, Pod, Secret, Volume, VolumeProjection,
};
use crate::downward;
use crate::expand;
use crate::mounts;
use crate::names;
use crate::quantity::DecimalCores;
use crate::runtime::ContainerRuntime;
use crate::status;
use crate::text;
use vstd::prelude::*;
use vstd::slice::slice_to_vec;
use vstd::string::*;
use vstd::utf8::*;

verus! {

/// When and how a file is written.
#[derive(Clone, Copy, Debug, PartialEq, Eq, Structural)]
pub enum WriteHow {
    /// In any case.
    Always,
    /// Unless it holds the very bytes already.
    IfChanged,
    /// Unless it holds the very bytes already; a reader never sees a part of it.
    SwapIfChanged,
}

/// One step in making or refreshing a volume.
#[derive(Clone, Debug)]
pub enum VolumeStep {
    /// Make the directory and those above it.
    MakeDir(String),
    /// Make the directories above the file.
    MakeParentOf(String),
    /// Write a file, after its parent directories where `make_parent` says so, and give
    /// it the mode where there is one.
    Write {
        path: String,
        content: Vec<u8>,
        mode: Option<u32>,
        make_parent: bool,
        how: WriteHow,
    },
    /// Put the cluster's CA certificate in the file.
    PutCaCert(String),
    /// Give the directory the mode.
    SetMode(String, u32),
    /// Remove the directory's entries.
    RemoveAll(String),
    /// Remove the directory's entries but those with the given names.
    RemoveNamesExcept { dir: String, keep: Vec<String> },
    /// Remove the directory's files but those at the given paths.
    RemoveFilesExcept { dir: String, keep: Vec<String> },
    /// Write a fresh token to the file where the one in it is old, by the token source
    /// with the given position in the volume with the given position in the pod.
    RotateToken { path: String, expiration_seconds: i64, volume: usize, source: usize },
}

/// One step, with its texts and bytes.
pub ghost enum StepView {
    MakeDir(Seq<char>),
    MakeParentOf(Seq<char>),
    Write {
        path: Seq<char>,
        content: Seq<u8>,
        mode: Option<u32>,
        make_parent: bool,
        how: WriteHow,
    },
    PutCaCert(Seq<char>),
    SetMode(Seq<char>, u32),
    RemoveAll(Seq<char>),
    RemoveNamesExcept { dir: Seq<char>, keep: Seq<Seq<char>> },
    RemoveFilesExcept { dir: Seq<char>, keep: Seq<Seq<char>> },
    RotateToken { path: Seq<char>, expiration_seconds: i64, volume: int, source: int },
}

/// A step with its texts and bytes.
pub open spec fn step_view(s: VolumeStep) -> StepView {
    match s {
        VolumeStep::MakeDir(d) => StepView::MakeDir(d@),
        VolumeStep::MakeParentOf(p) => StepView::MakeParentOf(p@),
        VolumeStep::Write { path, content, mode, make_parent, how } => StepView::Write {
            path: path@,
            content: content@,
            mode,
            make_parent,
            how,
        },
        VolumeStep::PutCaCert(p) => StepView::PutCaCert(p@),
        VolumeStep::SetMode(d, m) => StepView::SetMode(d@, m),
        VolumeStep::RemoveAll(d) => StepView::RemoveAll(d@),
        VolumeStep::RemoveNamesExcept { dir, keep } => StepView::RemoveNamesExcept {
            dir: dir@,
            keep: text::texts(keep@),
        },
        VolumeStep::RemoveFilesExcept { dir, keep } => StepView::RemoveFilesExcept {
            dir: dir@,
            keep: text::texts(keep@),
        },
        VolumeStep::RotateToken { path, expiration_seconds, volume, source } => {
            StepView::RotateToken {
                path: path@,
                expiration_seconds,
                volume: volume as int,
                source: source as int,
            }
        },
    }
}

/// The steps of a list with their texts and bytes.
pub open spec fn steps_view(v: Seq<VolumeStep>) -> Seq<StepView> {
    v.map_values(|s: VolumeStep| step_view(s))
}

/// `dir/name`.
pub open spec fn in_dir(dir: Seq<char>, name: Seq<char>) -> Seq<char> {
    dir + "/"@ + name
}

/// The mode of a file: its own, or the volume's; none where the volume sets none.
pub open spec fn file_mode(own: Option<i32>, default: Option<i32>) -> Option<u32> {
    match default {
        None => None,
        Some(d) => Some(
            (match own {
                Some(m) => m,
                None => d,
            }) as u32,
        ),
    }
}

/// A file to write.
pub open spec fn write_step(
    dir: Seq<char>,
    name: Seq<char>,
    content: Seq<u8>,
    mode: Option<u32>,
    make_parent: bool,
    how: WriteHow,
) -> StepView {
    StepView::Write { path: in_dir(dir, name), content, mode, make_parent, how }
}

/// The bytes of a config map's key: of its text, or else of its binary data.
pub open spec fn config_bytes(cm: ConfigMap, key: Seq<char>) -> Option<Seq<u8>> {
    match api::opt_lookup(cm.data, key) {
        Some(t) => Some(encode_utf8(t)),
        None => api::opt_lookup_bytes(cm.binary_data, key),
    }
}

/// The files of those of a config map's keys that `items` asks for.
pub open spec fn config_item_steps(
    dir: Seq<char>,
    cm: ConfigMap,
    items: Seq<KeyToPath>,
    default: Option<i32>,
    how: WriteHow,
) -> Seq<StepView>
    decreases items.len(),
{
    if items.len() == 0 {
        Seq::empty()
    } else {
        let rest = config_item_steps(dir, cm, items.drop_last(), default, how);
        let item = items.last();
        match config_bytes(cm, item.key@) {
            Some(b) => rest.push(
                write_step(dir, item.path@, b, file_mode(item.mode, default), true, how),
            ),
            None => rest,
        }
    }
}

/// A file for each text of a map.
pub open spec fn text_steps(
    dir: Seq<char>,
    data: Seq<(String, String)>,
    mode: Option<u32>,
    make_parent: bool,
    how: WriteHow,
) -> Seq<StepView>
    decreases data.len(),
{
    if data.len() == 0 {
        Seq::empty()
    } else {
        text_steps(dir, data.drop_last(), mode, make_parent, how).push(
            write_step(
                dir,
                data.last().0@,
                encode_utf8(data.last().1@),
                mode,
                make_parent,
                how,
            ),
        )
    }
}

/// A file for each entry of a map of bytes, `token` in place of the one of that name
/// where there is one.
pub open spec fn byte_steps(
    dir: Seq<char>,
    data: Seq<(String, Vec<u8>)>,
    token: Option<Seq<char>>,
    mode: Option<u32>,
    make_parent: bool,
    how: WriteHow,
) -> Seq<StepView>
    decreases data.len(),
{
    if data.len() == 0 {
        Seq::empty()
    } else {
        let (k, v) = data.last();
        byte_steps(dir, data.drop_last(), token, mode, make_parent, how).push(
            write_step(dir, k@, with_token(k@, v@, token), mode, make_parent, how),
        )
    }
}

/// The bytes of a secret's key, or the token minted for the pod in place of the key
/// `token`.
pub open spec fn with_token(key: Seq<char>, value: Seq<u8>, token: Option<Seq<char>>) -> Seq<u8> {
    match token {
        Some(t) if key == "token"@ => encode_utf8(t),
        _ => value,
    }
}

/// The files of a config map: of the keys asked for, or of all.
pub open spec fn config_steps(
    dir: Seq<char>,
    cm: ConfigMap,
    items: Option<Vec<KeyToPath>>,
    default: Option<i32>,
    parents: bool,
    how: WriteHow,
) -> Seq<StepView> {
    match items {
        Some(it) => config_item_steps(dir, cm, it@, default, how),
        None => (match cm.data {
            Some(d) => text_steps(dir, d@, file_mode(None, default), parents, how),
            None => Seq::empty(),
        }) + (match cm.binary_data {
            Some(d) => byte_steps(dir, d@, None, file_mode(None, default), parents, how),
            None => Seq::empty(),
        }),
    }
}

/// The files of those of a secret's keys that `items` asks for.
pub open spec fn secret_item_steps(
    dir: Seq<char>,
    data: Seq<(String, Vec<u8>)>,
    items: Seq<KeyToPath>,
    token: Option<Seq<char>>,
    default: Option<i32>,
    make_parent: bool,
    how: WriteHow,
) -> Seq<StepView>
    decreases items.len(),
{
    if items.len() == 0 {
        Seq::empty()
    } else {
        let rest = secret_item_steps(
            dir,
            data,
            items.drop_last(),
            token,
            default,
            make_parent,
            how,
        );
        let item = items.last();
        match api::lookup_bytes(data, item.key@) {
            Some(b) => rest.push(
                write_step(
                    dir,
                    item.path@,
                    with_token(item.key@, b, token),
                    file_mode(item.mode, default),
                    make_parent,
                    how,
                ),
            ),
            None => rest,
        }
    }
}

/// The files of a secret's data: of the keys asked for, or of all.
pub open spec fn secret_steps(
    dir: Seq<char>,
    data: Seq<(String, Vec<u8>)>,
    items: Option<Vec<KeyToPath>>,
    token: Option<Seq<char>>,
    default: Option<i32>,
    how: WriteHow,
) -> Seq<StepView> {
    match items {
        Some(it) => secret_item_steps(dir, data, it@, token, default, true, how),
        None => byte_steps(dir, data, token, file_mode(None, default), false, how),
    }
}

/// What an item of pod and resource fields says, or why it says nothing.
pub open spec fn item_value(
    pod: Pod,
    item: DownwardAPIVolumeFile,
    readings: Seq<(String, i64)>,
) -> Result<Seq<char>, Seq<char>> {
    match item.field_ref {
        Some(f) => downward::field_value(pod, f.field_path@),
        None => match item.resource_field_ref {
            Some(r) => downward::resource_value(pod, r, readings),
            None => Err("DownwardAPI item must have either fieldRef or resourceFieldRef"@),
        },
    }
}

/// What an item says, nothing where it cannot say anything.
pub open spec fn item_text(pod: Pod, item: DownwardAPIVolumeFile, readings: Seq<(String, i64)>) -> Seq<
    char,
> {
    match item_value(pod, item, readings) {
        Ok(t) => t,
        Err(_) => Seq::empty(),
    }
}

/// What the items refer to can be put in words.
pub open spec fn items_are_plain(
    pod: Pod,
    items: Seq<DownwardAPIVolumeFile>,
    readings: Seq<(String, i64)>,
) -> bool {
    forall|i: int| 0 <= i < items.len() ==> item_is_plain(pod, #[trigger] items[i], readings)
}

/// What an item refers to can be put in words: the key of a label is closed, the amounts
/// fit.
pub open spec fn item_is_plain(
    pod: Pod,
    item: DownwardAPIVolumeFile,
    readings: Seq<(String, i64)>,
) -> bool {
    match item.field_ref {
        Some(f) => downward::key_is_closed(f.field_path@),
        None => match item.resource_field_ref {
            Some(r) => downward::resource_fits(pod, r, readings),
            None => true,
        },
    }
}

/// What the items refer to can be put in words, up to the first that says nothing.
pub open spec fn plain_while_told(
    pod: Pod,
    items: Seq<DownwardAPIVolumeFile>,
    readings: Seq<(String, i64)>,
) -> bool
    decreases items.len(),
{
    items.len() > 0 ==> item_is_plain(pod, items[0], readings) && (item_value(
        pod,
        items[0],
        readings,
    ) is Ok ==> plain_while_told(pod, items.drop_first(), readings))
}

/// The files of the items, up to the first that says nothing.
pub open spec fn strict_item_steps(
    dir: Seq<char>,
    pod: Pod,
    items: Seq<DownwardAPIVolumeFile>,
    default: i32,
    readings: Seq<(String, i64)>,
) -> (Seq<StepView>, Option<Seq<char>>)
    decreases items.len(),
{
    if items.len() == 0 {
        (Seq::empty(), None)
    } else {
        let (steps, failure) = strict_item_steps(dir, pod, items.drop_last(), default, readings);
        let item = items.last();
        match failure {
            Some(e) => (steps, Some(e)),
            None => match item_value(pod, item, readings) {
                Ok(t) => (
                    steps.push(
                        write_step(
                            dir,
                            item.path@,
                            encode_utf8(t),
                            file_mode(item.mode, Some(default)),
                            true,
                            WriteHow::Always,
                        ),
                    ),
                    None,
                ),
                Err(e) => (
                    steps.push(StepView::MakeParentOf(in_dir(dir, item.path@))),
                    Some(e),
                ),
            },
        }
    }
}

/// The files of the items, empty ones for those that say nothing.
pub open spec fn lenient_item_steps(
    dir: Seq<char>,
    pod: Pod,
    items: Seq<DownwardAPIVolumeFile>,
    default: Option<i32>,
    readings: Seq<(String, i64)>,
    make_parent: bool,
    how: WriteHow,
) -> Seq<StepView>
    decreases items.len(),
{
    if items.len() == 0 {
        Seq::empty()
    } else {
        let item = items.last();
        lenient_item_steps(dir, pod, items.drop_last(), default, readings, make_parent, how).push(
            write_step(
                dir,
                item.path@,
                encode_utf8(item_text(pod, item, readings)),
                file_mode(item.mode, default),
                make_parent,
                how,
            ),
        )
    }
}

/// A persistent volume, as far as a pod's volume needs it.
#[derive(Clone, Debug, Default)]
pub struct PersistentVolume {
    /// Its directory on the host, where it has one.
    pub host_path: Option<String>,
}

/// A claim and the volume it is bound to, as far as they were found.
#[derive(Clone, Debug, Default)]
pub struct ClaimFacts {
    /// The name of the volume that the claim carries, where the claim was found.
    pub volume_name: Option<Option<String>>,
    /// The volume, where it was found.
    pub volume: Option<PersistentVolume>,
}

/// What one source of a projected volume was found to hold.
#[derive(Clone, Debug, Default)]
pub struct ProjectionFacts {
    pub config_map: Option<ConfigMap>,
    pub secret: Option<Secret>,
    /// The token minted for a token source.
    pub token: String,
}

/// What a volume takes from outside the pod.
#[derive(Debug)]
pub struct VolumeFacts {
    /// There is storage to look things up in.
    pub storage: bool,
    /// The variables of the agent's own process, by which host paths are expanded.
    pub process_env: Vec<(String, String)>,
    /// The config map of a config map volume, or why there is none.
    pub config_map: Result<ConfigMap, String>,
    /// The secret of a secret volume, or why there is none.
    pub secret: Result<Secret, String>,
    /// The token minted for the pod, where the volume is one of service account tokens.
    pub bound_token: Option<String>,
    /// The claim of a claim volume or an ephemeral one.
    pub claim: ClaimFacts,
    /// For each source of a projected volume, what it holds.
    pub projections: Vec<ProjectionFacts>,
    /// Plain decimal processor quantities as floating point reads them.
    pub readings: DecimalCores,
}

/// The steps that make a volume, and its path on the host or why there is none.
pub struct VolumePlan {
    pub steps: Vec<VolumeStep>,
    pub outcome: Result<String, String>,
}

/// The steps that make a volume, and its path on the host or why there is none.
pub ghost struct PlanView {
    pub steps: Seq<StepView>,
    pub outcome: Result<Seq<char>, Seq<char>>,
}

impl VolumePlan {
    /// The plan with its texts and bytes.
    pub open spec fn view_of(self) -> PlanView {
        PlanView {
            steps: steps_view(self.steps@),
            outcome: match self.outcome {
                Ok(p) => Ok(p@),
                Err(e) => Err(e@),
            },
        }
    }
}

/// A plan that fails at once.
pub open spec fn refused(e: Seq<char>) -> PlanView {
    PlanView { steps: Seq::empty(), outcome: Err(e) }
}

/// The mode of a volume's directory: everybody may pass where files have the mode.
pub open spec fn dir_mode(default: Option<i32>) -> u32 {
    (mode_or_default(default) as u32) | 0o111
}

/// The mode of a volume's files where they set none.
pub open spec fn mode_or_default(default: Option<i32>) -> i32 {
    match default {
        Some(m) => m,
        None => 0o644,
    }
}

/// The flag, off where it is not set.
pub open spec fn is_set(o: Option<bool>) -> bool {
    o == Some(true)
}

/// The plan of a config map volume.
pub open spec fn config_map_plan(
    dir: Seq<char>,
    namespace: Seq<char>,
    src: api::ConfigMapVolumeSource,
    f: VolumeFacts,
) -> PlanView {
    if !f.storage {
        refused("Storage not available for ConfigMap volumes"@)
    } else if src.name is None {
        refused("ConfigMap volume must specify name"@)
    } else {
        let make = seq![StepView::MakeDir(dir)];
        let done = seq![StepView::SetMode(dir, dir_mode(src.default_mode))];
        match f.config_map {
            Ok(cm) => PlanView {
                steps: make + config_steps(
                    dir,
                    cm,
                    src.items,
                    Some(mode_or_default(src.default_mode)),
                    true,
                    WriteHow::Always,
                ) + done,
                outcome: Ok(dir),
            },
            Err(e) => if is_set(src.optional) {
                PlanView { steps: make + done, outcome: Ok(dir) }
            } else {
                PlanView {
                    steps: make,
                    outcome: Err(
                        "ConfigMap "@ + src.name->0@ + " not found in namespace "@ + namespace
                            + ": "@ + e@,
                    ),
                }
            },
        }
    }
}

/// A secret volume holds service account tokens, which are minted for the pod.
pub open spec fn is_token_volume(volume: Seq<char>, secret: Seq<char>) -> bool {
    text::has(volume, "kube-api-access"@) || text::ends(secret, "-token"@)
}

/// The data of a secret, where there is any.
pub open spec fn secret_data(r: Result<Secret, String>) -> Option<Seq<(String, Vec<u8>)>> {
    match r {
        Ok(s) => match s.data {
            Some(d) => Some(d@),
            None => None,
        },
        Err(_) => None,
    }
}

/// The map has the key.
pub open spec fn has_key(data: Option<Seq<(String, Vec<u8>)>>, key: Seq<char>) -> bool {
    data matches Some(d) && api::lookup_bytes(d, key) is Some
}

/// The CA certificate is put beside a service account's token, unless it is there.
pub open spec fn wants_ca_cert(secret: Seq<char>, data: Option<Seq<(String, Vec<u8>)>>) -> bool {
    (has_key(data, "token"@) || text::ends(secret, "-token"@)) && !has_key(data, "ca.crt"@)
}

/// The plan of a secret volume.
pub open spec fn secret_plan(
    dir: Seq<char>,
    volume: Seq<char>,
    namespace: Seq<char>,
    src: api::SecretVolumeSource,
    f: VolumeFacts,
) -> PlanView {
    if !f.storage {
        refused("Storage not available for Secret volumes"@)
    } else if src.secret_name is None {
        refused("Secret volume must specify secret_name"@)
    } else {
        let name = src.secret_name->0@;
        let make = seq![StepView::MakeDir(dir)];
        let data = secret_data(f.secret);
        let token = if is_token_volume(volume, name) {
            text::opt_text(f.bound_token)
        } else {
            None
        };
        if f.secret is Err && !is_set(src.optional) {
            PlanView {
                steps: make,
                outcome: Err(
                    "Secret "@ + name + " not found in namespace "@ + namespace + ": "@
                        + f.secret->Err_0@,
                ),
            }
        } else {
            let files = match data {
                Some(d) => secret_steps(
                    dir,
                    d,
                    src.items,
                    token,
                    Some(mode_or_default(src.default_mode)),
                    WriteHow::Always,
                ),
                None => Seq::empty(),
            };
            let ca = if wants_ca_cert(name, data) {
                seq![StepView::PutCaCert(in_dir(dir, "ca.crt"@))]
            } else {
                Seq::empty()
            };
            PlanView {
                steps: make + files + ca + seq![
                    StepView::SetMode(dir, dir_mode(src.default_mode)),
                ],
                outcome: Ok(dir),
            }
        }
    }
}

/// The plan of a claim volume.
pub open spec fn claim_plan(namespace: Seq<char>, claim: Seq<char>, f: VolumeFacts) -> PlanView {
    if !f.storage {
        refused("Storage not available for PersistentVolumeClaim volumes"@)
    } else {
        match f.claim.volume_name {
            None => refused(
                "PersistentVolumeClaim "@ + claim + " not found in namespace "@ + namespace,
            ),
            Some(o) => match mounts::nonempty(o) {
                None => refused("PersistentVolumeClaim is not bound to a volume"@),
                Some(pv) => match f.claim.volume {
                    None => refused("PersistentVolume "@ + pv + " not found"@),
                    Some(v) => match v.host_path {
                        None => refused(
                            "PersistentVolume does not have a hostPath volume source"@,
                        ),
                        Some(p) => PlanView {
                            steps: seq![StepView::MakeDir(p@)],
                            outcome: Ok(p@),
                        },
                    },
                },
            },
        }
    }
}

/// The plan of an ephemeral volume, whose claim is made from a template.
pub open spec fn ephemeral_plan(claim: Seq<char>, f: VolumeFacts) -> PlanView {
    if !f.storage {
        refused("Storage not available for ephemeral volumes"@)
    } else {
        match f.claim.volume_name {
            None => refused("Ephemeral PVC "@ + claim + " not found"@),
            Some(o) => match mounts::nonempty(o) {
                None => refused("Ephemeral PVC "@ + claim + " is not bound yet"@),
                Some(pv) => match f.claim.volume {
                    None => refused(
                        "PersistentVolume "@ + pv + " not found for ephemeral volume"@,
                    ),
                    Some(v) => match v.host_path {
                        None => refused(
                            "PersistentVolume does not have a hostPath volume source"@,
                        ),
                        Some(p) => PlanView { steps: Seq::empty(), outcome: Ok(p@) },
                    },
                },
            },
        }
    }
}

/// The plan of a volume of pod and resource fields.
pub open spec fn downward_plan(
    dir: Seq<char>,
    pod: Pod,
    src: api::DownwardAPIVolumeSource,
    f: VolumeFacts,
) -> PlanView {
    let (files, failure) = match src.items {
        Some(it) => strict_item_steps(
            dir,
            pod,
            it@,
            mode_or_default(src.default_mode),
            f.readings@,
        ),
        None => (Seq::empty(), None),
    };
    match failure {
        Some(e) => PlanView { steps: seq![StepView::MakeDir(dir)] + files, outcome: Err(e) },
        None => PlanView {
            steps: seq![StepView::MakeDir(dir)] + files + seq![
                StepView::SetMode(dir, dir_mode(src.default_mode)),
            ],
            outcome: Ok(dir),
        },
    }
}

/// The files of one source of a projected volume.
pub open spec fn projection_steps(
    dir: Seq<char>,
    pod: Pod,
    storage: bool,
    src: VolumeProjection,
    p: ProjectionFacts,
    default: i32,
    readings: Seq<(String, i64)>,
) -> Seq<StepView> {
    let cm = match (src.config_map, p.config_map) {
        (Some(s), Some(m)) if storage && s.name is Some => config_steps(
            dir,
            m,
            s.items,
            Some(default),
            true,
            WriteHow::Always,
        ),
        _ => Seq::empty(),
    };
    let sec = match (src.secret, p.secret) {
        (Some(s), Some(m)) if storage && s.name is Some && m.data is Some => secret_steps(
            dir,
            m.data->0@,
            s.items,
            None,
            Some(default),
            WriteHow::Always,
        ),
        _ => Seq::empty(),
    };
    let fields = match src.downward_api {
        Some(d) if d.items is Some => lenient_item_steps(
            dir,
            pod,
            d.items->0@,
            Some(default),
            readings,
            true,
            WriteHow::Always,
        ),
        _ => Seq::empty(),
    };
    let token = match src.service_account_token {
        Some(t) => seq![
            write_step(
                dir,
                t.path@,
                encode_utf8(p.token@),
                file_mode(None, Some(default)),
                true,
                WriteHow::Always,
            ),
        ],
        None => Seq::empty(),
    };
    cm + sec + fields + token
}

/// The files of the first `n` sources of a projected volume.
pub open spec fn projections_steps(
    dir: Seq<char>,
    pod: Pod,
    storage: bool,
    srcs: Seq<VolumeProjection>,
    ps: Seq<ProjectionFacts>,
    default: i32,
    readings: Seq<(String, i64)>,
    n: nat,
) -> Seq<StepView>
    decreases n,
{
    if n == 0 {
        Seq::empty()
    } else {
        projections_steps(dir, pod, storage, srcs, ps, default, readings, (n - 1) as nat)
            + projection_steps(dir, pod, storage, srcs[n - 1], ps[n - 1], default, readings)
    }
}

/// The plan of a projected volume.
pub open spec fn projected_plan(
    dir: Seq<char>,
    pod: Pod,
    src: api::ProjectedVolumeSource,
    f: VolumeFacts,
) -> PlanView {
    let files = match src.sources {
        Some(s) => projections_steps(
            dir,
            pod,
            f.storage,
            s@,
            f.projections@,
            mode_or_default(src.default_mode),
            f.readings@,
            s@.len(),
        ),
        None => Seq::empty(),
    };
    PlanView {
        steps: seq![StepView::MakeDir(dir)] + files + seq![
            StepView::SetMode(dir, dir_mode(src.default_mode)),
        ],
        outcome: Ok(dir),
    }
}

/// The plan of a host directory.
pub open spec fn host_path_plan(src: api::HostPathVolumeSource, f: VolumeFacts) -> PlanView {
    let path = expand::host_path_expansion(src.path@, api::pair_texts(f.process_env@))->0;
    PlanView {
        steps: if text::opt_text(src.type_) == Some("DirectoryOrCreate"@) {
            seq![StepView::MakeDir(path)]
        } else {
            Seq::empty()
        },
        outcome: Ok(path),
    }
}

/// What a volume is made from.
#[derive(Clone, Copy, Debug, PartialEq, Eq, Structural)]
pub enum SourceKind {
    EmptyDir,
    HostPath,
    ConfigMap,
    Secret,
    Claim,
    Downward,
    Csi,
    Ephemeral,
    Projected,
    Unknown,
}

/// The first of a volume's sources, which decides.
pub open spec fn kind_of(v: Volume) -> SourceKind {
    if v.empty_dir is Some {
        SourceKind::EmptyDir
    } else if v.host_path is Some {
        SourceKind::HostPath
    } else if v.config_map is Some {
        SourceKind::ConfigMap
    } else if v.secret is Some {
        SourceKind::Secret
    } else if v.persistent_volume_claim is Some {
        SourceKind::Claim
    } else if v.downward_api is Some {
        SourceKind::Downward
    } else if v.csi is Some {
        SourceKind::Csi
    } else if v.ephemeral is Some && v.ephemeral->0.volume_claim_template is Some {
        SourceKind::Ephemeral
    } else if v.projected is Some {
        SourceKind::Projected
    } else {
        SourceKind::Unknown
    }
}

/// The first of a volume's sources, which decides.
pub fn volume_source(v: &Volume) -> (r: SourceKind)
    ensures
        r == kind_of(*v),
{
    if v.empty_dir.is_some() {
        return SourceKind::EmptyDir;
    }
    if v.host_path.is_some() {
        return SourceKind::HostPath;
    }
    if v.config_map.is_some() {
        return SourceKind::ConfigMap;
    }
    if v.secret.is_some() {
        return SourceKind::Secret;
    }
    if v.persistent_volume_claim.is_some() {
        return SourceKind::Claim;
    }
    if v.downward_api.is_some() {
        return SourceKind::Downward;
    }
    if v.csi.is_some() {
        return SourceKind::Csi;
    }
    if let Some(e) = &v.ephemeral {
        if e.volume_claim_template.is_some() {
            return SourceKind::Ephemeral;
        }
    }
    if v.projected.is_some() {
        SourceKind::Projected
    } else {
        SourceKind::Unknown
    }
}

/// The labels or annotations that a template gives.
pub open spec fn given(
    template: Option<api::ObjectMeta>,
    labels: bool,
) -> Option<Seq<(Seq<char>, Seq<char>)>> {
    match template {
        Some(m) => status::opt_pairs(
            if labels {
                m.labels
            } else {
                m.annotations
            },
        ),
        None => None,
    }
}

/// The claim that an ephemeral volume of a pod is made from: named after pod and volume, in
/// the pod's namespace, with what the volume's template claims and the labels and annotations
/// that it gives. `None` for a volume with another source.
pub fn ephemeral_claim(pod: &Pod, volume: &Volume) -> (r: Option<api::PersistentVolumeClaim>)
    ensures
        match r {
            Some(c) => {
                let t = volume.ephemeral->0.volume_claim_template->0;
                &&& kind_of(*volume) == SourceKind::Ephemeral
                &&& c.kind@ == "PersistentVolumeClaim"@
                &&& c.api_version@ == "v1"@
                &&& c.metadata.name@ == pod.metadata.name@ + "-"@ + volume.name@
                &&& text::opt_text(c.metadata.namespace) == Some(api::namespace_of(*pod))
                &&& c.metadata.uid@ == Seq::<char>::empty()
                &&& status::opt_pairs(c.metadata.labels) == given(t.metadata, true)
                &&& status::opt_pairs(c.metadata.annotations) == given(t.metadata, false)
                &&& c.spec@ == t.spec@
            },
            None => kind_of(*volume) != SourceKind::Ephemeral,
        },
{
    match volume_source(volume) {
        SourceKind::Ephemeral => {},
        _ => {
            return None;
        },
    }
    let e = match &volume.ephemeral {
        Some(e) => e,
        None => {
            return None;
        },
    };
    let t = match &e.volume_claim_template {
        Some(t) => t,
        None => {
            return None;
        },
    };
    let name = names::ephemeral_claim_name(pod.metadata.name.as_str(), volume.name.as_str());
    let mut metadata = api::ObjectMeta::new(name.as_str()).with_namespace(pod.namespace());
    if let Some(m) = &t.metadata {
        metadata.labels = status::copy_opt_pairs(&m.labels);
        metadata.annotations = status::copy_opt_pairs(&m.annotations);
    }
    Some(
        api::PersistentVolumeClaim {
            kind: String::from_str("PersistentVolumeClaim"),
            api_version: String::from_str("v1"),
            metadata,
            spec: t.spec.clone(),
        },
    )
}

/// The plan of a pod's volume, by the first of its sources.
pub open spec fn volume_plan(base: Seq<char>, pod: Pod, v: Volume, f: VolumeFacts) -> PlanView {
    let dir = names::pod_path_text(base, pod.metadata.name@, v.name@);
    let namespace = api::namespace_of(pod);
    let empty = PlanView { steps: seq![StepView::MakeDir(dir)], outcome: Ok(dir) };
    match kind_of(v) {
        SourceKind::EmptyDir => PlanView { steps: empty_dir_steps(dir), outcome: Ok(dir) },
        SourceKind::HostPath => host_path_plan(v.host_path->0, f),
        SourceKind::ConfigMap => config_map_plan(dir, namespace, v.config_map->0, f),
        SourceKind::Secret => secret_plan(dir, v.name@, namespace, v.secret->0, f),
        SourceKind::Claim => claim_plan(
            namespace,
            v.persistent_volume_claim->0.claim_name@,
            f,
        ),
        SourceKind::Downward => downward_plan(dir, pod, v.downward_api->0, f),
        SourceKind::Ephemeral => ephemeral_plan(pod.metadata.name@ + "-"@ + v.name@, f),
        SourceKind::Projected => projected_plan(dir, pod, v.projected->0, f),
        SourceKind::Csi | SourceKind::Unknown => empty,
    }
}

/// The steps that make an empty directory: it is there, and anyone may write to it.
pub open spec fn empty_dir_steps(dir: Seq<char>) -> Seq<StepView> {
    seq![StepView::MakeDir(dir), StepView::SetMode(dir, 0o777)]
}

/// The steps that make an empty directory. Its mode is set though it is there already.
pub fn setup_emptydir_dir(path: &str) -> (r: Vec<VolumeStep>)
    ensures
        steps_view(r@) == empty_dir_steps(path@),
{
    let mut steps = no_steps();
    push_step(&mut steps, VolumeStep::MakeDir(String::from_str(path)));
    push_step(&mut steps, VolumeStep::SetMode(String::from_str(path), 0o777));
    assert(steps_view(steps@) =~= empty_dir_steps(path@));
    steps
}

/// What a volume is made from was looked up and can be put in words: a host path whose
/// variables can be replaced, items that are plain, one set of facts for each source.
pub open spec fn volume_facts_match(pod: Pod, v: Volume, f: VolumeFacts) -> bool {
    match kind_of(v) {
        SourceKind::HostPath => expand::host_path_expansion(
            v.host_path->0.path@,
            api::pair_texts(f.process_env@),
        ) is Some,
        SourceKind::Downward => v.downward_api->0.items matches Some(it) ==> plain_while_told(
            pod,
            it@,
            f.readings@,
        ),
        SourceKind::Projected => v.projected->0.sources matches Some(s) ==> {
            &&& f.projections@.len() == s@.len()
            &&& sources_are_plain(pod, s@, f.readings@)
        },
        _ => true,
    }
}

/// The items of all sources are plain.
pub open spec fn sources_are_plain(
    pod: Pod,
    srcs: Seq<VolumeProjection>,
    readings: Seq<(String, i64)>,
) -> bool {
    forall|i: int|
        0 <= i < srcs.len() ==> source_is_plain(pod, #[trigger] srcs[i], readings)
}

/// The items of a source are plain.
pub open spec fn source_is_plain(
    pod: Pod,
    src: VolumeProjection,
    readings: Seq<(String, i64)>,
) -> bool {
    src.downward_api matches Some(d) ==> d.items matches Some(it) ==> items_are_plain(
        pod,
        it@,
        readings,
    )
}

/// Adds one step to a list.
pub fn push_step(steps: &mut Vec<VolumeStep>, s: VolumeStep)
    ensures
        steps_view(final(steps)@) == steps_view(old(steps)@).push(step_view(s)),
{
    steps.push(s);
    assert(steps_view(steps@) =~= steps_view(old(steps)@).push(step_view(s)));
}

/// A list without steps.
pub fn no_steps() -> (r: Vec<VolumeStep>)
    ensures
        steps_view(r@) == Seq::<StepView>::empty(),
{
    let r: Vec<VolumeStep> = Vec::new();
    assert(steps_view(r@) =~= Seq::<StepView>::empty());
    r
}

/// The same bytes once more.
pub(crate) fn copy_bytes(b: &Vec<u8>) -> (r: Vec<u8>)
    ensures
        r@ == b@,
{
    slice_to_vec(b.as_slice())
}

/// Adds a file to write.
pub(crate) fn push_write(
    steps: &mut Vec<VolumeStep>,
    dir: &str,
    name: &str,
    content: Vec<u8>,
    mode: Option<u32>,
    make_parent: bool,
    how: WriteHow,
)
    ensures
        steps_view(final(steps)@) == steps_view(old(steps)@).push(
            write_step(dir@, name@, content@, mode, make_parent, how),
        ),
{
    let path = text::cat3(dir, "/", name);
    push_step(steps, VolumeStep::Write { path, content, mode, make_parent, how });
}

/// The mode of a file.
fn mode_of(own: Option<i32>, default: Option<i32>) -> (r: Option<u32>)
    ensures
        r == file_mode(own, default),
{
    match default {
        None => None,
        Some(d) => {
            let m: i32 = match own {
                Some(m) => m,
                None => d,
            };
            Some(m as u32)
        },
    }
}

pub(crate) fn push_text_steps(
    steps: &mut Vec<VolumeStep>,
    dir: &str,
    data: &Vec<(String, String)>,
    mode: Option<u32>,
    make_parent: bool,
    how: WriteHow,
)
    ensures
        steps_view(final(steps)@) == steps_view(old(steps)@) + text_steps(
            dir@,
            data@,
            mode,
            make_parent,
            how,
        ),
{
    let ghost start = steps_view(steps@);
    let mut i: usize = 0;
    assert(data@.take(0) == Seq::<(String, String)>::empty());
    assert(start + text_steps(dir@, data@.take(0), mode, make_parent, how) =~= start);
    while i < data.len()
        invariant
            i <= data@.len(),
            steps_view(steps@) == start + text_steps(
                dir@,
                data@.take(i as int),
                mode,
                make_parent,
                how,
            ),
        decreases data@.len() - i,
    {
        assert(data@.take(i as int + 1).drop_last() == data@.take(i as int));
        let b = data[i].1.as_str().as_bytes_vec();
        push_write(steps, dir, data[i].0.as_str(), b, mode, make_parent, how);
        assert(steps_view(steps@) =~= start + text_steps(
            dir@,
            data@.take(i as int + 1),
            mode,
            make_parent,
            how,
        ));
        i += 1;
    }
    assert(data@.take(data@.len() as int) == data@);
}

/// The bytes of a secret's key, or the token in place of the key `token`.
fn token_or(key: &str, value: &Vec<u8>, token: &Option<String>) -> (r: Vec<u8>)
    ensures
        r@ == with_token(key@, value@, text::opt_text(*token)),
{
    if text::same(key, "token") {
        if let Some(t) = token {
            return t.as_str().as_bytes_vec();
        }
    }
    copy_bytes(value)
}

pub(crate) fn push_byte_steps(
    steps: &mut Vec<VolumeStep>,
    dir: &str,
    data: &Vec<(String, Vec<u8>)>,
    token: &Option<String>,
    mode: Option<u32>,
    make_parent: bool,
    how: WriteHow,
)
    ensures
        steps_view(final(steps)@) == steps_view(old(steps)@) + byte_steps(
            dir@,
            data@,
            text::opt_text(*token),
            mode,
            make_parent,
            how,
        ),
{
    let ghost start = steps_view(steps@);
    let ghost t = text::opt_text(*token);
    let mut i: usize = 0;
    assert(data@.take(0) == Seq::<(String, Vec<u8>)>::empty());
    assert(start + byte_steps(dir@, data@.take(0), t, mode, make_parent, how) =~= start);
    while i < data.len()
        invariant
            i <= data@.len(),
            t == text::opt_text(*token),
            steps_view(steps@) == start + byte_steps(
                dir@,
                data@.take(i as int),
                t,
                mode,
                make_parent,
                how,
            ),
        decreases data@.len() - i,
    {
        assert(data@.take(i as int + 1).drop_last() == data@.take(i as int));
        let b = token_or(data[i].0.as_str(), &data[i].1, token);
        push_write(steps, dir, data[i].0.as_str(), b, mode, make_parent, how);
        assert(steps_view(steps@) =~= start + byte_steps(
            dir@,
            data@.take(i as int + 1),
            t,
            mode,
            make_parent,
            how,
        ));
        i += 1;
    }
    assert(data@.take(data@.len() as int) == data@);
}

/// The bytes of a config map's key.
fn bytes_of(cm: &ConfigMap, key: &str) -> (r: Option<Vec<u8>>)
    ensures
        (match r {
            Some(b) => Some(b@),
            None => None::<Seq<u8>>,
        }) == config_bytes(*cm, key@),
{
    match api::opt_get(&cm.data, key) {
        Some(t) => Some(t.as_bytes_vec()),
        None => match api::opt_get_bytes(&cm.binary_data, key) {
            Some(b) => Some(copy_bytes(b)),
            None => None,
        },
    }
}

pub(crate) fn push_config_steps(
    steps: &mut Vec<VolumeStep>,
    dir: &str,
    cm: &ConfigMap,
    items: &Option<Vec<KeyToPath>>,
    default: Option<i32>,
    parents: bool,
    how: WriteHow,
)
    ensures
        steps_view(final(steps)@) == steps_view(old(steps)@) + config_steps(
            dir@,
            *cm,
            *items,
            default,
            parents,
            how,
        ),
{
    let ghost start = steps_view(steps@);
    match items {
        Some(it) => {
            let mut i: usize = 0;
            assert(it@.take(0) == Seq::<KeyToPath>::empty());
            assert(start + config_item_steps(dir@, *cm, it@.take(0), default, how) =~= start);
            while i < it.len()
                invariant
                    i <= it@.len(),
                    steps_view(steps@) == start + config_item_steps(
                        dir@,
                        *cm,
                        it@.take(i as int),
                        default,
                        how,
                    ),
                decreases it@.len() - i,
            {
                assert(it@.take(i as int + 1).drop_last() == it@.take(i as int));
                assert(it@.take(i as int + 1).last() == it@[i as int]);
                if let Some(b) = bytes_of(cm, it[i].key.as_str()) {
                    push_write(
                        steps,
                        dir,
                        it[i].path.as_str(),
                        b,
                        mode_of(it[i].mode, default),
                        true,
                        how,
                    );
                }
                assert(steps_view(steps@) =~= start + config_item_steps(
                    dir@,
                    *cm,
                    it@.take(i as int + 1),
                    default,
                    how,
                ));
                i += 1;
            }
            assert(it@.take(it@.len() as int) == it@);
        },
        None => {
            let mode: Option<u32> = mode_of(None, default);
            if let Some(d) = &cm.data {
                push_text_steps(steps, dir, d, mode, parents, how);
            }
            if let Some(d) = &cm.binary_data {
                push_byte_steps(steps, dir, d, &None, mode, parents, how);
            }
            assert(steps_view(steps@) =~= start + config_steps(
                dir@,
                *cm,
                *items,
                default,
                parents,
                how,
            ));
        },
    }
}

pub(crate) fn push_secret_items(
    steps: &mut Vec<VolumeStep>,
    dir: &str,
    data: &Vec<(String, Vec<u8>)>,
    it: &Vec<KeyToPath>,
    token: &Option<String>,
    default: Option<i32>,
    make_parent: bool,
    how: WriteHow,
)
    ensures
        steps_view(final(steps)@) == steps_view(old(steps)@) + secret_item_steps(
            dir@,
            data@,
            it@,
            text::opt_text(*token),
            default,
            make_parent,
            how,
        ),
{
    let ghost start = steps_view(steps@);
    let ghost t = text::opt_text(*token);
    let mut i: usize = 0;
    assert(it@.take(0) == Seq::<KeyToPath>::empty());
    assert(start + secret_item_steps(dir@, data@, it@.take(0), t, default, make_parent, how)
        =~= start);
    while i < it.len()
        invariant
            i <= it@.len(),
            t == text::opt_text(*token),
            steps_view(steps@) == start + secret_item_steps(
                dir@,
                data@,
                it@.take(i as int),
                t,
                default,
                make_parent,
                how,
            ),
        decreases it@.len() - i,
    {
        assert(it@.take(i as int + 1).drop_last() == it@.take(i as int));
        assert(it@.take(i as int + 1).last() == it@[i as int]);
        if let Some(b) = api::get_bytes(data, it[i].key.as_str()) {
            let c = token_or(it[i].key.as_str(), b, token);
            push_write(
                steps,
                dir,
                it[i].path.as_str(),
                c,
                mode_of(it[i].mode, default),
                make_parent,
                how,
            );
        }
        assert(steps_view(steps@) =~= start + secret_item_steps(
            dir@,
            data@,
            it@.take(i as int + 1),
            t,
            default,
            make_parent,
            how,
        ));
        i += 1;
    }
    assert(it@.take(it@.len() as int) == it@);
}

pub(crate) fn push_secret_steps(
    steps: &mut Vec<VolumeStep>,
    dir: &str,
    data: &Vec<(String, Vec<u8>)>,
    items: &Option<Vec<KeyToPath>>,
    token: &Option<String>,
    default: Option<i32>,
    how: WriteHow,
)
    ensures
        steps_view(final(steps)@) == steps_view(old(steps)@) + secret_steps(
            dir@,
            data@,
            *items,
            text::opt_text(*token),
            default,
            how,
        ),
{
    match items {
        Some(it) => {
            push_secret_items(steps, dir, data, it, token, default, true, how);
        },
        None => {
            push_byte_steps(steps, dir, data, token, mode_of(None, default), false, how);
        },
    }
}

/// What an item says.
pub(crate) fn value_of_item(
    rt: &ContainerRuntime,
    pod: &Pod,
    item: &DownwardAPIVolumeFile,
    readings: &DecimalCores,
) -> (r: Result<String, String>)
    requires
        item_is_plain(*pod, *item, readings@),
    ensures
        match r {
            Ok(t) => item_value(*pod, *item, readings@) == Ok::<Seq<char>, Seq<char>>(t@),
            Err(e) => item_value(*pod, *item, readings@) == Err::<Seq<char>, Seq<char>>(e@),
        },
{
    match &item.field_ref {
        Some(f) => rt.get_pod_field_value(pod, f.field_path.as_str()),
        None => match &item.resource_field_ref {
            Some(x) => rt.get_container_resource_value(pod, x, readings),
            None => Err(
                "DownwardAPI item must have either fieldRef or resourceFieldRef".to_string(),
            ),
        },
    }
}

fn push_strict_items(
    rt: &ContainerRuntime,
    steps: &mut Vec<VolumeStep>,
    dir: &str,
    pod: &Pod,
    items: &Vec<DownwardAPIVolumeFile>,
    default: i32,
    readings: &DecimalCores,
) -> (failure: Option<String>)
    requires
        plain_while_told(*pod, items@, readings@),
    ensures
        steps_view(final(steps)@) == steps_view(old(steps)@) + strict_item_steps(
            dir@,
            *pod,
            items@,
            default,
            readings@,
        ).0,
        text::opt_text(failure) == strict_item_steps(dir@, *pod, items@, default, readings@).1,
{
    let ghost start = steps_view(steps@);
    let mut failure: Option<String> = None;
    let mut i: usize = 0;
    assert(items@.take(0) == Seq::<DownwardAPIVolumeFile>::empty());
    assert(items@.skip(0) == items@);
    assert(start + strict_item_steps(dir@, *pod, items@.take(0), default, readings@).0 =~= start);
    while i < items.len()
        invariant
            i <= items@.len(),
            failure is None ==> plain_while_told(*pod, items@.skip(i as int), readings@),
            steps_view(steps@) == start + strict_item_steps(
                dir@,
                *pod,
                items@.take(i as int),
                default,
                readings@,
            ).0,
            text::opt_text(failure) == strict_item_steps(
                dir@,
                *pod,
                items@.take(i as int),
                default,
                readings@,
            ).1,
        decreases items@.len() - i,
    {
        assert(items@.take(i as int + 1).drop_last() == items@.take(i as int));
        assert(items@.take(i as int + 1).last() == items@[i as int]);
        assert(items@.skip(i as int)[0] == items@[i as int]);
        assert(items@.skip(i as int).drop_first() == items@.skip(i as int + 1));
        if failure.is_none() {
            match value_of_item(rt, pod, &items[i], readings) {
                Ok(t) => {
                    push_write(
                        steps,
                        dir,
                        items[i].path.as_str(),
                        t.as_str().as_bytes_vec(),
                        mode_of(items[i].mode, Some(default)),
                        true,
                        WriteHow::Always,
                    );
                },
                Err(e) => {
                    let p = text::cat3(dir, "/", items[i].path.as_str());
                    push_step(steps, VolumeStep::MakeParentOf(p));
                    failure = Some(e);
                },
            }
        }
        assert(steps_view(steps@) =~= start + strict_item_steps(
            dir@,
            *pod,
            items@.take(i as int + 1),
            default,
            readings@,
        ).0);
        i += 1;
    }
    assert(items@.take(items@.len() as int) == items@);
    failure
}

pub(crate) fn push_lenient_items(
    rt: &ContainerRuntime,
    steps: &mut Vec<VolumeStep>,
    dir: &str,
    pod: &Pod,
    items: &Vec<DownwardAPIVolumeFile>,
    default: Option<i32>,
    readings: &DecimalCores,
    make_parent: bool,
    how: WriteHow,
)
    requires
        items_are_plain(*pod, items@, readings@),
    ensures
        steps_view(final(steps)@) == steps_view(old(steps)@) + lenient_item_steps(
            dir@,
            *pod,
            items@,
            default,
            readings@,
            make_parent,
            how,
        ),
{
    let ghost start = steps_view(steps@);
    let mut i: usize = 0;
    assert(items@.take(0) == Seq::<DownwardAPIVolumeFile>::empty());
    assert(start + lenient_item_steps(
        dir@,
        *pod,
        items@.take(0),
        default,
        readings@,
        make_parent,
        how,
    ) =~= start);
    while i < items.len()
        invariant
            i <= items@.len(),
            items_are_plain(*pod, items@, readings@),
            steps_view(steps@) == start + lenient_item_steps(
                dir@,
                *pod,
                items@.take(i as int),
                default,
                readings@,
                make_parent,
                how,
            ),
        decreases items@.len() - i,
    {
        assert(items@.take(i as int + 1).drop_last() == items@.take(i as int));
        assert(items@.take(i as int + 1).last() == items@[i as int]);
        let t = match value_of_item(rt, pod, &items[i], readings) {
            Ok(t) => t,
            Err(_) => String::new(),
        };
        assert(t@ =~= item_text(*pod, items@[i as int], readings@));
        push_write(
            steps,
            dir,
            items[i].path.as_str(),
            t.as_str().as_bytes_vec(),
            mode_of(items[i].mode, default),
            make_parent,
            how,
        );
        assert(steps_view(steps@) =~= start + lenient_item_steps(
            dir@,
            *pod,
            items@.take(i as int + 1),
            default,
            readings@,
            make_parent,
            how,
        ));
        i += 1;
    }
    assert(items@.take(items@.len() as int) == items@);
}

fn push_projection(
    rt: &ContainerRuntime,
    steps: &mut Vec<VolumeStep>,
    dir: &str,
    pod: &Pod,
    storage: bool,
    src: &VolumeProjection,
    p: &ProjectionFacts,
    default: i32,
    readings: &DecimalCores,
)
    requires
        source_is_plain(*pod, *src, readings@),
    ensures
        steps_view(final(steps)@) == steps_view(old(steps)@) + projection_steps(
            dir@,
            *pod,
            storage,
            *src,
            *p,
            default,
            readings@,
        ),
{
    let ghost start = steps_view(steps@);
    if let Some(s) = &src.config_map {
        if let Some(m) = &p.config_map {
            if storage && s.name.is_some() {
                push_config_steps(steps, dir, m, &s.items, Some(default), true, WriteHow::Always);
            }
        }
    }
    if let Some(s) = &src.secret {
        if let Some(m) = &p.secret {
            if storage && s.name.is_some() {
                if let Some(d) = &m.data {
                    push_secret_steps(
                        steps,
                        dir,
                        d,
                        &s.items,
                        &None,
                        Some(default),
                        WriteHow::Always,
                    );
                }
            }
        }
    }
    if let Some(d) = &src.downward_api {
        if let Some(it) = &d.items {
            push_lenient_items(
                rt,
                steps,
                dir,
                pod,
                it,
                Some(default),
                readings,
                true,
                WriteHow::Always,
            );
        }
    }
    if let Some(t) = &src.service_account_token {
        push_write(
            steps,
            dir,
            t.path.as_str(),
            p.token.as_str().as_bytes_vec(),
            mode_of(None, Some(default)),
            true,
            WriteHow::Always,
        );
    }
    assert(steps_view(steps@) =~= start + projection_steps(
        dir@,
        *pod,
        storage,
        *src,
        *p,
        default,
        readings@,
    ));
}

/// A plan that fails at once.
pub(crate) fn refuse(e: String) -> (r: VolumePlan)
    ensures
        r.view_of() == refused(e@),
{
    VolumePlan { steps: no_steps(), outcome: Err(e) }
}

/// The mode of a volume's directory.
fn dir_mode_of(default: Option<i32>) -> (r: u32)
    ensures
        r == dir_mode(default),
{
    (default_of(default) as u32) | 0o111
}

/// The mode of a volume's files where they set none.
fn default_of(default: Option<i32>) -> (r: i32)
    ensures
        r == mode_or_default(default),
{
    match default {
        Some(m) => m,
        None => 0o644,
    }
}

/// The flag is set.
pub(crate) fn set(o: Option<bool>) -> (r: bool)
    ensures
        r == is_set(o),
{
    match o {
        Some(b) => b,
        None => false,
    }
}

fn plan_config_map(
    dir: String,
    namespace: &str,
    src: &api::ConfigMapVolumeSource,
    f: &VolumeFacts,
) -> (r: VolumePlan)
    ensures
        r.view_of() == config_map_plan(dir@, namespace@, *src, *f),
{
    if !f.storage {
        return refuse("Storage not available for ConfigMap volumes".to_string());
    }
    let name = match &src.name {
        Some(n) => n,
        None => {
            return refuse("ConfigMap volume must specify name".to_string());
        },
    };
    let mut steps = no_steps();
    push_step(&mut steps, VolumeStep::MakeDir(dir.clone()));
    match &f.config_map {
        Ok(cm) => {
            push_config_steps(
                &mut steps,
                dir.as_str(),
                cm,
                &src.items,
                Some(default_of(src.default_mode)),
                true,
                WriteHow::Always,
            );
        },
        Err(e) => {
            if !set(src.optional) {
                let head = text::cat4(
                    "ConfigMap ",
                    name.as_str(),
                    " not found in namespace ",
                    namespace,
                );
                let m = text::cat3(head.as_str(), ": ", e.as_str());
                let r = VolumePlan { steps, outcome: Err(m) };
                assert(r.view_of().steps =~= config_map_plan(dir@, namespace@, *src, *f).steps);
                return r;
            }
        },
    }
    push_step(&mut steps, VolumeStep::SetMode(dir.clone(), dir_mode_of(src.default_mode)));
    let r = VolumePlan { steps, outcome: Ok(dir) };
    assert(r.view_of().steps =~= config_map_plan(dir@, namespace@, *src, *f).steps);
    r
}

/// A secret volume holds service account tokens, which are minted for the pod.
pub fn wants_bound_token(volume: &str, secret: &str) -> (r: bool)
    ensures
        r == is_token_volume(volume@, secret@),
{
    text::contains(volume, "kube-api-access") || text::ends_with(secret, "-token")
}

fn plan_secret(
    dir: String,
    volume: &str,
    namespace: &str,
    src: &api::SecretVolumeSource,
    f: &VolumeFacts,
) -> (r: VolumePlan)
    ensures
        r.view_of() == secret_plan(dir@, volume@, namespace@, *src, *f),
{
    if !f.storage {
        return refuse("Storage not available for Secret volumes".to_string());
    }
    let name = match &src.secret_name {
        Some(n) => n,
        None => {
            return refuse("Secret volume must specify secret_name".to_string());
        },
    };
    let mut steps = no_steps();
    push_step(&mut steps, VolumeStep::MakeDir(dir.clone()));
    let mut has_token: bool = false;
    let mut has_ca: bool = false;
    match &f.secret {
        Ok(s) => {
            if let Some(d) = &s.data {
                let no_token: Option<String> = None;
                let token: &Option<String> = if wants_bound_token(volume, name.as_str()) {
                    &f.bound_token
                } else {
                    &no_token
                };
                push_secret_steps(
                    &mut steps,
                    dir.as_str(),
                    d,
                    &src.items,
                    token,
                    Some(default_of(src.default_mode)),
                    WriteHow::Always,
                );
                has_token = api::get_bytes(d, "token").is_some();
                has_ca = api::get_bytes(d, "ca.crt").is_some();
            }
        },
        Err(e) => {
            if !set(src.optional) {
                let head = text::cat4(
                    "Secret ",
                    name.as_str(),
                    " not found in namespace ",
                    namespace,
                );
                let m = text::cat3(head.as_str(), ": ", e.as_str());
                let r = VolumePlan { steps, outcome: Err(m) };
                assert(r.view_of().steps =~= secret_plan(dir@, volume@, namespace@, *src, *f).steps);
                return r;
            }
        },
    }
    if (has_token || text::ends_with(name.as_str(), "-token")) && !has_ca {
        let ca = text::cat3(dir.as_str(), "/", "ca.crt");
        push_step(&mut steps, VolumeStep::PutCaCert(ca));
    }
    push_step(&mut steps, VolumeStep::SetMode(dir.clone(), dir_mode_of(src.default_mode)));
    let r = VolumePlan { steps, outcome: Ok(dir) };
    assert(r.view_of().steps =~= secret_plan(dir@, volume@, namespace@, *src, *f).steps);
    r
}

fn plan_claim(namespace: &str, claim: &str, f: &VolumeFacts) -> (r: VolumePlan)
    ensures
        r.view_of() == claim_plan(namespace@, claim@, *f),
{
    if !f.storage {
        return refuse("Storage not available for PersistentVolumeClaim volumes".to_string());
    }
    let bound = match &f.claim.volume_name {
        None => {
            return refuse(
                text::cat4(
                    "PersistentVolumeClaim ",
                    claim,
                    " not found in namespace ",
                    namespace,
                ),
            );
        },
        Some(o) => mounts::bound_pv_name(o),
    };
    let pv = match bound {
        None => {
            return refuse("PersistentVolumeClaim is not bound to a volume".to_string());
        },
        Some(pv) => pv,
    };
    match &f.claim.volume {
        None => refuse(text::cat3("PersistentVolume ", pv, " not found")),
        Some(v) => match &v.host_path {
            None => refuse("PersistentVolume does not have a hostPath volume source".to_string()),
            Some(p) => {
                let mut steps = no_steps();
                push_step(&mut steps, VolumeStep::MakeDir(p.clone()));
                let r = VolumePlan { steps, outcome: Ok(p.clone()) };
                assert(r.view_of().steps =~= claim_plan(namespace@, claim@, *f).steps);
                r
            },
        },
    }
}

fn plan_ephemeral(claim: &str, f: &VolumeFacts) -> (r: VolumePlan)
    ensures
        r.view_of() == ephemeral_plan(claim@, *f),
{
    if !f.storage {
        return refuse("Storage not available for ephemeral volumes".to_string());
    }
    let bound = match &f.claim.volume_name {
        None => {
            return refuse(text::cat3("Ephemeral PVC ", claim, " not found"));
        },
        Some(o) => mounts::bound_pv_name(o),
    };
    let pv = match bound {
        None => {
            return refuse(text::cat3("Ephemeral PVC ", claim, " is not bound yet"));
        },
        Some(pv) => pv,
    };
    match &f.claim.volume {
        None => refuse(
            text::cat3("PersistentVolume ", pv, " not found for ephemeral volume"),
        ),
        Some(v) => match &v.host_path {
            None => refuse("PersistentVolume does not have a hostPath volume source".to_string()),
            Some(p) => VolumePlan { steps: no_steps(), outcome: Ok(p.clone()) },
        },
    }
}

/// A directory with nothing in it.
fn plan_empty(dir: String) -> (r: VolumePlan)
    ensures
        r.view_of() == (PlanView { steps: seq![StepView::MakeDir(dir@)], outcome: Ok(dir@) }),
{
    let mut steps = no_steps();
    push_step(&mut steps, VolumeStep::MakeDir(dir.clone()));
    assert(steps_view(steps@) =~= seq![StepView::MakeDir(dir@)]);
    VolumePlan { steps, outcome: Ok(dir) }
}

impl ContainerRuntime {
    fn plan_downward(
        &self,
        dir: String,
        pod: &Pod,
        src: &api::DownwardAPIVolumeSource,
        f: &VolumeFacts,
    ) -> (r: VolumePlan)
        requires
            src.items matches Some(it) ==> plain_while_told(*pod, it@, f.readings@),
        ensures
            r.view_of() == downward_plan(dir@, *pod, *src, *f),
    {
        let mut steps = no_steps();
        push_step(&mut steps, VolumeStep::MakeDir(dir.clone()));
        if let Some(it) = &src.items {
            let failure = push_strict_items(
                self,
                &mut steps,
                dir.as_str(),
                pod,
                it,
                default_of(src.default_mode),
                &f.readings,
            );
            if let Some(e) = failure {
                let r = VolumePlan { steps, outcome: Err(e) };
                assert(r.view_of().steps =~= downward_plan(dir@, *pod, *src, *f).steps);
                return r;
            }
        }
        push_step(&mut steps, VolumeStep::SetMode(dir.clone(), dir_mode_of(src.default_mode)));
        let r = VolumePlan { steps, outcome: Ok(dir) };
        assert(r.view_of().steps =~= downward_plan(dir@, *pod, *src, *f).steps);
        r
    }

    fn plan_projected(
        &self,
        dir: String,
        pod: &Pod,
        src: &api::ProjectedVolumeSource,
        f: &VolumeFacts,
    ) -> (r: VolumePlan)
        requires
            src.sources matches Some(s) ==> {
                &&& f.projections@.len() == s@.len()
                &&& sources_are_plain(*pod, s@, f.readings@)
            },
        ensures
            r.view_of() == projected_plan(dir@, *pod, *src, *f),
    {
        let mut steps = no_steps();
        push_step(&mut steps, VolumeStep::MakeDir(dir.clone()));
        let default: i32 = default_of(src.default_mode);
        if let Some(s) = &src.sources {
            let ghost start = steps_view(steps@);
            let mut i: usize = 0;
            assert(start + projections_steps(
                dir@,
                *pod,
                f.storage,
                s@,
                f.projections@,
                default,
                f.readings@,
                0,
            ) =~= start);
            while i < s.len()
                invariant
                    i <= s@.len(),
                    f.projections@.len() == s@.len(),
                    sources_are_plain(*pod, s@, f.readings@),
                    steps_view(steps@) == start + projections_steps(
                        dir@,
                        *pod,
                        f.storage,
                        s@,
                        f.projections@,
                        default,
                        f.readings@,
                        i as nat,
                    ),
                decreases s@.len() - i,
            {
                assert(source_is_plain(*pod, s@[i as int], f.readings@));
                push_projection(
                    self,
                    &mut steps,
                    dir.as_str(),
                    pod,
                    f.storage,
                    &s[i],
                    &f.projections[i],
                    default,
                    &f.readings,
                );
                assert(steps_view(steps@) =~= start + projections_steps(
                    dir@,
                    *pod,
                    f.storage,
                    s@,
                    f.projections@,
                    default,
                    f.readings@,
                    (i + 1) as nat,
                ));
                i += 1;
            }
        }
        push_step(&mut steps, VolumeStep::SetMode(dir.clone(), dir_mode_of(src.default_mode)));
        let r = VolumePlan { steps, outcome: Ok(dir) };
        assert(r.view_of().steps =~= projected_plan(dir@, *pod, *src, *f).steps);
        r
    }

    /// The steps that make a pod's volume, and the path that they lead to.
    pub fn create_volume(&self, pod: &Pod, volume: &Volume, f: &VolumeFacts) -> (r: VolumePlan)
        requires
            volume_facts_match(*pod, *volume, *f),
        ensures
            r.view_of() == volume_plan(self.volumes_base_path@, *pod, *volume, *f),
    {
        let dir = names::pod_path(
            self.volumes_base_path.as_str(),
            pod.metadata.name.as_str(),
            volume.name.as_str(),
        );
        let namespace = pod.namespace();
        if volume.empty_dir.is_some() {
            return VolumePlan { steps: setup_emptydir_dir(dir.as_str()), outcome: Ok(dir) };
        }
        if let Some(h) = &volume.host_path {
            let path = ContainerRuntime::expand_env_vars(
                h.path.as_str(),
                f.process_env.as_slice(),
            );
            let mut steps = no_steps();
            if let Some(t) = &h.type_ {
                if text::same(t.as_str(), "DirectoryOrCreate") {
                    push_step(&mut steps, VolumeStep::MakeDir(path.clone()));
                }
            }
            let r = VolumePlan { steps, outcome: Ok(path) };
            assert(r.view_of().steps =~= host_path_plan(*h, *f).steps);
            return r;
        }
        if let Some(src) = &volume.config_map {
            return plan_config_map(dir, namespace, src, f);
        }
        if let Some(src) = &volume.secret {
            return plan_secret(dir, volume.name.as_str(), namespace, src, f);
        }
        if let Some(src) = &volume.persistent_volume_claim {
            return plan_claim(namespace, src.claim_name.as_str(), f);
        }
        if let Some(src) = &volume.downward_api {
            return self.plan_downward(dir, pod, src, f);
        }
        if volume.csi.is_some() {
            return plan_empty(dir);
        }
        if let Some(e) = &volume.ephemeral {
            if e.volume_claim_template.is_some() {
                let claim = names::ephemeral_claim_name(
                    pod.metadata.name.as_str(),
                    volume.name.as_str(),
                );
                return plan_ephemeral(claim.as_str(), f);
            }
        }
        if let Some(src) = &volume.projected {
            return self.plan_projected(dir, pod, src, f);
        }
        plan_empty(dir)
    }
}

} // verus!
