//! Keeping the volumes of a running pod up to date: files follow the config maps,
//! secrets and fields that they stand for, and what nothing stands behind any more goes.

use crate::api;
use crate::api::{
    ConfigMap, DownwardAPIVolumeFile, KeyToPath, Pod, Secret, Volume, VolumeProjection,
};
use crate::names;
use crate::quantity::DecimalCores;
use crate::runtime::ContainerRuntime;
use crate::text;
use crate::volumes;
use crate::volumes::{ProjectionFacts, StepView, VolumeFacts, VolumeStep, WriteHow};
use vstd::prelude::*;
use vstd::string::*;
use vstd::utf8::*;

verus! {

/// The keys of a map of bytes.
pub open spec fn byte_keys(data: Seq<(String, Vec<u8>)>) -> Seq<Seq<char>> {
    data.map_values(|p: (String, Vec<u8>)| p.0@)
}

/// The keys of a map of texts.
pub open spec fn text_keys(data: Seq<(String, String)>) -> Seq<Seq<char>> {
    data.map_values(|p: (String, String)| p.0@)
}

/// The paths in the volume of those items whose key is in the map.
pub open spec fn item_names(data: Seq<(String, Vec<u8>)>, items: Seq<KeyToPath>) -> Seq<Seq<char>>
    decreases items.len(),
{
    if items.len() == 0 {
        Seq::empty()
    } else {
        let rest = item_names(data, items.drop_last());
        if api::lookup_bytes(data, items.last().key@) is Some {
            rest.push(items.last().path@)
        } else {
            rest
        }
    }
}

/// The names that a secret's files have in the volume.
pub open spec fn secret_names(
    data: Option<Vec<(String, Vec<u8>)>>,
    items: Option<Vec<KeyToPath>>,
) -> Seq<Seq<char>> {
    match data {
        None => Seq::empty(),
        Some(d) => match items {
            Some(it) => item_names(d@, it@),
            None => byte_keys(d@),
        },
    }
}

/// The files of those texts that `items` asks for.
pub open spec fn text_item_steps(
    dir: Seq<char>,
    data: Option<Vec<(String, String)>>,
    items: Seq<KeyToPath>,
    make_parent: bool,
    how: WriteHow,
) -> Seq<StepView>
    decreases items.len(),
{
    if items.len() == 0 {
        Seq::empty()
    } else {
        let rest = text_item_steps(dir, data, items.drop_last(), make_parent, how);
        match api::opt_lookup(data, items.last().key@) {
            Some(t) => rest.push(
                volumes::write_step(
                    dir,
                    items.last().path@,
                    encode_utf8(t),
                    None,
                    make_parent,
                    how,
                ),
            ),
            None => rest,
        }
    }
}

/// What brings a secret volume up to date.
pub open spec fn resync_secret(
    dir: Seq<char>,
    src: api::SecretVolumeSource,
    f: VolumeFacts,
) -> Seq<StepView> {
    match f.secret {
        Ok(s) => (match s.data {
            Some(d) => volumes::secret_steps(dir, d@, src.items, None, None, WriteHow::IfChanged),
            None => Seq::empty(),
        }).push(
            StepView::RemoveNamesExcept { dir, keep: secret_names(s.data, src.items) },
        ),
        Err(_) => if src.optional != Some(true) {
            seq![StepView::RemoveAll(dir)]
        } else {
            Seq::empty()
        },
    }
}

/// What brings a config map volume up to date.
pub open spec fn resync_config_map(
    dir: Seq<char>,
    src: api::ConfigMapVolumeSource,
    f: VolumeFacts,
) -> Seq<StepView> {
    match f.config_map {
        Ok(cm) if src.name is Some => volumes::config_steps(
            dir,
            cm,
            src.items,
            None,
            false,
            WriteHow::IfChanged,
        ),
        _ => Seq::empty(),
    }
}

/// What brings the files of a projected config map up to date.
pub open spec fn projected_config_steps(
    dir: Seq<char>,
    src: Option<api::ConfigMapProjection>,
    found: Option<ConfigMap>,
) -> Seq<StepView> {
    match (src, found) {
        (Some(s), Some(m)) if s.name is Some => match s.items {
            Some(it) => text_item_steps(dir, m.data, it@, true, WriteHow::IfChanged),
            None => match m.data {
                Some(d) => volumes::text_steps(dir, d@, None, false, WriteHow::IfChanged),
                None => Seq::empty(),
            },
        },
        _ => Seq::empty(),
    }
}

/// What brings the files of a projected secret up to date.
pub open spec fn projected_secret_steps(
    dir: Seq<char>,
    src: Option<api::SecretProjection>,
    found: Option<Secret>,
) -> Seq<StepView> {
    match (src, found) {
        (Some(s), Some(m)) if s.name is Some && m.data is Some => volumes::byte_steps(
            dir,
            m.data->0@,
            None,
            None,
            false,
            WriteHow::IfChanged,
        ),
        _ => Seq::empty(),
    }
}

/// What brings the files of projected fields up to date.
pub open spec fn projected_field_steps(
    dir: Seq<char>,
    pod: Pod,
    src: Option<api::DownwardAPIProjection>,
    readings: Seq<(String, i64)>,
) -> Seq<StepView> {
    match src {
        Some(d) if d.items is Some => volumes::lenient_item_steps(
            dir,
            pod,
            d.items->0@,
            None,
            readings,
            false,
            WriteHow::IfChanged,
        ),
        _ => Seq::empty(),
    }
}

/// What brings the files of one source of a projected volume up to date.
pub open spec fn source_steps(
    dir: Seq<char>,
    pod: Pod,
    src: VolumeProjection,
    p: ProjectionFacts,
    readings: Seq<(String, i64)>,
) -> Seq<StepView> {
    projected_config_steps(dir, src.config_map, p.config_map) + projected_secret_steps(
        dir,
        src.secret,
        p.secret,
    ) + projected_field_steps(dir, pod, src.downward_api, readings)
}

/// The paths of the items in a directory.
pub open spec fn item_paths(dir: Seq<char>, items: Seq<KeyToPath>) -> Seq<Seq<char>> {
    items.map_values(|i: KeyToPath| volumes::in_dir(dir, i.path@))
}

/// The paths of the items of fields in a directory.
pub open spec fn field_paths(dir: Seq<char>, items: Seq<DownwardAPIVolumeFile>) -> Seq<Seq<char>> {
    items.map_values(|i: DownwardAPIVolumeFile| volumes::in_dir(dir, i.path@))
}

/// The paths of the names in a directory.
pub open spec fn paths_in(dir: Seq<char>, names: Seq<Seq<char>>) -> Seq<Seq<char>> {
    names.map_values(|n: Seq<char>| volumes::in_dir(dir, n))
}

/// The files that a projected config map stands behind.
pub open spec fn projected_config_paths(
    dir: Seq<char>,
    src: Option<api::ConfigMapProjection>,
    found: Option<ConfigMap>,
) -> Seq<Seq<char>> {
    match (src, found) {
        (Some(s), Some(m)) if s.name is Some => match s.items {
            Some(it) => item_paths(dir, it@),
            None => match m.data {
                Some(d) => paths_in(dir, text_keys(d@)),
                None => Seq::empty(),
            },
        },
        _ => Seq::empty(),
    }
}

/// The files that a projected secret stands behind.
pub open spec fn projected_secret_paths(
    dir: Seq<char>,
    src: Option<api::SecretProjection>,
    found: Option<Secret>,
) -> Seq<Seq<char>> {
    match (src, found) {
        (Some(s), Some(m)) if s.name is Some && m.data is Some => paths_in(
            dir,
            byte_keys(m.data->0@),
        ),
        _ => Seq::empty(),
    }
}

/// The files that projected fields stand behind.
pub open spec fn projected_field_paths(
    dir: Seq<char>,
    src: Option<api::DownwardAPIProjection>,
) -> Seq<Seq<char>> {
    match src {
        Some(d) if d.items is Some => field_paths(dir, d.items->0@),
        _ => Seq::empty(),
    }
}

/// The files that one source of a projected volume stands behind.
pub open spec fn source_paths(dir: Seq<char>, src: VolumeProjection, p: ProjectionFacts) -> Seq<
    Seq<char>,
> {
    let token = match src.service_account_token {
        Some(t) => seq![volumes::in_dir(dir, t.path@)],
        None => Seq::empty(),
    };
    projected_config_paths(dir, src.config_map, p.config_map) + projected_secret_paths(
        dir,
        src.secret,
        p.secret,
    ) + token + projected_field_paths(dir, src.downward_api)
}

/// What brings the files of the first `n` sources of a projected volume up to date.
pub open spec fn sources_steps(
    dir: Seq<char>,
    pod: Pod,
    srcs: Seq<VolumeProjection>,
    ps: Seq<ProjectionFacts>,
    readings: Seq<(String, i64)>,
    n: nat,
) -> Seq<StepView>
    decreases n,
{
    if n == 0 {
        Seq::empty()
    } else {
        sources_steps(dir, pod, srcs, ps, readings, (n - 1) as nat) + source_steps(
            dir,
            pod,
            srcs[n - 1],
            ps[n - 1],
            readings,
        )
    }
}

/// The files that the first `n` sources of a projected volume stand behind.
pub open spec fn sources_paths(
    dir: Seq<char>,
    srcs: Seq<VolumeProjection>,
    ps: Seq<ProjectionFacts>,
    n: nat,
) -> Seq<Seq<char>>
    decreases n,
{
    if n == 0 {
        Seq::empty()
    } else {
        sources_paths(dir, srcs, ps, (n - 1) as nat) + source_paths(dir, srcs[n - 1], ps[n - 1])
    }
}

/// What brings a projected volume up to date.
pub open spec fn resync_projected(
    dir: Seq<char>,
    pod: Pod,
    src: api::ProjectedVolumeSource,
    f: VolumeFacts,
) -> Seq<StepView> {
    match src.sources {
        None => Seq::empty(),
        Some(s) => sources_steps(
            dir,
            pod,
            s@,
            f.projections@,
            f.readings@,
            s@.len(),
        ).push(
            StepView::RemoveFilesExcept {
                dir,
                keep: sources_paths(dir, s@, f.projections@, s@.len()),
            },
        ),
    }
}

/// What brings a volume up to date. A secret volume that names no secret stays as it is.
pub open spec fn resync_volume(base: Seq<char>, pod: Pod, v: Volume, f: VolumeFacts) -> Seq<
    StepView,
> {
    let dir = names::pod_path_text(base, pod.metadata.name@, v.name@);
    if names_no_secret(v) {
        Seq::empty()
    } else {
        let sec = match v.secret {
            Some(s) => resync_secret(dir, s, f),
            None => Seq::empty(),
        };
        let cm = match v.config_map {
            Some(s) => resync_config_map(dir, s, f),
            None => Seq::empty(),
        };
        let proj = match v.projected {
            Some(s) => resync_projected(dir, pod, s, f),
            None => Seq::empty(),
        };
        let fields = match v.downward_api {
            Some(d) if d.items is Some => volumes::lenient_item_steps(
                dir,
                pod,
                d.items->0@,
                None,
                f.readings@,
                false,
                WriteHow::IfChanged,
            ),
            _ => Seq::empty(),
        };
        sec + cm + proj + fields
    }
}

/// What brings the first `n` volumes up to date.
pub open spec fn resync_steps(
    base: Seq<char>,
    pod: Pod,
    vs: Seq<Volume>,
    fs: Seq<VolumeFacts>,
    n: nat,
) -> Seq<StepView>
    decreases n,
{
    if n == 0 {
        Seq::empty()
    } else {
        resync_steps(base, pod, vs, fs, (n - 1) as nat) + resync_volume(
            base,
            pod,
            vs[n - 1],
            fs[n - 1],
        )
    }
}

/// What refreshes a secret volume.
pub open spec fn refresh_secret(
    dir: Seq<char>,
    src: api::SecretVolumeSource,
    f: VolumeFacts,
) -> Seq<StepView> {
    let make = seq![StepView::MakeDir(dir)];
    if src.secret_name is None {
        make
    } else {
        match f.secret {
            Ok(s) => match s.data {
                None => make,
                Some(d) => match src.items {
                    Some(it) => make + volumes::secret_item_steps(
                        dir,
                        d@,
                        it@,
                        None,
                        None,
                        false,
                        WriteHow::SwapIfChanged,
                    ),
                    None => make + volumes::byte_steps(
                        dir,
                        d@,
                        None,
                        None,
                        false,
                        WriteHow::SwapIfChanged,
                    ).push(
                        StepView::RemoveNamesExcept {
                            dir,
                            keep: byte_keys(d@) + seq!["..data"@, "ca.crt"@],
                        },
                    ),
                },
            },
            Err(_) => if volumes::is_set(src.optional) {
                make.push(StepView::RemoveAll(dir))
            } else {
                make
            },
        }
    }
}

/// What refreshes a config map volume.
pub open spec fn refresh_config_map(
    dir: Seq<char>,
    src: api::ConfigMapVolumeSource,
    f: VolumeFacts,
) -> Seq<StepView> {
    let make = seq![StepView::MakeDir(dir)];
    if src.name is None {
        make
    } else {
        match f.config_map {
            Ok(cm) => match cm.data {
                None => make,
                Some(d) => match src.items {
                    Some(it) => make + text_item_steps(
                        dir,
                        cm.data,
                        it@,
                        false,
                        WriteHow::SwapIfChanged,
                    ),
                    None => make + volumes::text_steps(
                        dir,
                        d@,
                        None,
                        false,
                        WriteHow::SwapIfChanged,
                    ).push(
                        StepView::RemoveNamesExcept {
                            dir,
                            keep: text_keys(d@) + seq!["..data"@],
                        },
                    ),
                },
            },
            Err(_) => if volumes::is_set(src.optional) {
                make.push(StepView::RemoveAll(dir))
            } else {
                make
            },
        }
    }
}

/// The tokens of the first `n` sources, each to be written afresh when it is old.
pub open spec fn rotations(
    dir: Seq<char>,
    volume: int,
    srcs: Seq<VolumeProjection>,
    n: nat,
) -> Seq<StepView>
    decreases n,
{
    if n == 0 {
        Seq::empty()
    } else {
        let rest = rotations(dir, volume, srcs, (n - 1) as nat);
        match srcs[n - 1].service_account_token {
            Some(t) => rest.push(
                StepView::RotateToken {
                    path: volumes::in_dir(dir, t.path@),
                    expiration_seconds: match t.expiration_seconds {
                        Some(e) => e,
                        None => 3600,
                    },
                    volume,
                    source: n - 1,
                },
            ),
            None => rest,
        }
    }
}

/// What refreshes the volume `v` at `position`. The rest of a volume that names no secret or
/// no config map is left alone.
pub open spec fn refresh_volume(
    base: Seq<char>,
    pod: Pod,
    position: int,
    v: Volume,
    f: VolumeFacts,
) -> Seq<StepView> {
    let dir = names::pod_path_text(base, pod.metadata.name@, v.name@);
    let sec = match v.secret {
        Some(s) => refresh_secret(dir, s, f),
        None => Seq::empty(),
    };
    let cm = match v.config_map {
        Some(s) => refresh_config_map(dir, s, f),
        None => Seq::empty(),
    };
    let tokens = match v.projected {
        Some(p) if p.sources is Some => rotations(
            dir,
            position,
            p.sources->0@,
            p.sources->0@.len(),
        ),
        _ => Seq::empty(),
    };
    if v.secret is Some && v.secret->0.secret_name is None {
        sec
    } else if v.config_map is Some && v.config_map->0.name is None {
        sec + cm
    } else {
        sec + cm + tokens
    }
}

/// What refreshes the first `n` volumes.
pub open spec fn refresh_steps(
    base: Seq<char>,
    pod: Pod,
    vs: Seq<Volume>,
    fs: Seq<VolumeFacts>,
    n: nat,
) -> Seq<StepView>
    decreases n,
{
    if n == 0 {
        Seq::empty()
    } else {
        refresh_steps(base, pod, vs, fs, (n - 1) as nat) + refresh_volume(
            base,
            pod,
            n - 1,
            vs[n - 1],
            fs[n - 1],
        )
    }
}

/// The volumes of a pod.
pub open spec fn volumes_of(pod: Pod) -> Option<Seq<Volume>> {
    match pod.spec {
        Some(s) => match s.volumes {
            Some(v) => Some(v@),
            None => None,
        },
        None => None,
    }
}

/// There are facts for each of the pod's volumes, and what its fields refer to is plain.
pub open spec fn pod_facts_match(pod: Pod, fs: Seq<VolumeFacts>) -> bool {
    volumes_of(pod) matches Some(vs) ==> {
        &&& fs.len() == vs.len()
        &&& forall|i: int|
            0 <= i < vs.len() ==> volume_fields_match(pod, #[trigger] vs[i], fs[i])
    }
}

/// There are facts for each source of a volume, and what its fields refer to is plain; of a
/// volume that stays as it is, nothing is asked.
pub open spec fn volume_fields_match(pod: Pod, v: Volume, f: VolumeFacts) -> bool {
    names_no_secret(v) || fields_are_plain(pod, v, f)
}

/// The volume is made from a secret, and does not say which.
pub open spec fn names_no_secret(v: Volume) -> bool {
    v.secret is Some && v.secret->0.secret_name is None
}

/// There are facts for each source of a volume, and what its fields refer to is plain.
pub open spec fn fields_are_plain(pod: Pod, v: Volume, f: VolumeFacts) -> bool {
    &&& v.downward_api matches Some(d) ==> d.items matches Some(it) ==> volumes::items_are_plain(
        pod,
        it@,
        f.readings@,
    )
    &&& v.projected matches Some(p) ==> p.sources matches Some(s) ==> {
        &&& f.projections@.len() == s@.len()
        &&& volumes::sources_are_plain(pod, s@, f.readings@)
    }
}

/// The names of a map's keys.
fn byte_key_list(data: &Vec<(String, Vec<u8>)>) -> (r: Vec<String>)
    ensures
        text::texts(r@) == byte_keys(data@),
{
    let mut r: Vec<String> = Vec::new();
    let mut i: usize = 0;
    while i < data.len()
        invariant
            i <= data@.len(),
            r@.len() == i,
            forall|j: int| 0 <= j < i ==> (#[trigger] r@[j])@ == data@[j].0@,
        decreases data@.len() - i,
    {
        r.push(data[i].0.clone());
        i += 1;
    }
    assert(text::texts(r@) =~= byte_keys(data@));
    r
}

/// The names of a map's keys.
fn text_key_list(data: &Vec<(String, String)>) -> (r: Vec<String>)
    ensures
        text::texts(r@) == text_keys(data@),
{
    let mut r: Vec<String> = Vec::new();
    let mut i: usize = 0;
    while i < data.len()
        invariant
            i <= data@.len(),
            r@.len() == i,
            forall|j: int| 0 <= j < i ==> (#[trigger] r@[j])@ == data@[j].0@,
        decreases data@.len() - i,
    {
        r.push(data[i].0.clone());
        i += 1;
    }
    assert(text::texts(r@) =~= text_keys(data@));
    r
}

/// The names that a secret's files have in the volume.
fn secret_name_list(
    data: &Option<Vec<(String, Vec<u8>)>>,
    items: &Option<Vec<KeyToPath>>,
) -> (r: Vec<String>)
    ensures
        text::texts(r@) == secret_names(*data, *items),
{
    let d = match data {
        None => {
            let r: Vec<String> = Vec::new();
            assert(text::texts(r@) =~= Seq::<Seq<char>>::empty());
            return r;
        },
        Some(d) => d,
    };
    let it = match items {
        None => {
            return byte_key_list(d);
        },
        Some(it) => it,
    };
    let mut r: Vec<String> = Vec::new();
    let mut i: usize = 0;
    assert(it@.take(0) == Seq::<KeyToPath>::empty());
    assert(text::texts(r@) =~= item_names(d@, it@.take(0)));
    while i < it.len()
        invariant
            i <= it@.len(),
            text::texts(r@) == item_names(d@, it@.take(i as int)),
        decreases it@.len() - i,
    {
        assert(it@.take(i as int + 1).drop_last() == it@.take(i as int));
        assert(it@.take(i as int + 1).last() == it@[i as int]);
        if api::get_bytes(d, it[i].key.as_str()).is_some() {
            text::push_text(&mut r, it[i].path.clone());
        }
        i += 1;
    }
    assert(it@.take(it@.len() as int) == it@);
    r
}

fn push_text_items(
    steps: &mut Vec<VolumeStep>,
    dir: &str,
    data: &Option<Vec<(String, String)>>,
    it: &Vec<KeyToPath>,
    make_parent: bool,
    how: WriteHow,
)
    ensures
        volumes::steps_view(final(steps)@) == volumes::steps_view(old(steps)@) + text_item_steps(
            dir@,
            *data,
            it@,
            make_parent,
            how,
        ),
{
    let ghost start = volumes::steps_view(steps@);
    let mut i: usize = 0;
    assert(it@.take(0) == Seq::<KeyToPath>::empty());
    assert(start + text_item_steps(dir@, *data, it@.take(0), make_parent, how) =~= start);
    while i < it.len()
        invariant
            i <= it@.len(),
            volumes::steps_view(steps@) == start + text_item_steps(
                dir@,
                *data,
                it@.take(i as int),
                make_parent,
                how,
            ),
        decreases it@.len() - i,
    {
        assert(it@.take(i as int + 1).drop_last() == it@.take(i as int));
        assert(it@.take(i as int + 1).last() == it@[i as int]);
        if let Some(t) = api::opt_get(data, it[i].key.as_str()) {
            volumes::push_write(
                steps,
                dir,
                it[i].path.as_str(),
                t.as_bytes_vec(),
                None,
                make_parent,
                how,
            );
        }
        assert(volumes::steps_view(steps@) =~= start + text_item_steps(
            dir@,
            *data,
            it@.take(i as int + 1),
            make_parent,
            how,
        ));
        i += 1;
    }
    assert(it@.take(it@.len() as int) == it@);
}

/// Adds the paths of the names in a directory.
fn push_paths(keep: &mut Vec<String>, dir: &str, names: &Vec<String>)
    ensures
        text::texts(final(keep)@) == text::texts(old(keep)@) + paths_in(dir@, text::texts(names@)),
{
    let ghost start = text::texts(keep@);
    let mut i: usize = 0;
    assert(start =~= start + paths_in(dir@, text::texts(names@.take(0))));
    while i < names.len()
        invariant
            i <= names@.len(),
            text::texts(keep@) == start + paths_in(dir@, text::texts(names@.take(i as int))),
        decreases names@.len() - i,
    {
        let p = text::cat3(dir, "/", names[i].as_str());
        assert(paths_in(dir@, text::texts(names@.take(i as int + 1))) =~= paths_in(
            dir@,
            text::texts(names@.take(i as int)),
        ).push(p@));
        text::push_text(keep, p);
        assert(text::texts(keep@) =~= start + paths_in(
            dir@,
            text::texts(names@.take(i as int + 1)),
        ));
        i += 1;
    }
    assert(names@.take(names@.len() as int) == names@);
}

/// The paths of the items in the volume.
fn item_path_list(items: &Vec<KeyToPath>) -> (r: Vec<String>)
    ensures
        r@.len() == items@.len(),
        forall|j: int| 0 <= j < r@.len() ==> (#[trigger] r@[j])@ == items@[j].path@,
{
    let mut r: Vec<String> = Vec::new();
    let mut i: usize = 0;
    while i < items.len()
        invariant
            i <= items@.len(),
            r@.len() == i,
            forall|j: int| 0 <= j < i ==> (#[trigger] r@[j])@ == items@[j].path@,
        decreases items@.len() - i,
    {
        r.push(items[i].path.clone());
        i += 1;
    }
    r
}

/// The paths of the items of fields in the volume.
fn field_path_list(items: &Vec<DownwardAPIVolumeFile>) -> (r: Vec<String>)
    ensures
        r@.len() == items@.len(),
        forall|j: int| 0 <= j < r@.len() ==> (#[trigger] r@[j])@ == items@[j].path@,
{
    let mut r: Vec<String> = Vec::new();
    let mut i: usize = 0;
    while i < items.len()
        invariant
            i <= items@.len(),
            r@.len() == i,
            forall|j: int| 0 <= j < i ==> (#[trigger] r@[j])@ == items@[j].path@,
        decreases items@.len() - i,
    {
        r.push(items[i].path.clone());
        i += 1;
    }
    r
}

impl ContainerRuntime {
    fn push_projected_config(
        steps: &mut Vec<VolumeStep>,
        keep: &mut Vec<String>,
        dir: &str,
        src: &Option<api::ConfigMapProjection>,
        found: &Option<ConfigMap>,
    )
        ensures
            volumes::steps_view(final(steps)@) == volumes::steps_view(old(steps)@)
                + projected_config_steps(dir@, *src, *found),
            text::texts(final(keep)@) == text::texts(old(keep)@) + projected_config_paths(
                dir@,
                *src,
                *found,
            ),
    {
        if let Some(s) = src {
            if let Some(m) = found {
                if s.name.is_some() {
                    match &s.items {
                        Some(it) => {
                            push_text_items(steps, dir, &m.data, it, true, WriteHow::IfChanged);
                            let l = item_path_list(it);
                            push_paths(keep, dir, &l);
                            assert(paths_in(dir@, text::texts(l@)) =~= item_paths(dir@, it@));
                            return;
                        },
                        None => {
                            if let Some(d) = &m.data {
                                volumes::push_text_steps(
                                    steps,
                                    dir,
                                    d,
                                    None,
                                    false,
                                    WriteHow::IfChanged,
                                );
                                push_paths(keep, dir, &text_key_list(d));
                                return;
                            }
                        },
                    }
                }
            }
        }
        assert(volumes::steps_view(steps@) =~= volumes::steps_view(old(steps)@)
            + projected_config_steps(dir@, *src, *found));
        assert(text::texts(keep@) =~= text::texts(old(keep)@) + projected_config_paths(
            dir@,
            *src,
            *found,
        ));
    }

    fn push_projected_secret(
        steps: &mut Vec<VolumeStep>,
        keep: &mut Vec<String>,
        dir: &str,
        src: &Option<api::SecretProjection>,
        found: &Option<Secret>,
    )
        ensures
            volumes::steps_view(final(steps)@) == volumes::steps_view(old(steps)@)
                + projected_secret_steps(dir@, *src, *found),
            text::texts(final(keep)@) == text::texts(old(keep)@) + projected_secret_paths(
                dir@,
                *src,
                *found,
            ),
    {
        if let Some(s) = src {
            if let Some(m) = found {
                if s.name.is_some() {
                    if let Some(d) = &m.data {
                        volumes::push_byte_steps(
                            steps,
                            dir,
                            d,
                            &None,
                            None,
                            false,
                            WriteHow::IfChanged,
                        );
                        push_paths(keep, dir, &byte_key_list(d));
                        return;
                    }
                }
            }
        }
        assert(volumes::steps_view(steps@) =~= volumes::steps_view(old(steps)@)
            + projected_secret_steps(dir@, *src, *found));
        assert(text::texts(keep@) =~= text::texts(old(keep)@) + projected_secret_paths(
            dir@,
            *src,
            *found,
        ));
    }

    fn push_projected_fields(
        &self,
        steps: &mut Vec<VolumeStep>,
        keep: &mut Vec<String>,
        dir: &str,
        pod: &Pod,
        src: &Option<api::DownwardAPIProjection>,
        readings: &DecimalCores,
    )
        requires
            src matches Some(d) ==> d.items matches Some(it) ==> volumes::items_are_plain(
                *pod,
                it@,
                readings@,
            ),
        ensures
            volumes::steps_view(final(steps)@) == volumes::steps_view(old(steps)@)
                + projected_field_steps(dir@, *pod, *src, readings@),
            text::texts(final(keep)@) == text::texts(old(keep)@) + projected_field_paths(
                dir@,
                *src,
            ),
    {
        if let Some(d) = src {
            if let Some(it) = &d.items {
                volumes::push_lenient_items(
                    self,
                    steps,
                    dir,
                    pod,
                    it,
                    None,
                    readings,
                    false,
                    WriteHow::IfChanged,
                );
                let l = field_path_list(it);
                push_paths(keep, dir, &l);
                assert(paths_in(dir@, text::texts(l@)) =~= field_paths(dir@, it@));
                return;
            }
        }
        assert(volumes::steps_view(steps@) =~= volumes::steps_view(old(steps)@)
            + projected_field_steps(dir@, *pod, *src, readings@));
        assert(text::texts(keep@) =~= text::texts(old(keep)@) + projected_field_paths(dir@, *src));
    }

    fn push_source(
        &self,
        steps: &mut Vec<VolumeStep>,
        keep: &mut Vec<String>,
        dir: &str,
        pod: &Pod,
        src: &VolumeProjection,
        p: &ProjectionFacts,
        readings: &DecimalCores,
    )
        requires
            volumes::source_is_plain(*pod, *src, readings@),
        ensures
            volumes::steps_view(final(steps)@) == volumes::steps_view(old(steps)@) + source_steps(
                dir@,
                *pod,
                *src,
                *p,
                readings@,
            ),
            text::texts(final(keep)@) == text::texts(old(keep)@) + source_paths(dir@, *src, *p),
    {
        let ghost start = volumes::steps_view(steps@);
        let ghost kept = text::texts(keep@);
        Self::push_projected_config(steps, keep, dir, &src.config_map, &p.config_map);
        Self::push_projected_secret(steps, keep, dir, &src.secret, &p.secret);
        if let Some(t) = &src.service_account_token {
            let path = text::cat3(dir, "/", t.path.as_str());
            text::push_text(keep, path);
        }
        self.push_projected_fields(steps, keep, dir, pod, &src.downward_api, readings);
        assert(volumes::steps_view(steps@) =~= start + source_steps(
            dir@,
            *pod,
            *src,
            *p,
            readings@,
        ));
        assert(text::texts(keep@) =~= kept + source_paths(dir@, *src, *p));
    }

    fn push_resync_secret(
        steps: &mut Vec<VolumeStep>,
        dir: &str,
        src: &api::SecretVolumeSource,
        f: &VolumeFacts,
    )
        ensures
            volumes::steps_view(final(steps)@) == volumes::steps_view(old(steps)@) + resync_secret(
                dir@,
                *src,
                *f,
            ),
    {
        let ghost start = volumes::steps_view(steps@);
        match &f.secret {
            Ok(s) => {
                if let Some(d) = &s.data {
                    volumes::push_secret_steps(
                        steps,
                        dir,
                        d,
                        &src.items,
                        &None,
                        None,
                        WriteHow::IfChanged,
                    );
                }
                let keep = secret_name_list(&s.data, &src.items);
                volumes::push_step(
                    steps,
                    VolumeStep::RemoveNamesExcept { dir: String::from_str(dir), keep },
                );
            },
            Err(_) => {
                if !volumes::set(src.optional) {
                    volumes::push_step(steps, VolumeStep::RemoveAll(String::from_str(dir)));
                }
            },
        }
        assert(volumes::steps_view(steps@) =~= start + resync_secret(dir@, *src, *f));
    }

    fn push_resync_projected(
        &self,
        steps: &mut Vec<VolumeStep>,
        dir: &str,
        pod: &Pod,
        src: &api::ProjectedVolumeSource,
        f: &VolumeFacts,
    )
        requires
            src.sources matches Some(s) ==> {
                &&& f.projections@.len() == s@.len()
                &&& volumes::sources_are_plain(*pod, s@, f.readings@)
            },
        ensures
            volumes::steps_view(final(steps)@) == volumes::steps_view(old(steps)@)
                + resync_projected(dir@, *pod, *src, *f),
    {
        let ghost start = volumes::steps_view(steps@);
        if let Some(s) = &src.sources {
            let mut keep: Vec<String> = Vec::new();
            let mut i: usize = 0;
            assert(text::texts(keep@) =~= sources_paths(dir@, s@, f.projections@, 0));
            assert(start =~= start + sources_steps(
                dir@,
                *pod,
                s@,
                f.projections@,
                f.readings@,
                0,
            ));
            while i < s.len()
                invariant
                    i <= s@.len(),
                    f.projections@.len() == s@.len(),
                    volumes::sources_are_plain(*pod, s@, f.readings@),
                    text::texts(keep@) == sources_paths(dir@, s@, f.projections@, i as nat),
                    volumes::steps_view(steps@) == start + sources_steps(
                        dir@,
                        *pod,
                        s@,
                        f.projections@,
                        f.readings@,
                        i as nat,
                    ),
                decreases s@.len() - i,
            {
                assert(volumes::source_is_plain(*pod, s@[i as int], f.readings@));
                self.push_source(
                    steps,
                    &mut keep,
                    dir,
                    pod,
                    &s[i],
                    &f.projections[i],
                    &f.readings,
                );
                assert(volumes::steps_view(steps@) =~= start + sources_steps(
                    dir@,
                    *pod,
                    s@,
                    f.projections@,
                    f.readings@,
                    (i + 1) as nat,
                ));
                i += 1;
            }
            volumes::push_step(
                steps,
                VolumeStep::RemoveFilesExcept { dir: String::from_str(dir), keep },
            );
        }
        assert(volumes::steps_view(steps@) =~= start + resync_projected(dir@, *pod, *src, *f));
    }

    fn push_resync_volume(
        &self,
        steps: &mut Vec<VolumeStep>,
        pod: &Pod,
        v: &Volume,
        f: &VolumeFacts,
    )
        requires
            volume_fields_match(*pod, *v, *f),
        ensures
            volumes::steps_view(final(steps)@) == volumes::steps_view(old(steps)@) + resync_volume(
                self.volumes_base_path@,
                *pod,
                *v,
                *f,
            ),
    {
        let ghost start = volumes::steps_view(steps@);
        let dir = names::pod_path(
            self.volumes_base_path.as_str(),
            pod.metadata.name.as_str(),
            v.name.as_str(),
        );
        let ghost all = resync_volume(self.volumes_base_path@, *pod, *v, *f);
        let ghost mut done: Seq<StepView> = Seq::empty();
        assert(start =~= start + done);
        if let Some(s) = &v.secret {
            if s.secret_name.is_none() {
                assert(all == Seq::<StepView>::empty());
                return;
            }
            Self::push_resync_secret(steps, dir.as_str(), s, f);
            proof {
                done = resync_secret(dir@, *s, *f);
            }
        }
        assert(!names_no_secret(*v) && fields_are_plain(*pod, *v, *f));
        let ghost sec = done;
        assert(volumes::steps_view(steps@) == start + sec);
        proof {
            done = Seq::empty();
        }
        if let Some(s) = &v.config_map {
            if s.name.is_some() {
                if let Ok(cm) = &f.config_map {
                    volumes::push_config_steps(
                        steps,
                        dir.as_str(),
                        cm,
                        &s.items,
                        None,
                        false,
                        WriteHow::IfChanged,
                    );
                }
            }
            proof {
                done = resync_config_map(dir@, *s, *f);
            }
        }
        let ghost cm = done;
        assert(volumes::steps_view(steps@) =~= start + (sec + cm));
        proof {
            done = Seq::empty();
        }
        if let Some(s) = &v.projected {
            self.push_resync_projected(steps, dir.as_str(), pod, s, f);
            proof {
                done = resync_projected(dir@, *pod, *s, *f);
            }
        }
        let ghost proj = done;
        assert(volumes::steps_view(steps@) =~= start + (sec + cm + proj));
        proof {
            done = Seq::empty();
        }
        if let Some(d) = &v.downward_api {
            if let Some(it) = &d.items {
                volumes::push_lenient_items(
                    self,
                    steps,
                    dir.as_str(),
                    pod,
                    it,
                    None,
                    &f.readings,
                    false,
                    WriteHow::IfChanged,
                );
                proof {
                    done = volumes::lenient_item_steps(
                        dir@,
                        *pod,
                        it@,
                        None,
                        f.readings@,
                        false,
                        WriteHow::IfChanged,
                    );
                }
            }
        }
        assert(volumes::steps_view(steps@) =~= start + (sec + cm + proj + done));
        assert(all == sec + cm + proj + done);
    }

    /// The steps that bring a pod's volumes up to date.
    pub fn resync_volumes(&self, pod: &Pod, facts: &Vec<VolumeFacts>) -> (r: Vec<VolumeStep>)
        requires
            pod.spec is Some,
            pod_facts_match(*pod, facts@),
        ensures
            volumes::steps_view(r@) == (match volumes_of(*pod) {
                Some(vs) => resync_steps(
                    self.volumes_base_path@,
                    *pod,
                    vs,
                    facts@,
                    vs.len(),
                ),
                None => Seq::empty(),
            }),
    {
        let mut steps = volumes::no_steps();
        if let Some(spec) = &pod.spec {
            if let Some(vs) = &spec.volumes {
                let mut i: usize = 0;
                while i < vs.len()
                    invariant
                        i <= vs@.len(),
                        facts@.len() == vs@.len(),
                        forall|j: int|
                            0 <= j < vs@.len() ==> volume_fields_match(
                                *pod,
                                #[trigger] vs@[j],
                                facts@[j],
                            ),
                        volumes::steps_view(steps@) == resync_steps(
                            self.volumes_base_path@,
                            *pod,
                            vs@,
                            facts@,
                            i as nat,
                        ),
                    decreases vs@.len() - i,
                {
                    self.push_resync_volume(&mut steps, pod, &vs[i], &facts[i]);
                    i += 1;
                }
            }
        }
        steps
    }

    fn push_refresh_secret(
        steps: &mut Vec<VolumeStep>,
        dir: &str,
        src: &api::SecretVolumeSource,
        f: &VolumeFacts,
    )
        ensures
            volumes::steps_view(final(steps)@) == volumes::steps_view(old(steps)@)
                + refresh_secret(dir@, *src, *f),
    {
        let ghost start = volumes::steps_view(steps@);
        volumes::push_step(steps, VolumeStep::MakeDir(String::from_str(dir)));
        if src.secret_name.is_some() {
            match &f.secret {
                Ok(s) => {
                    if let Some(d) = &s.data {
                        match &src.items {
                            Some(it) => {
                                volumes::push_secret_items(
                                    steps,
                                    dir,
                                    d,
                                    it,
                                    &None,
                                    None,
                                    false,
                                    WriteHow::SwapIfChanged,
                                );
                            },
                            None => {
                                volumes::push_byte_steps(
                                    steps,
                                    dir,
                                    d,
                                    &None,
                                    None,
                                    false,
                                    WriteHow::SwapIfChanged,
                                );
                                let mut keep = byte_key_list(d);
                                text::push_text(&mut keep, "..data".to_string());
                                text::push_text(&mut keep, "ca.crt".to_string());
                                assert(text::texts(keep@) =~= byte_keys(d@) + seq![
                                    "..data"@,
                                    "ca.crt"@,
                                ]);
                                volumes::push_step(
                                    steps,
                                    VolumeStep::RemoveNamesExcept {
                                        dir: String::from_str(dir),
                                        keep,
                                    },
                                );
                            },
                        }
                    }
                },
                Err(_) => {
                    if volumes::set(src.optional) {
                        volumes::push_step(steps, VolumeStep::RemoveAll(String::from_str(dir)));
                    }
                },
            }
        }
        assert(volumes::steps_view(steps@) =~= start + refresh_secret(dir@, *src, *f));
    }

    fn push_refresh_config_map(
        steps: &mut Vec<VolumeStep>,
        dir: &str,
        src: &api::ConfigMapVolumeSource,
        f: &VolumeFacts,
    )
        ensures
            volumes::steps_view(final(steps)@) == volumes::steps_view(old(steps)@)
                + refresh_config_map(dir@, *src, *f),
    {
        let ghost start = volumes::steps_view(steps@);
        volumes::push_step(steps, VolumeStep::MakeDir(String::from_str(dir)));
        if src.name.is_some() {
            match &f.config_map {
                Ok(cm) => {
                    if let Some(d) = &cm.data {
                        match &src.items {
                            Some(it) => {
                                push_text_items(
                                    steps,
                                    dir,
                                    &cm.data,
                                    it,
                                    false,
                                    WriteHow::SwapIfChanged,
                                );
                            },
                            None => {
                                volumes::push_text_steps(
                                    steps,
                                    dir,
                                    d,
                                    None,
                                    false,
                                    WriteHow::SwapIfChanged,
                                );
                                let mut keep = text_key_list(d);
                                text::push_text(&mut keep, "..data".to_string());
                                assert(text::texts(keep@) =~= text_keys(d@) + seq!["..data"@]);
                                volumes::push_step(
                                    steps,
                                    VolumeStep::RemoveNamesExcept {
                                        dir: String::from_str(dir),
                                        keep,
                                    },
                                );
                            },
                        }
                    }
                },
                Err(_) => {
                    if volumes::set(src.optional) {
                        volumes::push_step(steps, VolumeStep::RemoveAll(String::from_str(dir)));
                    }
                },
            }
        }
        assert(volumes::steps_view(steps@) =~= start + refresh_config_map(dir@, *src, *f));
    }

    fn push_rotations(
        steps: &mut Vec<VolumeStep>,
        dir: &str,
        volume: usize,
        srcs: &Vec<VolumeProjection>,
    )
        ensures
            volumes::steps_view(final(steps)@) == volumes::steps_view(old(steps)@) + rotations(
                dir@,
                volume as int,
                srcs@,
                srcs@.len(),
            ),
    {
        let ghost start = volumes::steps_view(steps@);
        let mut i: usize = 0;
        assert(start =~= start + rotations(dir@, volume as int, srcs@, 0));
        while i < srcs.len()
            invariant
                i <= srcs@.len(),
                volumes::steps_view(steps@) == start + rotations(
                    dir@,
                    volume as int,
                    srcs@,
                    i as nat,
                ),
            decreases srcs@.len() - i,
        {
            if let Some(t) = &srcs[i].service_account_token {
                let path = text::cat3(dir, "/", t.path.as_str());
                let expiration_seconds: i64 = match t.expiration_seconds {
                    Some(e) => e,
                    None => 3600,
                };
                volumes::push_step(
                    steps,
                    VolumeStep::RotateToken { path, expiration_seconds, volume, source: i },
                );
            }
            assert(volumes::steps_view(steps@) =~= start + rotations(
                dir@,
                volume as int,
                srcs@,
                (i + 1) as nat,
            ));
            i += 1;
        }
    }

    fn push_refresh_volume(
        &self,
        steps: &mut Vec<VolumeStep>,
        pod: &Pod,
        position: usize,
        v: &Volume,
        f: &VolumeFacts,
    )
        ensures
            volumes::steps_view(final(steps)@) == volumes::steps_view(old(steps)@)
                + refresh_volume(self.volumes_base_path@, *pod, position as int, *v, *f),
    {
        let ghost start = volumes::steps_view(steps@);
        let ghost all = refresh_volume(
            self.volumes_base_path@,
            *pod,
            position as int,
            *v,
            *f,
        );
        let dir = names::pod_path(
            self.volumes_base_path.as_str(),
            pod.metadata.name.as_str(),
            v.name.as_str(),
        );
        if let Some(s) = &v.secret {
            Self::push_refresh_secret(steps, dir.as_str(), s, f);
            if s.secret_name.is_none() {
                assert(volumes::steps_view(steps@) =~= start + all);
                return;
            }
        }
        if let Some(s) = &v.config_map {
            Self::push_refresh_config_map(steps, dir.as_str(), s, f);
            if s.name.is_none() {
                assert(volumes::steps_view(steps@) =~= start + all);
                return;
            }
        }
        if let Some(p) = &v.projected {
            if let Some(s) = &p.sources {
                Self::push_rotations(steps, dir.as_str(), position, s);
            }
        }
        assert(volumes::steps_view(steps@) =~= start + all);
    }

    /// The steps that refresh a pod's volumes, where there is storage to refresh from.
    pub fn refresh_volumes(&self, pod: &Pod, storage: bool, facts: &Vec<VolumeFacts>) -> (r: Vec<
        VolumeStep,
    >)
        requires
            volumes_of(*pod) matches Some(vs) ==> facts@.len() == vs.len(),
        ensures
            volumes::steps_view(r@) == (match volumes_of(*pod) {
                Some(vs) if storage => refresh_steps(
                    self.volumes_base_path@,
                    *pod,
                    vs,
                    facts@,
                    vs.len(),
                ),
                _ => Seq::empty(),
            }),
    {
        let mut steps = volumes::no_steps();
        if !storage {
            return steps;
        }
        if let Some(spec) = &pod.spec {
            if let Some(vs) = &spec.volumes {
                let mut i: usize = 0;
                while i < vs.len()
                    invariant
                        i <= vs@.len(),
                        facts@.len() == vs@.len(),
                        volumes::steps_view(steps@) == refresh_steps(
                            self.volumes_base_path@,
                            *pod,
                            vs@,
                            facts@,
                            i as nat,
                        ),
                    decreases vs@.len() - i,
                {
                    self.push_refresh_volume(&mut steps, pod, i, &vs[i], &facts[i]);
                    i += 1;
                }
            }
        }
        steps
    }
}

} // verus!
