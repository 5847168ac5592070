//! Files and directories of volumes: when a file is written, which entries of a
//! directory go, and the modes that a volume's group gets.

use crate::api;
use crate::api::{DownwardAPIVolumeFile, Pod, Volume};
use crate::downward;
use crate::expand;
use crate::mounts;
use crate::names;
use crate::number;
use crate::ports;
use crate::quantity::DecimalCores;
use crate::resync;
use crate::runtime::ContainerRuntime;
use crate::text;
use crate::volumes;
use crate::volumes::{StepView, VolumeFacts, VolumeStep};
use vstd::prelude::*;
use vstd::string::*;

verus! {

/// The bytes of a file, where it can be read.
pub open spec fn opt_bytes(existing: Option<Vec<u8>>) -> Option<Seq<u8>> {
    match existing {
        Some(e) => Some(e@),
        None => None,
    }
}

/// Two lists hold the same bytes.
fn same_bytes(a: &Vec<u8>, b: &Vec<u8>) -> (r: bool)
    ensures
        r == (a@ == b@),
{
    if a.len() != b.len() {
        return false;
    }
    let mut i: usize = 0;
    while i < a.len()
        invariant
            i <= a@.len(),
            a@.len() == b@.len(),
            forall|j: int| 0 <= j < i ==> a@[j] == b@[j],
        decreases a@.len() - i,
    {
        if a[i] != b[i] {
            assert(a@[i as int] != b@[i as int]);
            return false;
        }
        i += 1;
    }
    assert(a@ =~= b@);
    true
}

/// Whether a file has to be written to hold the bytes. One that cannot be read has.
pub fn content_differs(existing: &Option<Vec<u8>>, contents: &Vec<u8>) -> (r: bool)
    ensures
        r == (opt_bytes(*existing) != Some(contents@)),
{
    match existing {
        Some(e) => !same_bytes(e, contents),
        None => true,
    }
}

/// The file beside `path` that process `pid` writes first.
pub open spec fn temporary_path(path: Seq<char>, pid: u32) -> Seq<char> {
    path + ".tmp-"@ + number::decimal(pid as int)
}

/// Where the bytes are written for a file at `path` that holds `existing`: nowhere if these
/// are the very bytes.
pub open spec fn write_target(
    path: Seq<char>,
    existing: Option<Seq<u8>>,
    contents: Seq<u8>,
    pid: u32,
) -> Option<Seq<char>> {
    if existing == Some(contents) {
        None
    } else {
        Some(temporary_path(path, pid))
    }
}

/// Where to write the bytes, to be renamed to `path` afterwards so that no reader sees a
/// part of them; nowhere if the file holds the very bytes.
pub fn write_file_if_changed(
    path: &str,
    existing: &Option<Vec<u8>>,
    contents: &Vec<u8>,
    pid: u32,
) -> (r: Option<String>)
    ensures
        text::opt_text(r) == write_target(path@, opt_bytes(*existing), contents@, pid),
{
    if content_differs(existing, contents) {
        let n = number::show_u64(pid as u64);
        Some(text::cat3(path, ".tmp-", n.as_str()))
    } else {
        None
    }
}

/// What process `pid` writes for `path` is written beside it, never over it.
pub proof fn law_the_temporary_file_is_another(path: Seq<char>, pid: u32)
    ensures
        temporary_path(path, pid) != path,
        text::begins(temporary_path(path, pid), path),
{
    reveal_strlit(".tmp-");
    let t = temporary_path(path, pid);
    assert(t.len() > path.len());
    assert(t.take(path.len() as int) =~= path);
}

/// The mode with the group's bits set as the owner's are.
pub open spec fn group_mode(mode: u32) -> u32 {
    (mode & !0o070u32) | (((mode >> 6u32) & 0o7u32) << 3u32)
}

/// The mode of an entry of a volume that belongs to a group, where it has to change.
pub fn fsgroup_entry_mode(mode: u32) -> (r: Option<u32>)
    ensures
        r == (if group_mode(mode) == mode {
            None
        } else {
            Some(group_mode(mode))
        }),
{
    let owner_bits: u32 = (mode >> 6u32) & 0o7;
    let new_mode: u32 = (mode & !0o070u32) | (owner_bits << 3u32);
    if new_mode != mode {
        Some(new_mode)
    } else {
        None
    }
}

/// The mode of a volume's own directory: what is made in it belongs to the group too.
pub fn fsgroup_root_mode(mode: u32) -> (r: u32)
    ensures
        r == group_mode(mode) | 0o2000,
{
    let owner_bits: u32 = (mode >> 6u32) & 0o7;
    (mode & !0o070u32) | (owner_bits << 3u32) | 0o2000
}

/// Whether a volume still belongs to another group than the one asked for.
pub fn fsgroup_missed(gid: u32, fs_group: i64) -> (r: bool)
    ensures
        r == (gid != fs_group as u32),
{
    gid != fs_group as u32
}

/// The group gets what the owner has. What the owner and the others have stays, and so
/// do the bits above; to do it twice is to do it once.
pub proof fn law_group_follows_owner(mode: u32)
    ensures
        (group_mode(mode) >> 3u32) & 0o7 == (mode >> 6u32) & 0o7,
        group_mode(mode) & !0o070u32 == mode & !0o070u32,
        group_mode(group_mode(mode)) == group_mode(mode),
        group_mode(group_mode(mode) | 0o2000) == group_mode(mode) | 0o2000,
{
    let g = group_mode(mode);
    let h = g | 0o2000;
    assert(((((mode & !0o070u32) | (((mode >> 6u32) & 0o7u32) << 3u32)) >> 3u32) & 0o7) == (mode
        >> 6u32) & 0o7) by (bit_vector);
    assert((((mode & !0o070u32) | (((mode >> 6u32) & 0o7u32) << 3u32)) & !0o070u32) == mode
        & !0o070u32) by (bit_vector);
    assert((((g & !0o070u32) | (((g >> 6u32) & 0o7u32) << 3u32))) == g) by (bit_vector)
        requires
            g == (mode & !0o070u32) | (((mode >> 6u32) & 0o7u32) << 3u32),
    ;
    assert((((h & !0o070u32) | (((h >> 6u32) & 0o7u32) << 3u32))) == h) by (bit_vector)
        requires
            g == (mode & !0o070u32) | (((mode >> 6u32) & 0o7u32) << 3u32),
            h == g | 0o2000,
    ;
}

/// One entry of a directory.
#[derive(Clone, Debug, Default)]
pub struct DirEntry {
    /// Its name, where it is text.
    pub name: Option<String>,
    /// Its path.
    pub path: String,
    /// It is a file, not a directory.
    pub is_file: bool,
}

/// A step removes the entry of its directory.
pub open spec fn removes(step: StepView, e: DirEntry) -> bool {
    match step {
        StepView::RemoveAll(_) => true,
        StepView::RemoveNamesExcept { dir: _, keep } => e.name is Some && !keep.contains(
            e.name->0@,
        ),
        StepView::RemoveFilesExcept { dir: _, keep } => e.is_file && !keep.contains(e.path@),
        _ => false,
    }
}

/// Whether a step removes the entry of its directory.
pub fn removes_entry(step: &VolumeStep, e: &DirEntry) -> (r: bool)
    ensures
        r == removes(volumes::step_view(*step), *e),
{
    match step {
        VolumeStep::RemoveAll(_) => true,
        VolumeStep::RemoveNamesExcept { dir: _, keep } => match &e.name {
            Some(n) => !text::list_has(keep, n.as_str()),
            None => false,
        },
        VolumeStep::RemoveFilesExcept { dir: _, keep } => e.is_file && !text::list_has(
            keep,
            e.path.as_str(),
        ),
        _ => false,
    }
}

/// The step writes a file with one of the names.
pub open spec fn writes_one_of(step: StepView, dir: Seq<char>, names: Seq<Seq<char>>) -> bool {
    exists|n: int|
        0 <= n < names.len() && #[trigger] step_writes(step, dir, names[n])
}

/// The step writes the named file.
pub open spec fn step_writes(step: StepView, dir: Seq<char>, name: Seq<char>) -> bool {
    step matches StepView::Write { path, .. } && path == volumes::in_dir(dir, name)
}

proof fn lemma_byte_steps_are_named(
    dir: Seq<char>,
    data: Seq<(String, Vec<u8>)>,
    token: Option<Seq<char>>,
    mode: Option<u32>,
    make_parent: bool,
    how: volumes::WriteHow,
)
    ensures
        volumes::byte_steps(dir, data, token, mode, make_parent, how).len() == data.len(),
        forall|i: int|
            0 <= i < data.len() ==> step_writes(
                #[trigger] volumes::byte_steps(dir, data, token, mode, make_parent, how)[i],
                dir,
                resync::byte_keys(data)[i],
            ),
    decreases data.len(),
{
    if data.len() > 0 {
        let front = data.drop_last();
        lemma_byte_steps_are_named(dir, front, token, mode, make_parent, how);
        let all = volumes::byte_steps(dir, data, token, mode, make_parent, how);
        assert forall|i: int| 0 <= i < data.len() implies step_writes(
            #[trigger] all[i],
            dir,
            resync::byte_keys(data)[i],
        ) by {
            if i < front.len() {
                assert(all[i] == volumes::byte_steps(
                    dir,
                    front,
                    token,
                    mode,
                    make_parent,
                    how,
                )[i]);
                assert(resync::byte_keys(front)[i] == resync::byte_keys(data)[i]);
            }
        }
    }
}

proof fn lemma_item_steps_are_named(
    dir: Seq<char>,
    data: Seq<(String, Vec<u8>)>,
    items: Seq<api::KeyToPath>,
    token: Option<Seq<char>>,
    default: Option<i32>,
    make_parent: bool,
    how: volumes::WriteHow,
)
    ensures
        volumes::secret_item_steps(dir, data, items, token, default, make_parent, how).len()
            == resync::item_names(data, items).len(),
        forall|i: int|
            0 <= i < resync::item_names(data, items).len() ==> step_writes(
                #[trigger] volumes::secret_item_steps(
                    dir,
                    data,
                    items,
                    token,
                    default,
                    make_parent,
                    how,
                )[i],
                dir,
                resync::item_names(data, items)[i],
            ),
    decreases items.len(),
{
    if items.len() > 0 {
        let front = items.drop_last();
        lemma_item_steps_are_named(dir, data, front, token, default, make_parent, how);
        let all = volumes::secret_item_steps(dir, data, items, token, default, make_parent, how);
        let first = volumes::secret_item_steps(
            dir,
            data,
            front,
            token,
            default,
            make_parent,
            how,
        );
        let ns = resync::item_names(data, items);
        assert forall|i: int| 0 <= i < ns.len() implies step_writes(
            #[trigger] all[i],
            dir,
            ns[i],
        ) by {
            if i < first.len() {
                assert(all[i] == first[i]);
                assert(ns[i] == resync::item_names(data, front)[i]);
            }
        }
    }
}

/// Bringing a secret volume up to date removes none of the files that it writes: each has
/// one of the names that are kept, and an entry with such a name stays.
pub proof fn law_resync_keeps_what_it_writes(
    dir: Seq<char>,
    src: api::SecretVolumeSource,
    f: VolumeFacts,
    e: DirEntry,
)
    requires
        f.secret is Ok,
    ensures
        ({
            let steps = resync::resync_secret(dir, src, f);
            let keep = resync::secret_names(f.secret->Ok_0.data, src.items);
            &&& forall|i: int|
                0 <= i < steps.len() - 1 ==> writes_one_of(#[trigger] steps[i], dir, keep)
            &&& e.name is Some && keep.contains(e.name->0@) ==> !removes(steps.last(), e)
            &&& e.name is Some && !keep.contains(e.name->0@) ==> removes(steps.last(), e)
        }),
{
    let steps = resync::resync_secret(dir, src, f);
    let data = f.secret->Ok_0.data;
    let keep = resync::secret_names(data, src.items);
    if let Some(d) = data {
        if let Some(it) = src.items {
            lemma_item_steps_are_named(
                dir,
                d@,
                it@,
                None,
                None,
                true,
                volumes::WriteHow::IfChanged,
            );
        } else {
            lemma_byte_steps_are_named(
                dir,
                d@,
                None,
                volumes::file_mode(None, None),
                false,
                volumes::WriteHow::IfChanged,
            );
        }
        let files = volumes::secret_steps(
            dir,
            d@,
            src.items,
            None,
            None,
            volumes::WriteHow::IfChanged,
        );
        assert forall|i: int| 0 <= i < steps.len() - 1 implies writes_one_of(
            #[trigger] steps[i],
            dir,
            keep,
        ) by {
            assert(steps[i] == files[i]);
            assert(step_writes(files[i], dir, keep[i]));
        }
    }
}

/// Whether an item of fields refers to what can be put in words.
fn item_plain(pod: &Pod, item: &DownwardAPIVolumeFile, readings: &DecimalCores) -> (r: bool)
    ensures
        r == volumes::item_is_plain(*pod, *item, readings@),
{
    match &item.field_ref {
        Some(f) => !text::same(f.field_path.as_str(), "metadata.labels[']") && !text::same(
            f.field_path.as_str(),
            "metadata.annotations[']",
        ),
        None => match &item.resource_field_ref {
            Some(x) => downward::resource_value_fits(pod, x, readings),
            None => true,
        },
    }
}

fn items_plain(pod: &Pod, items: &Vec<DownwardAPIVolumeFile>, readings: &DecimalCores) -> (r: bool)
    ensures
        r == volumes::items_are_plain(*pod, items@, readings@),
{
    let mut i: usize = 0;
    while i < items.len()
        invariant
            i <= items@.len(),
            forall|j: int|
                0 <= j < i ==> volumes::item_is_plain(*pod, #[trigger] items@[j], readings@),
        decreases items@.len() - i,
    {
        if !item_plain(pod, &items[i], readings) {
            assert(!volumes::item_is_plain(*pod, items@[i as int], readings@));
            return false;
        }
        i += 1;
    }
    true
}

fn sources_plain(
    pod: &Pod,
    srcs: &Vec<api::VolumeProjection>,
    readings: &DecimalCores,
) -> (r: bool)
    ensures
        r == volumes::sources_are_plain(*pod, srcs@, readings@),
{
    let mut i: usize = 0;
    while i < srcs.len()
        invariant
            i <= srcs@.len(),
            forall|j: int|
                0 <= j < i ==> volumes::source_is_plain(*pod, #[trigger] srcs@[j], readings@),
        decreases srcs@.len() - i,
    {
        if let Some(d) = &srcs[i].downward_api {
            if let Some(it) = &d.items {
                if !items_plain(pod, it, readings) {
                    assert(!volumes::source_is_plain(*pod, srcs@[i as int], readings@));
                    return false;
                }
            }
        }
        i += 1;
    }
    true
}

/// Whether there are facts for each source of a volume, and what its fields refer to can
/// be put in words.
pub fn volume_can_be_refreshed(pod: &Pod, v: &Volume, f: &VolumeFacts) -> (r: bool)
    ensures
        r == resync::volume_fields_match(*pod, *v, *f),
{
    if let Some(s) = &v.secret {
        if s.secret_name.is_none() {
            return true;
        }
    }
    if let Some(d) = &v.downward_api {
        if let Some(it) = &d.items {
            if !items_plain(pod, it, &f.readings) {
                return false;
            }
        }
    }
    if let Some(p) = &v.projected {
        if let Some(s) = &p.sources {
            if f.projections.len() != s.len() || !sources_plain(pod, s, &f.readings) {
                return false;
            }
        }
    }
    true
}


/// The path of each of the first `n` volumes, by its name; of two with one name the
/// later.
pub open spec fn paths_by_name(vs: Seq<Volume>, paths: Seq<String>, n: nat) -> Seq<
    (Seq<char>, Seq<char>),
>
    decreases n,
{
    if n == 0 {
        Seq::empty()
    } else {
        ports::put(paths_by_name(vs, paths, (n - 1) as nat), vs[n - 1].name@, paths[n - 1]@)
    }
}

/// The group that a pod's volumes belong to.
pub open spec fn fs_group_of(pod: Pod) -> Option<i64> {
    match pod.spec {
        Some(s) => match s.security_context {
            Some(c) => c.fs_group,
            None => None,
        },
        None => None,
    }
}

/// The group that a pod's volumes belong to, if they belong to one.
pub fn fs_group(pod: &Pod) -> (r: Option<i64>)
    ensures
        r == fs_group_of(*pod),
{
    match &pod.spec {
        Some(s) => match &s.security_context {
            Some(c) => c.fs_group,
            None => None,
        },
        None => None,
    }
}

/// The names that begin with `prefix`.
pub open spec fn names_with(names: Seq<String>, prefix: Seq<char>) -> Seq<Seq<char>>
    decreases names.len(),
{
    if names.len() == 0 {
        Seq::empty()
    } else {
        let rest = names_with(names.drop_last(), prefix);
        if text::begins(names.last()@, prefix) {
            rest.push(names.last()@)
        } else {
            rest
        }
    }
}

/// What is removed with a pod's volumes.
#[derive(Clone, Debug)]
pub struct VolumeCleanup {
    /// The directory of the pod's volumes.
    pub dir: String,
    /// The named volumes that were made for the pod.
    pub named_volumes: Vec<String>,
}

impl ContainerRuntime {
    fn items_plain_while_told(
        &self,
        pod: &Pod,
        items: &Vec<DownwardAPIVolumeFile>,
        readings: &DecimalCores,
    ) -> (r: bool)
        ensures
            r == volumes::plain_while_told(*pod, items@, readings@),
    {
        let mut i: usize = 0;
        assert(items@.skip(0) == items@);
        while i < items.len()
            invariant
                i <= items@.len(),
                volumes::plain_while_told(*pod, items@, readings@) == volumes::plain_while_told(
                    *pod,
                    items@.skip(i as int),
                    readings@,
                ),
            decreases items@.len() - i,
        {
            assert(items@.skip(i as int)[0] == items@[i as int]);
            assert(items@.skip(i as int).drop_first() == items@.skip(i as int + 1));
            if !item_plain(pod, &items[i], readings) {
                return false;
            }
            if volumes::value_of_item(self, pod, &items[i], readings).is_err() {
                return true;
            }
            i += 1;
        }
        true
    }

    /// Whether what a volume is made from was looked up and can be put in words.
    pub fn volume_can_be_made(&self, pod: &Pod, v: &Volume, f: &VolumeFacts) -> (r: bool)
        ensures
            r == volumes::volume_facts_match(*pod, *v, *f),
    {
        match volumes::volume_source(v) {
            volumes::SourceKind::HostPath => match &v.host_path {
                Some(h) => expand::env_vars_expand(h.path.as_str(), f.process_env.as_slice()),
                None => true,
            },
            volumes::SourceKind::Downward => match &v.downward_api {
                Some(d) => match &d.items {
                    Some(it) => self.items_plain_while_told(pod, it, &f.readings),
                    None => true,
                },
                None => true,
            },
            volumes::SourceKind::Projected => match &v.projected {
                Some(p) => match &p.sources {
                    Some(s) => f.projections.len() == s.len() && sources_plain(
                        pod,
                        s,
                        &f.readings,
                    ),
                    None => true,
                },
                None => true,
            },
            _ => true,
        }
    }

    /// The steps that make a pod's volume, where all that it refers to was looked up and
    /// can be put in words; nothing otherwise.
    pub fn create_volume_if_ready(&self, pod: &Pod, volume: &Volume, f: &VolumeFacts) -> (r: Option<
        volumes::VolumePlan,
    >)
        ensures
            match r {
                Some(plan) => {
                    &&& volumes::volume_facts_match(*pod, *volume, *f)
                    &&& plan.view_of() == volumes::volume_plan(
                        self.volumes_base_path@,
                        *pod,
                        *volume,
                        *f,
                    )
                },
                None => !volumes::volume_facts_match(*pod, *volume, *f),
            },
    {
        if self.volume_can_be_made(pod, volume, f) {
            Some(self.create_volume(pod, volume, f))
        } else {
            None
        }
    }

    /// The paths of a pod's volumes by their names, once each has been made.
    pub fn create_pod_volumes(&self, pod: &Pod, made: &Vec<String>) -> (r: Vec<(String, String)>)
        requires
            pod.spec is Some,
            resync::volumes_of(*pod) matches Some(vs) ==> made@.len() == vs.len(),
        ensures
            api::pair_texts(r@) == (match resync::volumes_of(*pod) {
                Some(vs) => paths_by_name(vs, made@, vs.len()),
                None => Seq::empty(),
            }),
    {
        let mut r: Vec<(String, String)> = Vec::new();
        assert(api::pair_texts(r@) =~= Seq::<(Seq<char>, Seq<char>)>::empty());
        if let Some(spec) = &pod.spec {
            if let Some(vs) = &spec.volumes {
                let mut i: usize = 0;
                while i < vs.len()
                    invariant
                        i <= vs@.len(),
                        made@.len() == vs@.len(),
                        api::pair_texts(r@) == paths_by_name(vs@, made@, i as nat),
                    decreases vs@.len() - i,
                {
                    mounts::put_pair(&mut r, vs[i].name.as_str(), made[i].as_str());
                    i += 1;
                }
            }
        }
        r
    }

    /// What is removed with a pod's volumes, of the named volumes that there are.
    pub fn cleanup_pod_volumes(&self, pod_name: &str, named: &Vec<String>) -> (r: VolumeCleanup)
        ensures
            r.dir@ == names::pod_dir_text(self.volumes_base_path@, pod_name@),
            text::texts(r.named_volumes@) == names_with(
                named@,
                names::emptydir_prefix_text(pod_name@),
            ),
    {
        let prefix = names::emptydir_prefix(pod_name);
        let mut out: Vec<String> = Vec::new();
        let mut i: usize = 0;
        assert(named@.take(0) == Seq::<String>::empty());
        assert(text::texts(out@) =~= Seq::<Seq<char>>::empty());
        while i < named.len()
            invariant
                i <= named@.len(),
                prefix@ == names::emptydir_prefix_text(pod_name@),
                text::texts(out@) == names_with(named@.take(i as int), prefix@),
            decreases named@.len() - i,
        {
            assert(named@.take(i as int + 1).drop_last() == named@.take(i as int));
            assert(named@.take(i as int + 1).last() == named@[i as int]);
            if text::starts_with(named[i].as_str(), prefix.as_str()) {
                text::push_text(&mut out, named[i].clone());
            }
            i += 1;
        }
        assert(named@.take(named@.len() as int) == named@);
        VolumeCleanup {
            dir: names::pod_dir(self.volumes_base_path.as_str(), pod_name),
            named_volumes: out,
        }
    }
}

/// Each volume of a pod is found under its name at the path where it was made, the last one
/// where several bear it, and no other name is found.
pub proof fn law_volumes_are_found_where_they_were_made(
    vs: Seq<Volume>,
    paths: Seq<String>,
    n: nat,
    i: int,
    other: Seq<char>,
)
    requires
        n <= vs.len(),
        n <= paths.len(),
    ensures
        0 <= i < n && (forall|j: int| i < j < n ==> (#[trigger] vs[j]).name@ != vs[i].name@)
            ==> ports::bound_to(paths_by_name(vs, paths, n), vs[i].name@) == Some(paths[i]@),
        (forall|j: int| 0 <= j < n ==> (#[trigger] vs[j]).name@ != other) ==> ports::bound_to(
            paths_by_name(vs, paths, n),
            other,
        ) is None,
    decreases n,
{
    if n > 0 {
        let m = (n - 1) as nat;
        law_volumes_are_found_where_they_were_made(vs, paths, m, i, other);
        ports::law_put_changes_one_key(
            paths_by_name(vs, paths, m),
            vs[n - 1].name@,
            paths[n - 1]@,
            vs[i].name@,
        );
        ports::law_put_changes_one_key(
            paths_by_name(vs, paths, m),
            vs[n - 1].name@,
            paths[n - 1]@,
            other,
        );
        if forall|j: int| i < j < n ==> (#[trigger] vs[j]).name@ != vs[i].name@ {
            if 0 <= i < n - 1 {
                assert(vs[n - 1].name@ != vs[i].name@);
            }
        }
        if forall|j: int| 0 <= j < n ==> (#[trigger] vs[j]).name@ != other {
            assert(vs[n - 1].name@ != other);
        }
    }
}

/// The names that are taken are exactly those of the list that begin with the prefix.
pub proof fn law_exactly_the_names_with_the_prefix_are_taken(
    names: Seq<String>,
    prefix: Seq<char>,
    x: Seq<char>,
)
    ensures
        names_with(names, prefix).contains(x) <==> text::begins(x, prefix) && exists|i: int|
            0 <= i < names.len() && (#[trigger] names[i])@ == x,
    decreases names.len(),
{
    let r = names_with(names, prefix);
    if names.len() > 0 {
        let d = names.drop_last();
        let rest = names_with(d, prefix);
        law_exactly_the_names_with_the_prefix_are_taken(d, prefix, x);
        assert(names[names.len() - 1] == names.last());
        if r.contains(x) {
            let k = choose|k: int| 0 <= k < r.len() && r[k] == x;
            if k < rest.len() {
                assert(rest[k] == x);
                let i = choose|i: int| 0 <= i < d.len() && (#[trigger] d[i])@ == x;
                assert(names[i] == d[i]);
            }
        }
        if text::begins(x, prefix) && exists|i: int|
            0 <= i < names.len() && (#[trigger] names[i])@ == x {
            let i = choose|i: int| 0 <= i < names.len() && (#[trigger] names[i])@ == x;
            if i < d.len() {
                assert(d[i] == names[i]);
                let k = choose|k: int| 0 <= k < rest.len() && rest[k] == x;
                assert(r[k] == x);
            } else {
                assert(r[r.len() - 1] == x);
            }
        }
    }
}

/// With a pod's volumes go the daemon's volumes of its empty directories, each by its name,
/// and none of another pod whose name does not begin with this one's and a hyphen.
pub proof fn law_a_pods_empty_directories_go(pod: Seq<char>, volume: Seq<char>)
    ensures
        text::begins(
            "rusternetes-emptydir-"@ + pod + "-"@ + volume,
            names::emptydir_prefix_text(pod),
        ),
        names::emptydir_prefix_text(pod) == "rusternetes-emptydir-"@ + pod + "-"@,
{
    let p = "rusternetes-emptydir-"@ + pod + "-"@;
    assert((p + volume).take(p.len() as int) =~= p);
}

/// A file is written unless it holds the very bytes, and written beside itself.
pub proof fn law_only_what_differs_is_written(
    path: Seq<char>,
    existing: Option<Seq<u8>>,
    contents: Seq<u8>,
    pid: u32,
)
    ensures
        write_target(path, existing, contents, pid) is None <==> existing is Some && existing->0
            == contents,
        write_target(path, existing, contents, pid) is Some ==> write_target(
            path,
            existing,
            contents,
            pid,
        )->0 == path + ".tmp-"@ + number::decimal(pid as int),
{
}

/// A directory that is emptied loses every entry; one that keeps some loses the others, and
/// none of those that it keeps. No other step removes anything.
pub proof fn law_steps_remove_what_is_not_kept(step: StepView, e: DirEntry)
    ensures
        step is RemoveAll ==> removes(step, e),
        step matches StepView::RemoveNamesExcept { dir, keep } ==> removes(step, e) == (e.name is Some
            && !keep.contains(e.name->0@)),
        step matches StepView::RemoveFilesExcept { dir, keep } ==> removes(step, e) == (e.is_file
            && !keep.contains(e.path@)),
        step is MakeDir || step is Write ==> !removes(step, e),
{
}

/// The group of a pod's volumes is the one that its security context names.
pub proof fn law_volumes_belong_to_the_pods_group(pod: Pod)
    ensures
        pod.spec is Some && pod.spec->0.security_context is Some ==> fs_group_of(pod)
            == pod.spec->0.security_context->0.fs_group,
        pod.spec is None || pod.spec->0.security_context is None ==> fs_group_of(pod) is None,
{
}

} // verus!
