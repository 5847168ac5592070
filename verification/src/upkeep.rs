//! What keeping the volumes of a running pod up to date does to their files: those that
//! something stands behind are written and stay, the others go.

use crate::api;
use crate::api::{ConfigMap, DownwardAPIVolumeFile, KeyToPath, Pod, Volume, VolumeProjection};
use crate::disk;
use crate::files;
use crate::files::DirEntry;
use crate::resync;
use crate::text;
use crate::volumes;
use crate::volumes::{ProjectionFacts, StepView, VolumeFacts, WriteHow};
use vstd::prelude::*;
use vstd::string::*;
use vstd::utf8::*;

verus! {

/// None of the steps removes the entry.
pub open spec fn spares(steps: Seq<StepView>, e: DirEntry) -> bool {
    forall|k: int| 0 <= k < steps.len() ==> !files::removes(#[trigger] steps[k], e)
}

/// One of the steps removes the entry.
pub open spec fn drops(steps: Seq<StepView>, e: DirEntry) -> bool {
    exists|k: int| 0 <= k < steps.len() && files::removes(#[trigger] steps[k], e)
}

/// The steps write files, and do nothing else.
pub open spec fn only_writes(steps: Seq<StepView>) -> bool {
    forall|k: int| 0 <= k < steps.len() ==> (#[trigger] steps[k]) is Write
}

/// A source of a projected volume stands behind the file at `path`.
pub open spec fn stands_behind(
    dir: Seq<char>,
    src: VolumeProjection,
    p: ProjectionFacts,
    path: Seq<char>,
) -> bool {
    ||| src.service_account_token matches Some(t) && path == dir + "/"@ + t.path@
    ||| src.downward_api matches Some(d) && d.items matches Some(it) && exists|k: int|
        0 <= k < it@.len() && path == dir + "/"@ + (#[trigger] it@[k]).path@
    ||| src.config_map is Some && src.config_map->0.name is Some && p.config_map is Some && (
    match src.config_map->0.items {
        Some(it) => exists|k: int|
            0 <= k < it@.len() && path == dir + "/"@ + (#[trigger] it@[k]).path@,
        None => p.config_map->0.data matches Some(d) && exists|k: int|
            0 <= k < d@.len() && path == dir + "/"@ + (#[trigger] d@[k]).0@,
    })
    ||| src.secret is Some && src.secret->0.name is Some && p.secret is Some && (
    p.secret->0.data matches Some(d) && exists|k: int|
        0 <= k < d@.len() && path == dir + "/"@ + (#[trigger] d@[k]).0@)
}

/// Two lists hold an element between them where one of the two does.
proof fn lemma_contains_joined(a: Seq<Seq<char>>, b: Seq<Seq<char>>, x: Seq<char>)
    ensures
        (a + b).contains(x) <==> a.contains(x) || b.contains(x),
{
    if a.contains(x) {
        let i = choose|i: int| 0 <= i < a.len() && a[i] == x;
        assert((a + b)[i] == x);
    }
    if b.contains(x) {
        let i = choose|i: int| 0 <= i < b.len() && b[i] == x;
        assert((a + b)[a.len() + i] == x);
    }
    if (a + b).contains(x) {
        let i = choose|i: int| 0 <= i < (a + b).len() && (a + b)[i] == x;
        if i < a.len() {
            assert(a[i] == x);
        } else {
            assert(b[i - a.len()] == x);
        }
    }
}

proof fn lemma_source_paths(
    dir: Seq<char>,
    src: VolumeProjection,
    p: ProjectionFacts,
    path: Seq<char>,
)
    ensures
        resync::source_paths(dir, src, p).contains(path) <==> stands_behind(dir, src, p, path),
{
    let cm = resync::projected_config_paths(dir, src.config_map, p.config_map);
    let sec = resync::projected_secret_paths(dir, src.secret, p.secret);
    let fields = resync::projected_field_paths(dir, src.downward_api);
    let all = resync::source_paths(dir, src, p);
    let token = match src.service_account_token {
        Some(t) => seq![dir + "/"@ + t.path@],
        None => Seq::empty(),
    };
    assert(all =~= cm + sec + token + fields);
    lemma_contains_joined(cm, sec, path);
    lemma_contains_joined(cm + sec, token, path);
    lemma_contains_joined(cm + sec + token, fields, path);
    if let Some(t) = src.service_account_token {
        assert(token[0] == dir + "/"@ + t.path@);
        assert(token.contains(path) <==> path == token[0]);
    }
    if let Some(d) = src.downward_api {
        if let Some(it) = d.items {
            assert forall|k: int| 0 <= k < it@.len() implies fields[k] == dir + "/"@ + (
            #[trigger] it@[k]).path@ by {}
            if fields.contains(path) {
                let k = choose|k: int| 0 <= k < fields.len() && fields[k] == path;
                assert(path == dir + "/"@ + it@[k].path@);
            }
        }
    }
    if let Some(s) = src.config_map {
        if let Some(m) = p.config_map {
            if s.name is Some {
                match s.items {
                    Some(it) => {
                        assert forall|k: int| 0 <= k < it@.len() implies cm[k] == dir + "/"@ + (
                        #[trigger] it@[k]).path@ by {}
                        if cm.contains(path) {
                            let k = choose|k: int| 0 <= k < cm.len() && cm[k] == path;
                            assert(path == dir + "/"@ + it@[k].path@);
                        }
                    },
                    None => {
                        if let Some(d) = m.data {
                            assert forall|k: int| 0 <= k < d@.len() implies cm[k] == dir + "/"@ + (
                            #[trigger] d@[k]).0@ by {}
                            if cm.contains(path) {
                                let k = choose|k: int| 0 <= k < cm.len() && cm[k] == path;
                                assert(path == dir + "/"@ + d@[k].0@);
                            }
                        }
                    },
                }
            }
        }
    }
    if let Some(s) = src.secret {
        if let Some(m) = p.secret {
            if s.name is Some {
                if let Some(d) = m.data {
                    assert forall|k: int| 0 <= k < d@.len() implies sec[k] == dir + "/"@ + (
                    #[trigger] d@[k]).0@ by {}
                    if sec.contains(path) {
                        let k = choose|k: int| 0 <= k < sec.len() && sec[k] == path;
                        assert(path == dir + "/"@ + d@[k].0@);
                    }
                }
            }
        }
    }
}

proof fn lemma_sources_paths(
    dir: Seq<char>,
    srcs: Seq<VolumeProjection>,
    ps: Seq<ProjectionFacts>,
    n: nat,
    path: Seq<char>,
)
    ensures
        resync::sources_paths(dir, srcs, ps, n).contains(path) <==> exists|i: int|
            0 <= i < n && stands_behind(dir, #[trigger] srcs[i], ps[i], path),
    decreases n,
{
    if n > 0 {
        let m = (n - 1) as nat;
        lemma_sources_paths(dir, srcs, ps, m, path);
        lemma_source_paths(dir, srcs[n - 1], ps[n - 1], path);
        lemma_contains_joined(
            resync::sources_paths(dir, srcs, ps, m),
            resync::source_paths(dir, srcs[n - 1], ps[n - 1]),
            path,
        );
        if exists|i: int| 0 <= i < m && stands_behind(dir, #[trigger] srcs[i], ps[i], path) {
            let i = choose|i: int|
                0 <= i < m && stands_behind(dir, #[trigger] srcs[i], ps[i], path);
            assert(stands_behind(dir, srcs[i], ps[i], path));
        }
    }
}

/// A text that a config map holds under a key, written if that has changed, without a mode.
proof fn lemma_text_items(
    dir: Seq<char>,
    data: Option<Vec<(String, String)>>,
    items: Seq<KeyToPath>,
    make_parent: bool,
    how: WriteHow,
)
    ensures
        only_writes(resync::text_item_steps(dir, data, items, make_parent, how)),
        forall|k: int|
            0 <= k < items.len() && api::opt_lookup(data, (#[trigger] items[k]).key@) is Some
                ==> disk::puts(
                resync::text_item_steps(dir, data, items, make_parent, how),
                dir + "/"@ + items[k].path@,
                encode_utf8(api::opt_lookup(data, items[k].key@)->0),
                None,
            ),
    decreases items.len(),
{
    if items.len() > 0 {
        let short = items.drop_last();
        let before = resync::text_item_steps(dir, data, short, make_parent, how);
        let steps = resync::text_item_steps(dir, data, items, make_parent, how);
        lemma_text_items(dir, data, short, make_parent, how);
        assert forall|k: int|
            0 <= k < items.len() && api::opt_lookup(
                data,
                (#[trigger] items[k]).key@,
            ) is Some implies disk::puts(
            steps,
            dir + "/"@ + items[k].path@,
            encode_utf8(api::opt_lookup(data, items[k].key@)->0),
            None,
        ) by {
            let path = dir + "/"@ + items[k].path@;
            let bytes = encode_utf8(api::opt_lookup(data, items[k].key@)->0);
            if k < items.len() - 1 {
                assert(short[k] == items[k]);
                assert(disk::puts(before, path, bytes, None));
                let i = choose|i: int|
                    0 <= i < before.len() && disk::step_puts(
                        #[trigger] before[i],
                        path,
                        bytes,
                        None,
                    );
                assert(steps[i] == before[i]);
            } else {
                assert(disk::step_puts(steps[before.len() as int], path, bytes, None));
            }
        }
    }
}

proof fn lemma_text_writes(
    dir: Seq<char>,
    data: Seq<(String, String)>,
    mode: Option<u32>,
    make_parent: bool,
    how: WriteHow,
)
    ensures
        only_writes(volumes::text_steps(dir, data, mode, make_parent, how)),
        forall|k: int|
            0 <= k < data.len() ==> disk::puts(
                volumes::text_steps(dir, data, mode, make_parent, how),
                dir + "/"@ + (#[trigger] data[k]).0@,
                encode_utf8(data[k].1@),
                mode,
            ),
    decreases data.len(),
{
    disk::lemma_text_steps(dir, data, mode, make_parent, how);
    let steps = volumes::text_steps(dir, data, mode, make_parent, how);
    assert forall|k: int| 0 <= k < steps.len() implies (#[trigger] steps[k]) is Write by {
        assert(disk::step_puts(
            steps[k],
            dir + "/"@ + data[k].0@,
            encode_utf8(data[k].1@),
            mode,
        ));
    }
}

proof fn lemma_byte_writes(
    dir: Seq<char>,
    data: Seq<(String, Vec<u8>)>,
    make_parent: bool,
    how: WriteHow,
)
    ensures
        only_writes(volumes::byte_steps(dir, data, None, None, make_parent, how)),
        forall|k: int|
            0 <= k < data.len() ==> disk::puts(
                volumes::byte_steps(dir, data, None, None, make_parent, how),
                dir + "/"@ + (#[trigger] data[k]).0@,
                data[k].1@,
                None,
            ),
{
    disk::lemma_byte_steps(dir, data, None, None, make_parent, how);
    let steps = volumes::byte_steps(dir, data, None, None, make_parent, how);
    assert forall|k: int| 0 <= k < steps.len() implies (#[trigger] steps[k]) is Write by {
        assert(disk::step_puts(
            steps[k],
            dir + "/"@ + data[k].0@,
            volumes::with_token(data[k].0@, data[k].1@, None),
            None,
        ));
    }
}

proof fn lemma_field_writes(
    dir: Seq<char>,
    pod: Pod,
    items: Seq<DownwardAPIVolumeFile>,
    readings: Seq<(String, i64)>,
    make_parent: bool,
    how: WriteHow,
)
    ensures
        only_writes(
            volumes::lenient_item_steps(dir, pod, items, None, readings, make_parent, how),
        ),
        forall|k: int|
            0 <= k < items.len() ==> disk::puts(
                volumes::lenient_item_steps(dir, pod, items, None, readings, make_parent, how),
                dir + "/"@ + (#[trigger] items[k]).path@,
                disk::told(pod, items[k], readings),
                None,
            ),
    decreases items.len(),
{
    assert forall|k: int| 0 <= k < items.len() implies disk::puts(
        volumes::lenient_item_steps(dir, pod, items, None, readings, make_parent, how),
        dir + "/"@ + (#[trigger] items[k]).path@,
        disk::told(pod, items[k], readings),
        None,
    ) by {
        disk::lemma_lenient_items(dir, pod, items, None, readings, make_parent, how, k);
    }
    if items.len() > 0 {
        lemma_field_writes(dir, pod, items.drop_last(), readings, make_parent, how);
    }
}

/// The files of one source of a projected volume are brought up to date: each text of the
/// config map that is asked for, each key of the secret, each field.
pub open spec fn follows_source(
    steps: Seq<StepView>,
    dir: Seq<char>,
    pod: Pod,
    src: VolumeProjection,
    p: ProjectionFacts,
    readings: Seq<(String, i64)>,
) -> bool {
    &&& src.config_map is Some && src.config_map->0.name is Some && p.config_map is Some ==> {
        let data = p.config_map->0.data;
        match src.config_map->0.items {
            Some(it) => forall|k: int|
                0 <= k < it@.len() && api::opt_lookup(data, (#[trigger] it@[k]).key@) is Some
                    ==> disk::puts(
                    steps,
                    dir + "/"@ + it@[k].path@,
                    encode_utf8(api::opt_lookup(data, it@[k].key@)->0),
                    None,
                ),
            None => data matches Some(d) ==> forall|k: int|
                0 <= k < d@.len() ==> disk::puts(
                    steps,
                    dir + "/"@ + (#[trigger] d@[k]).0@,
                    encode_utf8(d@[k].1@),
                    None,
                ),
        }
    }
    &&& src.secret is Some && src.secret->0.name is Some && p.secret is Some ==> (
    p.secret->0.data matches Some(d) ==> forall|k: int|
        0 <= k < d@.len() ==> disk::puts(
            steps,
            dir + "/"@ + (#[trigger] d@[k]).0@,
            d@[k].1@,
            None,
        ))
    &&& src.downward_api is Some && src.downward_api->0.items is Some ==> forall|k: int|
        0 <= k < src.downward_api->0.items->0@.len() ==> disk::puts(
            steps,
            dir + "/"@ + (#[trigger] src.downward_api->0.items->0@[k]).path@,
            disk::told(pod, src.downward_api->0.items->0@[k], readings),
            None,
        )
}

proof fn lemma_more_follows(
    few: Seq<StepView>,
    many: Seq<StepView>,
    dir: Seq<char>,
    pod: Pod,
    src: VolumeProjection,
    p: ProjectionFacts,
    readings: Seq<(String, i64)>,
)
    requires
        disk::puts_more(few, many),
        follows_source(few, dir, pod, src, p, readings),
    ensures
        follows_source(many, dir, pod, src, p, readings),
{
}

proof fn lemma_source_steps(
    dir: Seq<char>,
    pod: Pod,
    src: VolumeProjection,
    p: ProjectionFacts,
    readings: Seq<(String, i64)>,
)
    ensures
        follows_source(
            resync::source_steps(dir, pod, src, p, readings),
            dir,
            pod,
            src,
            p,
            readings,
        ),
        only_writes(resync::source_steps(dir, pod, src, p, readings)),
{
    let how = WriteHow::IfChanged;
    let cm = resync::projected_config_steps(dir, src.config_map, p.config_map);
    let sec = resync::projected_secret_steps(dir, src.secret, p.secret);
    let fields = resync::projected_field_steps(dir, pod, src.downward_api, readings);
    let steps = resync::source_steps(dir, pod, src, p, readings);
    let none = Seq::<StepView>::empty();
    assert(steps =~= none + cm + (sec + fields));
    assert(steps =~= cm + sec + fields);
    assert(steps =~= (cm + sec) + fields + none);
    disk::lemma_more(none, cm, sec + fields);
    disk::lemma_more(cm, sec, fields);
    disk::lemma_more(cm + sec, fields, none);
    if let Some(s) = src.config_map {
        if let Some(m) = p.config_map {
            if s.name is Some {
                match s.items {
                    Some(it) => lemma_text_items(dir, m.data, it@, true, how),
                    None => {
                        if let Some(d) = m.data {
                            lemma_text_writes(dir, d@, None, false, how);
                        }
                    },
                }
            }
        }
    }
    if let Some(s) = src.secret {
        if let Some(m) = p.secret {
            if s.name is Some {
                if let Some(d) = m.data {
                    lemma_byte_writes(dir, d@, false, how);
                }
            }
        }
    }
    if let Some(d) = src.downward_api {
        if let Some(it) = d.items {
            lemma_field_writes(dir, pod, it@, readings, false, how);
        }
    }
    assert(only_writes(cm));
    assert(only_writes(sec));
    assert(only_writes(fields));
}

proof fn lemma_sources_steps(
    dir: Seq<char>,
    pod: Pod,
    srcs: Seq<VolumeProjection>,
    ps: Seq<ProjectionFacts>,
    readings: Seq<(String, i64)>,
    n: nat,
)
    ensures
        only_writes(resync::sources_steps(dir, pod, srcs, ps, readings, n)),
        forall|i: int|
            0 <= i < n ==> follows_source(
                resync::sources_steps(dir, pod, srcs, ps, readings, n),
                dir,
                pod,
                #[trigger] srcs[i],
                ps[i],
                readings,
            ),
    decreases n,
{
    if n > 0 {
        let m = (n - 1) as nat;
        let before = resync::sources_steps(dir, pod, srcs, ps, readings, m);
        let last = resync::source_steps(dir, pod, srcs[n - 1], ps[n - 1], readings);
        let none = Seq::<StepView>::empty();
        lemma_sources_steps(dir, pod, srcs, ps, readings, m);
        lemma_source_steps(dir, pod, srcs[n - 1], ps[n - 1], readings);
        assert(before + last =~= none + before + last);
        assert(before + last =~= before + last + none);
        disk::lemma_more(none, before, last);
        disk::lemma_more(before, last, none);
        assert forall|i: int| 0 <= i < n implies follows_source(
            before + last,
            dir,
            pod,
            #[trigger] srcs[i],
            ps[i],
            readings,
        ) by {
            if i < m {
                lemma_more_follows(before, before + last, dir, pod, srcs[i], ps[i], readings);
            } else {
                lemma_more_follows(last, before + last, dir, pod, srcs[i], ps[i], readings);
            }
        }
    }
}

/// Bringing a projected volume up to date writes what its sources now hold, and removes
/// exactly the files that no source stands behind: a token stays, and so do the files of the
/// fields, of the config maps and of the secrets.
pub proof fn law_a_projected_volume_follows_its_sources(
    base: Seq<char>,
    pod: Pod,
    v: Volume,
    f: VolumeFacts,
    e: DirEntry,
)
    requires
        v.secret is None,
        v.config_map is None,
        v.downward_api is None,
        v.projected is Some,
        v.projected->0.sources is Some,
        f.projections@.len() == v.projected->0.sources->0@.len(),
    ensures
        ({
            let steps = resync::resync_volume(base, pod, v, f);
            let dir = disk::volume_dir(base, pod, v);
            let srcs = v.projected->0.sources->0@;
            let ps = f.projections@;
            let wanted = exists|i: int|
                0 <= i < srcs.len() && stands_behind(dir, #[trigger] srcs[i], ps[i], e.path@);
            &&& wanted || !e.is_file ==> spares(steps, e)
            &&& !wanted && e.is_file ==> drops(steps, e)
            &&& forall|i: int|
                0 <= i < srcs.len() ==> follows_source(
                    steps,
                    dir,
                    pod,
                    #[trigger] srcs[i],
                    ps[i],
                    f.readings@,
                )
        }),
{
    let steps = resync::resync_volume(base, pod, v, f);
    let dir = disk::volume_dir(base, pod, v);
    let srcs = v.projected->0.sources->0@;
    let ps = f.projections@;
    let n = srcs.len();
    let writes = resync::sources_steps(dir, pod, srcs, ps, f.readings@, n);
    let keep = resync::sources_paths(dir, srcs, ps, n);
    let last = StepView::RemoveFilesExcept { dir, keep };
    let none = Seq::<StepView>::empty();
    assert(steps =~= writes.push(last));
    assert(steps =~= none + writes + seq![last]);
    lemma_sources_steps(dir, pod, srcs, ps, f.readings@, n);
    lemma_sources_paths(dir, srcs, ps, n, e.path@);
    disk::lemma_more(none, writes, seq![last]);
    assert forall|i: int| 0 <= i < srcs.len() implies follows_source(
        steps,
        dir,
        pod,
        #[trigger] srcs[i],
        ps[i],
        f.readings@,
    ) by {
        lemma_more_follows(writes, steps, dir, pod, srcs[i], ps[i], f.readings@);
    }
    assert(steps[writes.len() as int] == last);
    assert forall|k: int| 0 <= k < writes.len() implies !files::removes(#[trigger] steps[k], e) by {
        assert(steps[k] == writes[k]);
        assert(writes[k] is Write);
    }
}

/// A file that making a projected volume writes for a token is never removed when the volume
/// is brought up to date, whatever else it is made from.
pub proof fn law_tokens_stay(
    base: Seq<char>,
    pod: Pod,
    v: Volume,
    f: VolumeFacts,
    i: int,
    e: DirEntry,
)
    requires
        v.secret is None,
        v.projected is Some,
        v.projected->0.sources is Some,
        0 <= i < v.projected->0.sources->0@.len(),
        f.projections@.len() == v.projected->0.sources->0@.len(),
        v.projected->0.sources->0@[i].service_account_token is Some,
        e.path@ == disk::volume_dir(base, pod, v) + "/"@
            + v.projected->0.sources->0@[i].service_account_token->0.path@,
    ensures
        spares(resync::resync_volume(base, pod, v, f), e),
{
    let steps = resync::resync_volume(base, pod, v, f);
    let dir = disk::volume_dir(base, pod, v);
    let srcs = v.projected->0.sources->0@;
    let ps = f.projections@;
    let n = srcs.len();
    let proj = resync::resync_projected(dir, pod, v.projected->0, f);
    let keep = resync::sources_paths(dir, srcs, ps, n);
    assert(stands_behind(dir, srcs[i], ps[i], e.path@));
    lemma_sources_paths(dir, srcs, ps, n, e.path@);
    lemma_sources_steps(dir, pod, srcs, ps, f.readings@, n);
    assert(proj.last() == StepView::RemoveFilesExcept { dir, keep });
    let cm = match v.config_map {
        Some(s) => resync::resync_config_map(dir, s, f),
        None => Seq::empty(),
    };
    lemma_config_follows(dir, v, f);
    let fields = steps.skip((cm + proj).len() as int);
    assert(steps =~= cm + proj + fields);
    if let Some(d) = v.downward_api {
        if let Some(it) = d.items {
            lemma_field_writes(dir, pod, it@, f.readings@, false, WriteHow::IfChanged);
        }
    }
    assert(only_writes(cm));
    assert(only_writes(fields));
    assert forall|k: int| 0 <= k < steps.len() implies !files::removes(#[trigger] steps[k], e) by {
        if k < cm.len() {
            assert(steps[k] == cm[k]);
        } else if k < cm.len() + proj.len() {
            assert(steps[k] == proj[k - cm.len()]);
            if k < cm.len() + proj.len() - 1 {
                assert(proj[k - cm.len()] == resync::sources_steps(
                    dir,
                    pod,
                    srcs,
                    ps,
                    f.readings@,
                    n,
                )[k - cm.len()]);
            }
        } else {
            assert(steps[k] == fields[k - cm.len() - proj.len()]);
        }
    }
}

proof fn lemma_config_follows(dir: Seq<char>, v: Volume, f: VolumeFacts)
    ensures
        v.config_map matches Some(src) ==> {
            let steps = resync::resync_config_map(dir, src, f);
            &&& only_writes(steps)
            &&& f.config_map is Err || src.name is None ==> steps.len() == 0
            &&& f.config_map matches Ok(cm) ==> src.name is Some ==> disk::has_config_files(
                steps,
                dir,
                cm,
                src.items,
                None,
            )
        },
{
    if let Some(src) = v.config_map {
        if let Ok(cm) = f.config_map {
            if src.name is Some {
                let steps = resync::resync_config_map(dir, src, f);
                disk::lemma_config_steps(dir, cm, src.items, None, false, WriteHow::IfChanged);
                assert forall|k: int| 0 <= k < steps.len() implies (#[trigger] steps[k]) is Write by {
                    assert(disk::is_config_file(steps[k], dir, cm, src.items));
                }
            }
        }
    }
}

/// Bringing a config map volume up to date writes what the map now holds, and removes nothing;
/// where the map is not found the volume stays as it is.
pub proof fn law_a_config_map_volume_follows_its_map(
    base: Seq<char>,
    pod: Pod,
    v: Volume,
    f: VolumeFacts,
)
    requires
        v.secret is None,
        v.projected is None,
        v.downward_api is None,
        v.config_map is Some,
        v.config_map->0.name is Some,
    ensures
        ({
            let steps = resync::resync_volume(base, pod, v, f);
            let dir = disk::volume_dir(base, pod, v);
            &&& only_writes(steps)
            &&& f.config_map is Err ==> steps.len() == 0
            &&& f.config_map matches Ok(cm) ==> disk::has_config_files(
                steps,
                dir,
                cm,
                v.config_map->0.items,
                None,
            )
        }),
{
    let dir = disk::volume_dir(base, pod, v);
    lemma_config_follows(dir, v, f);
    assert(resync::resync_volume(base, pod, v, f) =~= resync::resync_config_map(
        dir,
        v.config_map->0,
        f,
    ));
}

/// The name of a file that a secret stands behind.
pub open spec fn is_secret_name(
    data: Option<Vec<(String, Vec<u8>)>>,
    items: Option<Vec<KeyToPath>>,
    name: Seq<char>,
) -> bool {
    data matches Some(d) && match items {
        Some(it) => exists|k: int|
            0 <= k < it@.len() && (#[trigger] it@[k]).path@ == name && api::lookup_bytes(
                d@,
                it@[k].key@,
            ) is Some,
        None => exists|k: int| 0 <= k < d@.len() && (#[trigger] d@[k]).0@ == name,
    }
}

proof fn lemma_item_names(data: Seq<(String, Vec<u8>)>, items: Seq<KeyToPath>, name: Seq<char>)
    ensures
        resync::item_names(data, items).contains(name) <==> exists|k: int|
            0 <= k < items.len() && (#[trigger] items[k]).path@ == name && api::lookup_bytes(
                data,
                items[k].key@,
            ) is Some,
    decreases items.len(),
{
    if items.len() > 0 {
        let short = items.drop_last();
        let before = resync::item_names(data, short);
        let now = resync::item_names(data, items);
        lemma_item_names(data, short, name);
        let n = items.len() - 1;
        if before.contains(name) {
            let k = choose|k: int|
                0 <= k < short.len() && (#[trigger] short[k]).path@ == name && api::lookup_bytes(
                    data,
                    short[k].key@,
                ) is Some;
            assert(items[k] == short[k]);
            let j = choose|j: int| 0 <= j < before.len() && before[j] == name;
            assert(now[j] == name);
        }
        if now.contains(name) && !before.contains(name) {
            let j = choose|j: int| 0 <= j < now.len() && now[j] == name;
            if j < before.len() {
                assert(before[j] == name);
            }
            assert(items[n as int].path@ == name);
        }
        if exists|k: int|
            0 <= k < items.len() && (#[trigger] items[k]).path@ == name && api::lookup_bytes(
                data,
                items[k].key@,
            ) is Some {
            let k = choose|k: int|
                0 <= k < items.len() && (#[trigger] items[k]).path@ == name && api::lookup_bytes(
                    data,
                    items[k].key@,
                ) is Some;
            if k < n {
                assert(short[k] == items[k]);
            } else {
                assert(now.last() == name);
            }
        }
    }
}

proof fn lemma_secret_names(
    data: Option<Vec<(String, Vec<u8>)>>,
    items: Option<Vec<KeyToPath>>,
    name: Seq<char>,
)
    ensures
        resync::secret_names(data, items).contains(name) <==> is_secret_name(data, items, name),
{
    if let Some(d) = data {
        match items {
            Some(it) => lemma_item_names(d@, it@, name),
            None => lemma_byte_keys(d@, name),
        }
    }
}

proof fn lemma_byte_keys(d: Seq<(String, Vec<u8>)>, name: Seq<char>)
    ensures
        resync::byte_keys(d).contains(name) <==> exists|k: int|
            0 <= k < d.len() && (#[trigger] d[k]).0@ == name,
{
    let keys = resync::byte_keys(d);
    assert forall|k: int| 0 <= k < d.len() implies keys[k] == (#[trigger] d[k]).0@ by {}
    if keys.contains(name) {
        let k = choose|k: int| 0 <= k < keys.len() && keys[k] == name;
        assert(d[k].0@ == name);
    }
}

proof fn lemma_text_keys(d: Seq<(String, String)>, name: Seq<char>)
    ensures
        resync::text_keys(d).contains(name) <==> exists|k: int|
            0 <= k < d.len() && (#[trigger] d[k]).0@ == name,
{
    let keys = resync::text_keys(d);
    assert forall|k: int| 0 <= k < d.len() implies keys[k] == (#[trigger] d[k]).0@ by {}
    if keys.contains(name) {
        let k = choose|k: int| 0 <= k < keys.len() && keys[k] == name;
        assert(d[k].0@ == name);
    }
}

/// Bringing a secret volume up to date writes what the secret now holds, and removes exactly
/// what it does not hold. Where the secret is gone, all goes, unless it is optional: then all
/// stays.
pub proof fn law_a_secret_volume_follows_its_secret(
    base: Seq<char>,
    pod: Pod,
    v: Volume,
    f: VolumeFacts,
    e: DirEntry,
)
    requires
        v.config_map is None,
        v.projected is None,
        v.downward_api is None,
        v.secret is Some,
        v.secret->0.secret_name is Some,
        e.name is Some,
    ensures
        ({
            let steps = resync::resync_volume(base, pod, v, f);
            let dir = disk::volume_dir(base, pod, v);
            let src = v.secret->0;
            &&& f.secret is Err && src.optional == Some(true) ==> steps.len() == 0
            &&& f.secret is Err && src.optional != Some(true) ==> steps == seq![
                StepView::RemoveAll(dir),
            ]
            &&& f.secret matches Ok(s) ==> {
                &&& s.data matches Some(d) ==> disk::has_secret_files(
                    steps,
                    dir,
                    d@,
                    src.items,
                    None,
                    None,
                )
                &&& is_secret_name(s.data, src.items, e.name->0@) ==> spares(steps, e)
                &&& !is_secret_name(s.data, src.items, e.name->0@) ==> drops(steps, e)
            }
        }),
{
    let steps = resync::resync_volume(base, pod, v, f);
    let dir = disk::volume_dir(base, pod, v);
    let src = v.secret->0;
    assert(steps =~= resync::resync_secret(dir, src, f));
    if let Ok(s) = f.secret {
        let writes = match s.data {
            Some(d) => volumes::secret_steps(
                dir,
                d@,
                src.items,
                None,
                None,
                WriteHow::IfChanged,
            ),
            None => Seq::empty(),
        };
        let keep = resync::secret_names(s.data, src.items);
        let last = StepView::RemoveNamesExcept { dir, keep };
        let none = Seq::<StepView>::empty();
        assert(steps =~= writes.push(last));
        assert(steps =~= none + writes + seq![last]);
        disk::lemma_more(none, writes, seq![last]);
        lemma_secret_names(s.data, src.items, e.name->0@);
        assert(steps[writes.len() as int] == last);
        if let Some(d) = s.data {
            disk::lemma_secret_steps(dir, d@, src.items, None, None, WriteHow::IfChanged);
            disk::lemma_more_secret(writes, steps, dir, d@, src.items, None, None);
            assert forall|k: int| 0 <= k < writes.len() implies !files::removes(
                #[trigger] steps[k],
                e,
            ) by {
                assert(steps[k] == writes[k]);
                assert(disk::is_secret_file(writes[k], dir, d@, src.items, None));
            }
        }
    }
}

/// Bringing a volume of fields up to date writes what each field now says, and removes
/// nothing.
pub proof fn law_a_volume_of_fields_follows_them(
    base: Seq<char>,
    pod: Pod,
    v: Volume,
    f: VolumeFacts,
)
    requires
        v.secret is None,
        v.config_map is None,
        v.projected is None,
        v.downward_api is Some,
        v.downward_api->0.items is Some,
    ensures
        ({
            let steps = resync::resync_volume(base, pod, v, f);
            let dir = disk::volume_dir(base, pod, v);
            let items = v.downward_api->0.items->0@;
            &&& only_writes(steps)
            &&& forall|k: int|
                0 <= k < items.len() ==> disk::puts(
                    steps,
                    dir + "/"@ + (#[trigger] items[k]).path@,
                    disk::told(pod, items[k], f.readings@),
                    None,
                )
        }),
{
    let dir = disk::volume_dir(base, pod, v);
    let items = v.downward_api->0.items->0@;
    lemma_field_writes(dir, pod, items, f.readings@, false, WriteHow::IfChanged);
    assert(resync::resync_volume(base, pod, v, f) =~= volumes::lenient_item_steps(
        dir,
        pod,
        items,
        None,
        f.readings@,
        false,
        WriteHow::IfChanged,
    ));
}

/// `part` stands as one piece in `whole`.
pub open spec fn is_part(part: Seq<StepView>, whole: Seq<StepView>) -> bool {
    exists|at: int|
        0 <= at && at + part.len() <= whole.len() && #[trigger] whole.subrange(
            at,
            at + part.len(),
        ) == part
}

proof fn lemma_part_of_sum(part: Seq<StepView>, a: Seq<StepView>, b: Seq<StepView>)
    ensures
        is_part(part, a) ==> is_part(part, a + b),
        is_part(b, a + b),
{
    if is_part(part, a) {
        let at = choose|at: int|
            0 <= at && at + part.len() <= a.len() && #[trigger] a.subrange(at, at + part.len())
                == part;
        assert((a + b).subrange(at, at + part.len()) =~= part);
    }
    let at = a.len() as int;
    assert((a + b).subrange(at, at + b.len()) =~= b);
}

/// Each volume of a pod is brought up to date, by its own steps and all of them; and each is
/// refreshed so.
pub proof fn law_every_volume_is_looked_after(
    base: Seq<char>,
    pod: Pod,
    vs: Seq<Volume>,
    fs: Seq<VolumeFacts>,
    n: nat,
    i: int,
)
    requires
        0 <= i < n,
    ensures
        is_part(
            resync::resync_volume(base, pod, vs[i], fs[i]),
            resync::resync_steps(base, pod, vs, fs, n),
        ),
        is_part(
            resync::refresh_volume(base, pod, i, vs[i], fs[i]),
            resync::refresh_steps(base, pod, vs, fs, n),
        ),
    decreases n,
{
    let m = (n - 1) as nat;
    lemma_part_of_sum(
        resync::resync_volume(base, pod, vs[i], fs[i]),
        resync::resync_steps(base, pod, vs, fs, m),
        resync::resync_volume(base, pod, vs[m as int], fs[m as int]),
    );
    lemma_part_of_sum(
        resync::refresh_volume(base, pod, i, vs[i], fs[i]),
        resync::refresh_steps(base, pod, vs, fs, m),
        resync::refresh_volume(base, pod, m as int, vs[m as int], fs[m as int]),
    );
    if i < m {
        law_every_volume_is_looked_after(base, pod, vs, fs, m, i);
    }
}

/// Refreshing a secret volume writes what the secret now holds. Where it shows all keys, what
/// is neither a key, nor the CA certificate, nor `..data` goes; where it shows items, nothing
/// goes. A secret that is gone takes all with it if it is optional.
pub proof fn law_a_refreshed_secret_volume_follows_its_secret(
    base: Seq<char>,
    pod: Pod,
    position: int,
    v: Volume,
    f: VolumeFacts,
    e: DirEntry,
)
    requires
        v.config_map is None,
        v.projected is None,
        v.secret is Some,
        v.secret->0.secret_name is Some,
        e.name is Some,
    ensures
        ({
            let steps = resync::refresh_volume(base, pod, position, v, f);
            let dir = disk::volume_dir(base, pod, v);
            let src = v.secret->0;
            let name = e.name->0@;
            &&& steps.len() > 0 && steps[0] == StepView::MakeDir(dir)
            &&& f.secret is Err && src.optional == Some(true) ==> drops(steps, e)
            &&& f.secret is Err && src.optional != Some(true) ==> spares(steps, e)
            &&& f.secret matches Ok(s) ==> (s.data matches Some(d) ==> {
                &&& disk::has_secret_files(steps, dir, d@, src.items, None, None)
                &&& src.items is Some || is_secret_name(s.data, None, name) || name == "..data"@ || name
                    == "ca.crt"@ ==> spares(steps, e)
                &&& src.items is None && !is_secret_name(s.data, None, name) && name != "..data"@
                    && name != "ca.crt"@ ==> drops(steps, e)
            })
        }),
{
    let steps = resync::refresh_volume(base, pod, position, v, f);
    let dir = disk::volume_dir(base, pod, v);
    let src = v.secret->0;
    let name = e.name->0@;
    assert(steps =~= resync::refresh_secret(dir, src, f));
    let how = WriteHow::SwapIfChanged;
    let make = seq![StepView::MakeDir(dir)];
    let none = Seq::<StepView>::empty();
    if let Ok(s) = f.secret {
        if let Some(d) = s.data {
            match src.items {
                Some(it) => {
                    let writes = volumes::secret_item_steps(dir, d@, it@, None, None, false, how);
                    disk::lemma_secret_items(dir, d@, it@, None, None, false, how);
                    assert(disk::has_secret_files(writes, dir, d@, src.items, None, None));
                    assert(steps =~= make + writes + none);
                    disk::lemma_more(make, writes, none);
                    disk::lemma_more_secret(writes, steps, dir, d@, src.items, None, None);
                    assert forall|k: int| 0 <= k < steps.len() implies !files::removes(
                        #[trigger] steps[k],
                        e,
                    ) by {
                        if k > 0 {
                            assert(steps[k] == writes[k - 1]);
                        }
                    }
                },
                None => {
                    let writes = volumes::byte_steps(dir, d@, None, None, false, how);
                    lemma_byte_writes(dir, d@, false, how);
                    assert(disk::has_secret_files(writes, dir, d@, src.items, None, None));
                    let extra = seq!["..data"@, "ca.crt"@];
                    let keep = resync::byte_keys(d@) + extra;
                    let last = StepView::RemoveNamesExcept { dir, keep };
                    assert(steps =~= make + writes + seq![last]);
                    disk::lemma_more(make, writes, seq![last]);
                    disk::lemma_more_secret(writes, steps, dir, d@, src.items, None, None);
                    lemma_byte_keys(d@, name);
                    lemma_contains_joined(resync::byte_keys(d@), extra, name);
                    assert(extra[0] == "..data"@ && extra[1] == "ca.crt"@);
                    assert(extra.contains(name) <==> name == extra[0] || name == extra[1]);
                    assert(steps[writes.len() as int + 1] == last);
                    assert forall|k: int| 0 <= k < steps.len() - 1 implies !files::removes(
                        #[trigger] steps[k],
                        e,
                    ) by {
                        if k > 0 {
                            assert(steps[k] == writes[k - 1]);
                        }
                    }
                },
            }
        }
    } else if src.optional == Some(true) {
        assert(files::removes(steps[1], e));
    }
}

/// Refreshing a config map volume writes what the texts of the map now say. Where it shows all
/// keys, what is neither a key nor `..data` goes; where it shows items, nothing goes. A map
/// that is gone takes all with it if it is optional.
pub proof fn law_a_refreshed_config_map_volume_follows_its_map(
    base: Seq<char>,
    pod: Pod,
    position: int,
    v: Volume,
    f: VolumeFacts,
    e: DirEntry,
)
    requires
        v.secret is None,
        v.projected is None,
        v.config_map is Some,
        v.config_map->0.name is Some,
        e.name is Some,
    ensures
        ({
            let steps = resync::refresh_volume(base, pod, position, v, f);
            let dir = disk::volume_dir(base, pod, v);
            let src = v.config_map->0;
            let name = e.name->0@;
            &&& steps.len() > 0 && steps[0] == StepView::MakeDir(dir)
            &&& f.config_map is Err && src.optional == Some(true) ==> drops(steps, e)
            &&& f.config_map is Err && src.optional != Some(true) ==> spares(steps, e)
            &&& f.config_map matches Ok(cm) ==> (cm.data matches Some(d) ==> {
                let known = exists|k: int| 0 <= k < d@.len() && (#[trigger] d@[k]).0@ == name;
                &&& src.items matches Some(it) ==> forall|k: int|
                    0 <= k < it@.len() && api::opt_lookup(
                        cm.data,
                        (#[trigger] it@[k]).key@,
                    ) is Some ==> disk::puts(
                        steps,
                        dir + "/"@ + it@[k].path@,
                        encode_utf8(api::opt_lookup(cm.data, it@[k].key@)->0),
                        None,
                    )
                &&& src.items is None ==> forall|k: int|
                    0 <= k < d@.len() ==> disk::puts(
                        steps,
                        dir + "/"@ + (#[trigger] d@[k]).0@,
                        encode_utf8(d@[k].1@),
                        None,
                    )
                &&& src.items is Some || known || name == "..data"@ ==> spares(steps, e)
                &&& src.items is None && !known && name != "..data"@ ==> drops(steps, e)
            })
        }),
{
    let steps = resync::refresh_volume(base, pod, position, v, f);
    let dir = disk::volume_dir(base, pod, v);
    let src = v.config_map->0;
    let name = e.name->0@;
    assert(steps =~= resync::refresh_config_map(dir, src, f));
    let how = WriteHow::SwapIfChanged;
    let make = seq![StepView::MakeDir(dir)];
    let none = Seq::<StepView>::empty();
    if let Ok(cm) = f.config_map {
        if let Some(d) = cm.data {
            match src.items {
                Some(it) => {
                    let writes = resync::text_item_steps(dir, cm.data, it@, false, how);
                    lemma_text_items(dir, cm.data, it@, false, how);
                    assert(steps =~= make + writes + none);
                    disk::lemma_more(make, writes, none);
                    assert forall|k: int| 0 <= k < steps.len() implies !files::removes(
                        #[trigger] steps[k],
                        e,
                    ) by {
                        if k > 0 {
                            assert(steps[k] == writes[k - 1]);
                        }
                    }
                },
                None => {
                    let writes = volumes::text_steps(dir, d@, None, false, how);
                    lemma_text_writes(dir, d@, None, false, how);
                    let extra = seq!["..data"@];
                    let keep = resync::text_keys(d@) + extra;
                    let last = StepView::RemoveNamesExcept { dir, keep };
                    assert(steps =~= make + writes + seq![last]);
                    disk::lemma_more(make, writes, seq![last]);
                    lemma_text_keys(d@, name);
                    lemma_contains_joined(resync::text_keys(d@), extra, name);
                    assert(extra[0] == "..data"@);
                    assert(extra.contains(name) <==> name == extra[0]);
                    assert(steps[writes.len() as int + 1] == last);
                    assert forall|k: int| 0 <= k < steps.len() - 1 implies !files::removes(
                        #[trigger] steps[k],
                        e,
                    ) by {
                        if k > 0 {
                            assert(steps[k] == writes[k - 1]);
                        }
                    }
                },
            }
        }
    } else if src.optional == Some(true) {
        assert(files::removes(steps[1], e));
    }
}

proof fn lemma_rotations(
    dir: Seq<char>,
    volume: int,
    srcs: Seq<VolumeProjection>,
    n: nat,
    step: StepView,
)
    ensures
        resync::rotations(dir, volume, srcs, n).contains(step) <==> exists|i: int|
            0 <= i < n && rotates(step, dir, volume, i, #[trigger] srcs[i]),
    decreases n,
{
    if n > 0 {
        let m = (n - 1) as nat;
        let before = resync::rotations(dir, volume, srcs, m);
        let now = resync::rotations(dir, volume, srcs, n);
        lemma_rotations(dir, volume, srcs, m, step);
        if before.contains(step) {
            let i = choose|i: int| 0 <= i < m && rotates(step, dir, volume, i, #[trigger] srcs[i]);
            assert(rotates(step, dir, volume, i, srcs[i]));
            let j = choose|j: int| 0 <= j < before.len() && before[j] == step;
            assert(now[j] == step);
        } else if now.contains(step) {
            let j = choose|j: int| 0 <= j < now.len() && now[j] == step;
            if j < before.len() {
                assert(before[j] == step);
            }
            assert(rotates(step, dir, volume, m as int, srcs[m as int]));
        }
        if exists|i: int| 0 <= i < n && rotates(step, dir, volume, i, #[trigger] srcs[i]) {
            let i = choose|i: int| 0 <= i < n && rotates(step, dir, volume, i, #[trigger] srcs[i]);
            if i == m {
                assert(now.last() == step);
            }
        }
    }
}

/// The step replaces the token of a source that is about to expire, an hour being its lifetime
/// where it sets none.
pub open spec fn rotates(
    step: StepView,
    dir: Seq<char>,
    volume: int,
    source: int,
    src: VolumeProjection,
) -> bool {
    src.service_account_token matches Some(t) && step matches StepView::RotateToken {
        path,
        expiration_seconds,
        volume: v,
        source: s,
    } && path == dir + "/"@ + t.path@ && v == volume && s == source && (
    t.expiration_seconds is Some ==> expiration_seconds == t.expiration_seconds->0) && (
    t.expiration_seconds is None ==> expiration_seconds == 3600)
}

/// Refreshing a projected volume looks after each of its tokens, where it is and for as long
/// as it lives, and does nothing else.
pub proof fn law_every_token_is_rotated(
    base: Seq<char>,
    pod: Pod,
    position: int,
    v: Volume,
    f: VolumeFacts,
    step: StepView,
)
    requires
        v.secret is None,
        v.config_map is None,
        v.projected is Some,
        v.projected->0.sources is Some,
    ensures
        resync::refresh_volume(base, pod, position, v, f).contains(step) <==> exists|i: int|
            0 <= i < v.projected->0.sources->0@.len() && rotates(
                step,
                disk::volume_dir(base, pod, v),
                position,
                i,
                #[trigger] v.projected->0.sources->0@[i],
            ),
{
    let dir = disk::volume_dir(base, pod, v);
    let srcs = v.projected->0.sources->0@;
    assert(resync::refresh_volume(base, pod, position, v, f) =~= resync::rotations(
        dir,
        position,
        srcs,
        srcs.len(),
    ));
    lemma_rotations(dir, position, srcs, srcs.len(), step);
}

/// The volumes that are looked after are those that the pod's description lists, all of them.
pub proof fn law_all_listed_volumes_are_looked_after(pod: Pod)
    ensures
        pod.spec is Some && pod.spec->0.volumes is Some ==> resync::volumes_of(pod) == Some(
            pod.spec->0.volumes->0@,
        ),
        pod.spec is None || pod.spec->0.volumes is None ==> resync::volumes_of(pod) is None,
{
}

} // verus!
