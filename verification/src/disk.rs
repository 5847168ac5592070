//! A model of the file system: what it holds once the steps that the library decides on have
//! been carried out.

use crate::api;
use crate::api::{ConfigMap, DownwardAPIVolumeFile, KeyToPath, Pod, Volume, VolumeProjection};
use crate::downward;
use crate::expand;
use crate::files;
use crate::text;
use crate::volumes;
use crate::volumes::{ProjectionFacts, StepView, VolumeFacts, WriteHow};
use vstd::prelude::*;
use vstd::string::*;
use vstd::utf8::*;

verus! {

/// The files of a file system with what they hold, and its directories with their modes.
#[verifier::ext_equal]
pub ghost struct Disk {
    pub files: Map<Seq<char>, Seq<u8>>,
    pub dirs: Map<Seq<char>, u32>,
}

/// What the file at `path` holds, where there is one.
pub open spec fn content(d: Disk, path: Seq<char>) -> Option<Seq<u8>> {
    if d.files.contains_key(path) {
        Some(d.files[path])
    } else {
        None
    }
}

/// The bytes are written to the file at `path`.
pub open spec fn written(d: Disk, path: Seq<char>, bytes: Seq<u8>) -> Disk {
    Disk { files: d.files.insert(path, bytes), ..d }
}

/// The file at `from` is renamed to `to`, in the place of the one that is there.
pub open spec fn renamed(d: Disk, from: Seq<char>, to: Seq<char>) -> Disk {
    Disk { files: d.files.insert(to, d.files[from]).remove(from), ..d }
}

/// The bytes are written to `target`, where there is one, which is then renamed to `path`.
pub open spec fn swapped_in(
    d: Disk,
    path: Seq<char>,
    target: Option<Seq<char>>,
    bytes: Seq<u8>,
) -> Disk {
    match target {
        Some(t) => renamed(written(d, t, bytes), t, path),
        None => d,
    }
}

/// Once a file has been written if it changed, it holds the bytes and no temporary file is
/// left beside it; every other file is as it was. One that held the bytes before is not
/// written at all, so writing once more changes nothing.
pub proof fn law_a_written_file_holds_its_content(
    d: Disk,
    path: Seq<char>,
    contents: Seq<u8>,
    pid: u32,
)
    requires
        !d.files.contains_key(files::temporary_path(path, pid)),
    ensures
        ({
            let target = files::write_target(path, content(d, path), contents, pid);
            let after = swapped_in(d, path, target, contents);
            let again = files::write_target(path, content(after, path), contents, pid);
            &&& content(after, path) == Some(contents)
            &&& !after.files.contains_key(files::temporary_path(path, pid))
            &&& content(d, path) == Some(contents) ==> target is None && after == d
            &&& again is None
            &&& swapped_in(after, path, again, contents) == after
            &&& forall|other: Seq<char>|
                other != path ==> #[trigger] content(after, other) == content(d, other)
        }),
{
    files::law_the_temporary_file_is_another(path, pid);
}

/// `p` is a directory above `path`.
pub open spec fn is_above(p: Seq<char>, path: Seq<char>) -> bool {
    p.len() > 0 && text::begins(path, p + "/"@)
}

/// The directory at `path` and those above it are made where they are missing, with the mode
/// `fresh`.
pub open spec fn dir_made(d: Disk, path: Seq<char>, fresh: u32) -> Disk {
    Disk {
        dirs: Map::new(
            |p: Seq<char>| d.dirs.contains_key(p) || p == path || is_above(p, path),
            |p: Seq<char>|
                if d.dirs.contains_key(p) {
                    d.dirs[p]
                } else {
                    fresh
                },
        ),
        ..d
    }
}

/// The directory at `path` gets the mode.
pub open spec fn mode_set(d: Disk, path: Seq<char>, mode: u32) -> Disk {
    Disk { dirs: d.dirs.insert(path, mode), ..d }
}

/// The steps make directories and set their modes, and nothing else.
pub open spec fn only_directories(steps: Seq<StepView>) -> bool {
    forall|i: int|
        0 <= i < steps.len() ==> (#[trigger] steps[i]) is MakeDir || steps[i] is SetMode
}

/// The file system after steps that make directories and set their modes, where a directory
/// is made with the mode `fresh`.
pub open spec fn directories_after(d: Disk, steps: Seq<StepView>, fresh: u32) -> Disk
    recommends
        only_directories(steps),
    decreases steps.len(),
{
    if steps.len() == 0 {
        d
    } else {
        let before = directories_after(d, steps.drop_last(), fresh);
        match steps.last() {
            StepView::MakeDir(path) => dir_made(before, path, fresh),
            StepView::SetMode(path, mode) => mode_set(before, path, mode),
            _ => before,
        }
    }
}

/// An empty directory ends up there, with all directories above it, and with a mode that
/// lets anyone write to it, whether it was missing or had another mode, and whatever mode
/// new directories get. Making it once more changes nothing.
pub proof fn law_an_empty_dir_is_open_to_all(d: Disk, dir: Seq<char>, fresh: u32)
    ensures
        ({
            let steps = volumes::empty_dir_steps(dir);
            let after = directories_after(d, steps, fresh);
            &&& only_directories(steps)
            &&& after.dirs.contains_key(dir)
            &&& after.dirs[dir] & 0o7777 == 0o777
            &&& forall|p: Seq<char>| #[trigger] is_above(p, dir) ==> after.dirs.contains_key(p)
            &&& forall|p: Seq<char>|
                p != dir && #[trigger] d.dirs.contains_key(p) ==> after.dirs.contains_key(p)
                    && after.dirs[p] == d.dirs[p]
            &&& after.files == d.files
            &&& directories_after(after, steps, fresh) == after
        }),
{
    let steps = volumes::empty_dir_steps(dir);
    assert(0o777u32 & 0o7777 == 0o777) by (bit_vector);
    lemma_two_steps(d, dir, fresh);
    let after = directories_after(d, steps, fresh);
    lemma_two_steps(after, dir, fresh);
    assert(mode_set(dir_made(after, dir, fresh), dir, 0o777).dirs =~= after.dirs);
}

proof fn lemma_two_steps(d: Disk, dir: Seq<char>, fresh: u32)
    ensures
        directories_after(d, volumes::empty_dir_steps(dir), fresh) == mode_set(
            dir_made(d, dir, fresh),
            dir,
            0o777,
        ),
{
    let steps = volumes::empty_dir_steps(dir);
    let first = steps.drop_last();
    assert(first == seq![StepView::MakeDir(dir)]);
    assert(first.drop_last() == Seq::<StepView>::empty());
    assert(directories_after(d, first.drop_last(), fresh) == d);
    assert(directories_after(d, first, fresh) == dir_made(d, dir, fresh));
}

/// The step writes the bytes to the file at `path` and gives it the mode where there is one.
pub open spec fn step_puts(s: StepView, path: Seq<char>, bytes: Seq<u8>, mode: Option<u32>) -> bool {
    s matches StepView::Write { path: p, content: c, mode: m, .. } && p == path && c == bytes && m
        == mode
}

/// One of the steps writes the bytes to the file at `path` and gives it the mode.
pub open spec fn puts(
    steps: Seq<StepView>,
    path: Seq<char>,
    bytes: Seq<u8>,
    mode: Option<u32>,
) -> bool {
    exists|i: int| 0 <= i < steps.len() && step_puts(#[trigger] steps[i], path, bytes, mode)
}

/// The steps of two lists are those of both.
proof fn lemma_puts_joined(
    a: Seq<StepView>,
    b: Seq<StepView>,
    path: Seq<char>,
    bytes: Seq<u8>,
    mode: Option<u32>,
)
    ensures
        puts(a, path, bytes, mode) ==> puts(a + b, path, bytes, mode),
        puts(b, path, bytes, mode) ==> puts(a + b, path, bytes, mode),
{
    if puts(a, path, bytes, mode) {
        let i = choose|i: int| 0 <= i < a.len() && step_puts(#[trigger] a[i], path, bytes, mode);
        assert((a + b)[i] == a[i]);
    }
    if puts(b, path, bytes, mode) {
        let i = choose|i: int| 0 <= i < b.len() && step_puts(#[trigger] b[i], path, bytes, mode);
        assert((a + b)[a.len() + i] == b[i]);
    }
}

proof fn lemma_puts_pushed(
    a: Seq<StepView>,
    s: StepView,
    path: Seq<char>,
    bytes: Seq<u8>,
    mode: Option<u32>,
)
    ensures
        puts(a, path, bytes, mode) ==> puts(a.push(s), path, bytes, mode),
        step_puts(s, path, bytes, mode) ==> puts(a.push(s), path, bytes, mode),
{
    if puts(a, path, bytes, mode) {
        let i = choose|i: int| 0 <= i < a.len() && step_puts(#[trigger] a[i], path, bytes, mode);
        assert(a.push(s)[i] == a[i]);
    }
    assert(a.push(s)[a.len() as int] == s);
}

/// The mode that a file is given: its own or else that of its volume, none where the volume
/// gives none.
pub open spec fn given_mode(own: Option<i32>, default: Option<i32>) -> Option<u32> {
    if default is None {
        None
    } else if own is Some {
        Some(own->0 as u32)
    } else {
        Some(default->0 as u32)
    }
}

/// A key of a config map holds the bytes: as a text, or as binary data where no text has the
/// key.
pub open spec fn config_holds(cm: ConfigMap, key: Seq<char>, bytes: Seq<u8>) -> bool {
    ||| api::opt_lookup(cm.data, key) matches Some(t) && bytes == encode_utf8(t)
    ||| api::opt_lookup(cm.data, key) is None && api::opt_lookup_bytes(cm.binary_data, key) == Some(
        bytes,
    )
}

/// A config map's files are there: for each item whose key the map has, or for each of its
/// keys where no items are given.
pub open spec fn has_config_files(
    steps: Seq<StepView>,
    dir: Seq<char>,
    cm: ConfigMap,
    items: Option<Vec<KeyToPath>>,
    default: Option<i32>,
) -> bool {
    &&& items matches Some(it) ==> forall|i: int, b: Seq<u8>|
        0 <= i < it@.len() && config_holds(cm, (#[trigger] it@[i]).key@, b) ==> #[trigger] puts(
            steps,
            dir + "/"@ + it@[i].path@,
            b,
            given_mode(it@[i].mode, default),
        )
    &&& items is None ==> (cm.data matches Some(d) ==> forall|i: int|
        0 <= i < d@.len() ==> puts(
            steps,
            dir + "/"@ + (#[trigger] d@[i]).0@,
            encode_utf8(d@[i].1@),
            given_mode(None, default),
        ))
    &&& items is None ==> (cm.binary_data matches Some(d) ==> forall|i: int|
        0 <= i < d@.len() ==> puts(
            steps,
            dir + "/"@ + (#[trigger] d@[i]).0@,
            d@[i].1@,
            given_mode(None, default),
        ))
}

/// The step writes a file that a config map stands behind.
pub open spec fn is_config_file(
    s: StepView,
    dir: Seq<char>,
    cm: ConfigMap,
    items: Option<Vec<KeyToPath>>,
) -> bool {
    s matches StepView::Write { path, content, .. } && match items {
        Some(it) => exists|i: int|
            0 <= i < it@.len() && path == dir + "/"@ + (#[trigger] it@[i]).path@ && config_holds(
                cm,
                it@[i].key@,
                content,
            ),
        None => {
            ||| cm.data matches Some(d) && exists|i: int|
                0 <= i < d@.len() && path == dir + "/"@ + (#[trigger] d@[i]).0@ && content
                    == encode_utf8(d@[i].1@)
            ||| cm.binary_data matches Some(d) && exists|i: int|
                0 <= i < d@.len() && path == dir + "/"@ + (#[trigger] d@[i]).0@ && content
                    == d@[i].1@
        },
    }
}

pub proof fn lemma_text_steps(
    dir: Seq<char>,
    data: Seq<(String, String)>,
    mode: Option<u32>,
    make_parent: bool,
    how: WriteHow,
)
    ensures
        ({
            let steps = volumes::text_steps(dir, data, mode, make_parent, how);
            &&& steps.len() == data.len()
            &&& forall|i: int|
                0 <= i < steps.len() ==> step_puts(
                    #[trigger] steps[i],
                    dir + "/"@ + data[i].0@,
                    encode_utf8(data[i].1@),
                    mode,
                )
            &&& forall|i: int|
                0 <= i < data.len() ==> puts(
                    steps,
                    dir + "/"@ + (#[trigger] data[i]).0@,
                    encode_utf8(data[i].1@),
                    mode,
                )
        }),
    decreases data.len(),
{
    let steps = volumes::text_steps(dir, data, mode, make_parent, how);
    if data.len() > 0 {
        lemma_text_steps(dir, data.drop_last(), mode, make_parent, how);
        assert forall|i: int| 0 <= i < steps.len() implies step_puts(
            #[trigger] steps[i],
            dir + "/"@ + data[i].0@,
            encode_utf8(data[i].1@),
            mode,
        ) by {
            if i < data.len() - 1 {
                let before = volumes::text_steps(dir, data.drop_last(), mode, make_parent, how);
                assert(steps[i] == before[i]);
                assert(data.drop_last()[i] == data[i]);
            }
        }
    }
    assert forall|i: int| 0 <= i < data.len() implies puts(
        steps,
        dir + "/"@ + (#[trigger] data[i]).0@,
        encode_utf8(data[i].1@),
        mode,
    ) by {
        assert(step_puts(steps[i], dir + "/"@ + data[i].0@, encode_utf8(data[i].1@), mode));
    }
}

/// What is written for a key of a secret: the token minted for the pod in place of the key
/// `token`, where there is one.
pub open spec fn secret_holds(
    key: Seq<char>,
    value: Seq<u8>,
    token: Option<Seq<char>>,
    bytes: Seq<u8>,
) -> bool {
    if key == "token"@ && token is Some {
        bytes == encode_utf8(token->0)
    } else {
        bytes == value
    }
}

pub proof fn lemma_byte_steps(
    dir: Seq<char>,
    data: Seq<(String, Vec<u8>)>,
    token: Option<Seq<char>>,
    mode: Option<u32>,
    make_parent: bool,
    how: WriteHow,
)
    ensures
        ({
            let steps = volumes::byte_steps(dir, data, token, mode, make_parent, how);
            &&& steps.len() == data.len()
            &&& forall|i: int|
                0 <= i < steps.len() ==> step_puts(
                    #[trigger] steps[i],
                    dir + "/"@ + data[i].0@,
                    volumes::with_token(data[i].0@, data[i].1@, token),
                    mode,
                )
            &&& forall|i: int|
                0 <= i < data.len() ==> puts(
                    steps,
                    dir + "/"@ + (#[trigger] data[i]).0@,
                    volumes::with_token(data[i].0@, data[i].1@, token),
                    mode,
                )
        }),
    decreases data.len(),
{
    let steps = volumes::byte_steps(dir, data, token, mode, make_parent, how);
    if data.len() > 0 {
        lemma_byte_steps(dir, data.drop_last(), token, mode, make_parent, how);
        assert forall|i: int| 0 <= i < steps.len() implies step_puts(
            #[trigger] steps[i],
            dir + "/"@ + data[i].0@,
            volumes::with_token(data[i].0@, data[i].1@, token),
            mode,
        ) by {
            if i < data.len() - 1 {
                let before = volumes::byte_steps(
                    dir,
                    data.drop_last(),
                    token,
                    mode,
                    make_parent,
                    how,
                );
                assert(steps[i] == before[i]);
                assert(data.drop_last()[i] == data[i]);
            }
        }
    }
    assert forall|i: int| 0 <= i < data.len() implies puts(
        steps,
        dir + "/"@ + (#[trigger] data[i]).0@,
        volumes::with_token(data[i].0@, data[i].1@, token),
        mode,
    ) by {
        assert(step_puts(
            steps[i],
            dir + "/"@ + data[i].0@,
            volumes::with_token(data[i].0@, data[i].1@, token),
            mode,
        ));
    }
}

proof fn lemma_config_items(
    dir: Seq<char>,
    cm: ConfigMap,
    items: Seq<KeyToPath>,
    default: Option<i32>,
    how: WriteHow,
)
    ensures
        ({
            let steps = volumes::config_item_steps(dir, cm, items, default, how);
            &&& forall|i: int, b: Seq<u8>|
                0 <= i < items.len() && config_holds(cm, (#[trigger] items[i]).key@, b)
                    ==> #[trigger] puts(
                    steps,
                    dir + "/"@ + items[i].path@,
                    b,
                    given_mode(items[i].mode, default),
                )
            &&& forall|k: int|
                0 <= k < steps.len() ==> (#[trigger] steps[k]) is Write && exists|i: int|
                    0 <= i < items.len() && steps[k]->Write_path == dir + "/"@ + (
                    #[trigger] items[i]).path@ && config_holds(
                        cm,
                        items[i].key@,
                        steps[k]->Write_content,
                    )
        }),
    decreases items.len(),
{
    let steps = volumes::config_item_steps(dir, cm, items, default, how);
    if items.len() > 0 {
        let n = items.len() - 1;
        let before = volumes::config_item_steps(dir, cm, items.drop_last(), default, how);
        lemma_config_items(dir, cm, items.drop_last(), default, how);
        assert forall|i: int, b: Seq<u8>|
            0 <= i < items.len() && config_holds(
                cm,
                (#[trigger] items[i]).key@,
                b,
            ) implies #[trigger] puts(
            steps,
            dir + "/"@ + items[i].path@,
            b,
            given_mode(items[i].mode, default),
        ) by {
            let path = dir + "/"@ + items[i].path@;
            let mode = given_mode(items[i].mode, default);
            if i < n {
                assert(items.drop_last()[i] == items[i]);
                assert(puts(before, path, b, mode));
                if steps != before {
                    lemma_puts_pushed(before, steps.last(), path, b, mode);
                    assert(steps == before.push(steps.last()));
                }
            } else {
                lemma_puts_pushed(before, steps.last(), path, b, mode);
                assert(steps == before.push(steps.last()));
                assert(step_puts(steps.last(), path, b, mode));
            }
        }
        assert forall|k: int| 0 <= k < steps.len() implies (#[trigger] steps[k]) is Write
            && exists|i: int|
            0 <= i < items.len() && steps[k]->Write_path == dir + "/"@ + (#[trigger] items[i]).path@
                && config_holds(cm, items[i].key@, steps[k]->Write_content) by {
            if k < before.len() {
                assert(steps[k] == before[k]);
                let i = choose|i: int|
                    0 <= i < n && before[k]->Write_path == dir + "/"@ + (
                    #[trigger] items.drop_last()[i]).path@ && config_holds(
                        cm,
                        items.drop_last()[i].key@,
                        before[k]->Write_content,
                    );
                assert(items.drop_last()[i] == items[i]);
            } else {
                assert(items[n as int] == items.last());
            }
        }
    }
}

pub proof fn lemma_config_steps(
    dir: Seq<char>,
    cm: ConfigMap,
    items: Option<Vec<KeyToPath>>,
    default: Option<i32>,
    parents: bool,
    how: WriteHow,
)
    ensures
        ({
            let steps = volumes::config_steps(dir, cm, items, default, parents, how);
            &&& has_config_files(steps, dir, cm, items, default)
            &&& forall|k: int|
                0 <= k < steps.len() ==> is_config_file(#[trigger] steps[k], dir, cm, items)
        }),
{
    let steps = volumes::config_steps(dir, cm, items, default, parents, how);
    match items {
        Some(it) => {
            lemma_config_items(dir, cm, it@, default, how);
        },
        None => {
            let mode = given_mode(None, default);
            let texts = match cm.data {
                Some(d) => volumes::text_steps(dir, d@, mode, parents, how),
                None => Seq::empty(),
            };
            let bytes = match cm.binary_data {
                Some(d) => volumes::byte_steps(dir, d@, None, mode, parents, how),
                None => Seq::empty(),
            };
            assert(steps == texts + bytes);
            if let Some(d) = cm.data {
                lemma_text_steps(dir, d@, mode, parents, how);
                assert forall|i: int| 0 <= i < d@.len() implies puts(
                    steps,
                    dir + "/"@ + (#[trigger] d@[i]).0@,
                    encode_utf8(d@[i].1@),
                    mode,
                ) by {
                    lemma_puts_joined(
                        texts,
                        bytes,
                        dir + "/"@ + d@[i].0@,
                        encode_utf8(d@[i].1@),
                        mode,
                    );
                }
            }
            if let Some(d) = cm.binary_data {
                lemma_byte_steps(dir, d@, None, mode, parents, how);
                assert forall|i: int| 0 <= i < d@.len() implies puts(
                    steps,
                    dir + "/"@ + (#[trigger] d@[i]).0@,
                    d@[i].1@,
                    mode,
                ) by {
                    lemma_puts_joined(texts, bytes, dir + "/"@ + d@[i].0@, d@[i].1@, mode);
                }
            }
            assert forall|k: int| 0 <= k < steps.len() implies is_config_file(
                #[trigger] steps[k],
                dir,
                cm,
                items,
            ) by {
                if k < texts.len() {
                    assert(steps[k] == texts[k]);
                    let d = cm.data->0@;
                    assert(step_puts(
                        texts[k],
                        dir + "/"@ + d[k].0@,
                        encode_utf8(d[k].1@),
                        mode,
                    ));
                } else {
                    let j = k - texts.len();
                    assert(steps[k] == bytes[j]);
                    let d = cm.binary_data->0@;
                    assert(step_puts(bytes[j], dir + "/"@ + d[j].0@, d[j].1@, mode));
                }
            }
        },
    }
}

/// The directory of a volume of a pod.
pub open spec fn volume_dir(base: Seq<char>, pod: Pod, v: Volume) -> Seq<char> {
    base + "/"@ + pod.metadata.name@ + "/"@ + v.name@
}

/// The mode of the files of a volume that sets none is 0644.
pub open spec fn files_mode(default: Option<i32>) -> i32 {
    if default is Some {
        default->0
    } else {
        0o644
    }
}

/// The steps begin by making the directory and end by opening it to all who may use files of
/// the mode.
pub open spec fn frames_dir(steps: Seq<StepView>, dir: Seq<char>, default: Option<i32>) -> bool {
    &&& steps.len() >= 2
    &&& steps[0] == StepView::MakeDir(dir)
    &&& steps.last() == StepView::SetMode(dir, (files_mode(default) as u32) | 0o111)
}

/// A config map volume whose map was found is made: there is a file with its content for each
/// item whose key the map has, or for each key of the map where no items are given, and no
/// other file.
pub proof fn law_a_config_map_volume_holds_its_map(
    base: Seq<char>,
    pod: Pod,
    v: Volume,
    f: VolumeFacts,
)
    requires
        v.empty_dir is None,
        v.host_path is None,
        v.config_map is Some,
        v.config_map->0.name is Some,
        f.storage,
        f.config_map is Ok,
    ensures
        ({
            let plan = volumes::volume_plan(base, pod, v, f);
            let dir = volume_dir(base, pod, v);
            let src = v.config_map->0;
            let cm = f.config_map->Ok_0;
            &&& plan.outcome == Ok::<Seq<char>, Seq<char>>(dir)
            &&& frames_dir(plan.steps, dir, src.default_mode)
            &&& has_config_files(
                plan.steps,
                dir,
                cm,
                src.items,
                Some(files_mode(src.default_mode)),
            )
            &&& forall|k: int|
                0 < k < plan.steps.len() - 1 ==> is_config_file(
                    #[trigger] plan.steps[k],
                    dir,
                    cm,
                    src.items,
                )
        }),
{
    let plan = volumes::volume_plan(base, pod, v, f);
    let dir = volume_dir(base, pod, v);
    let src = v.config_map->0;
    let cm = f.config_map->Ok_0;
    let default = Some(files_mode(src.default_mode));
    let make = seq![StepView::MakeDir(dir)];
    let files = volumes::config_steps(dir, cm, src.items, default, true, WriteHow::Always);
    let done = seq![StepView::SetMode(dir, volumes::dir_mode(src.default_mode))];
    assert(plan.steps == make + files + done);
    lemma_config_steps(dir, cm, src.items, default, true, WriteHow::Always);
    lemma_config_files_kept(make, files, done, dir, cm, src.items, default);
    assert forall|k: int| 0 < k < plan.steps.len() - 1 implies is_config_file(
        #[trigger] plan.steps[k],
        dir,
        cm,
        src.items,
    ) by {
        assert(plan.steps[k] == files[k - 1]);
    }
}

proof fn lemma_config_files_kept(
    a: Seq<StepView>,
    files: Seq<StepView>,
    b: Seq<StepView>,
    dir: Seq<char>,
    cm: ConfigMap,
    items: Option<Vec<KeyToPath>>,
    default: Option<i32>,
)
    requires
        has_config_files(files, dir, cm, items, default),
    ensures
        has_config_files(a + files + b, dir, cm, items, default),
{
    let steps = a + files + b;
    assert forall|path: Seq<char>, bytes: Seq<u8>, mode: Option<u32>|
        puts(files, path, bytes, mode) implies #[trigger] puts(steps, path, bytes, mode) by {
        lemma_puts_joined(a, files, path, bytes, mode);
        lemma_puts_joined(a + files, b, path, bytes, mode);
    }
    match items {
        Some(it) => {
            assert forall|i: int, bytes: Seq<u8>|
                0 <= i < it@.len() && config_holds(
                    cm,
                    (#[trigger] it@[i]).key@,
                    bytes,
                ) implies #[trigger] puts(
                steps,
                dir + "/"@ + it@[i].path@,
                bytes,
                given_mode(it@[i].mode, default),
            ) by {
                assert(puts(
                    files,
                    dir + "/"@ + it@[i].path@,
                    bytes,
                    given_mode(it@[i].mode, default),
                ));
            }
        },
        None => {},
    }
}

/// A secret's files are there: for each item whose key the secret has, or for each of its
/// keys where no items are given.
pub open spec fn has_secret_files(
    steps: Seq<StepView>,
    dir: Seq<char>,
    data: Seq<(String, Vec<u8>)>,
    items: Option<Vec<KeyToPath>>,
    token: Option<Seq<char>>,
    default: Option<i32>,
) -> bool {
    &&& items matches Some(it) ==> forall|i: int, v: Seq<u8>, b: Seq<u8>|
        0 <= i < it@.len() && api::lookup_bytes(data, (#[trigger] it@[i]).key@) == Some(v)
            && #[trigger] secret_holds(it@[i].key@, v, token, b) ==> puts(
            steps,
            dir + "/"@ + it@[i].path@,
            b,
            given_mode(it@[i].mode, default),
        )
    &&& items is None ==> forall|i: int, b: Seq<u8>|
        0 <= i < data.len() && #[trigger] secret_holds(
            (#[trigger] data[i]).0@,
            data[i].1@,
            token,
            b,
        ) ==> puts(steps, dir + "/"@ + data[i].0@, b, given_mode(None, default))
}

/// The step writes a file that a secret stands behind.
pub open spec fn is_secret_file(
    s: StepView,
    dir: Seq<char>,
    data: Seq<(String, Vec<u8>)>,
    items: Option<Vec<KeyToPath>>,
    token: Option<Seq<char>>,
) -> bool {
    s matches StepView::Write { path, content, .. } && match items {
        Some(it) => exists|i: int|
            0 <= i < it@.len() && path == dir + "/"@ + (#[trigger] it@[i]).path@
                && api::lookup_bytes(data, it@[i].key@) is Some && secret_holds(
                it@[i].key@,
                api::lookup_bytes(data, it@[i].key@)->0,
                token,
                content,
            ),
        None => exists|i: int|
            0 <= i < data.len() && path == dir + "/"@ + (#[trigger] data[i]).0@ && secret_holds(
                data[i].0@,
                data[i].1@,
                token,
                content,
            ),
    }
}

pub proof fn lemma_secret_items(
    dir: Seq<char>,
    data: Seq<(String, Vec<u8>)>,
    items: Seq<KeyToPath>,
    token: Option<Seq<char>>,
    default: Option<i32>,
    make_parent: bool,
    how: WriteHow,
)
    ensures
        ({
            let steps = volumes::secret_item_steps(
                dir,
                data,
                items,
                token,
                default,
                make_parent,
                how,
            );
            &&& forall|i: int, v: Seq<u8>, b: Seq<u8>|
                0 <= i < items.len() && api::lookup_bytes(data, (#[trigger] items[i]).key@) == Some(
                    v,
                ) && #[trigger] secret_holds(items[i].key@, v, token, b) ==> puts(
                    steps,
                    dir + "/"@ + items[i].path@,
                    b,
                    given_mode(items[i].mode, default),
                )
            &&& forall|k: int|
                0 <= k < steps.len() ==> (#[trigger] steps[k]) is Write && exists|i: int|
                    0 <= i < items.len() && steps[k]->Write_path == dir + "/"@ + (
                    #[trigger] items[i]).path@ && api::lookup_bytes(data, items[i].key@) is Some
                        && secret_holds(
                        items[i].key@,
                        api::lookup_bytes(data, items[i].key@)->0,
                        token,
                        steps[k]->Write_content,
                    )
        }),
    decreases items.len(),
{
    let steps = volumes::secret_item_steps(dir, data, items, token, default, make_parent, how);
    if items.len() > 0 {
        let n = items.len() - 1;
        let before = volumes::secret_item_steps(
            dir,
            data,
            items.drop_last(),
            token,
            default,
            make_parent,
            how,
        );
        lemma_secret_items(dir, data, items.drop_last(), token, default, make_parent, how);
        assert forall|i: int, v: Seq<u8>, b: Seq<u8>|
            0 <= i < items.len() && api::lookup_bytes(data, (#[trigger] items[i]).key@) == Some(v)
                && #[trigger] secret_holds(items[i].key@, v, token, b) implies puts(
            steps,
            dir + "/"@ + items[i].path@,
            b,
            given_mode(items[i].mode, default),
        ) by {
            let path = dir + "/"@ + items[i].path@;
            let mode = given_mode(items[i].mode, default);
            if i < n {
                assert(items.drop_last()[i] == items[i]);
                assert(puts(before, path, b, mode));
                if steps != before {
                    lemma_puts_pushed(before, steps.last(), path, b, mode);
                    assert(steps == before.push(steps.last()));
                }
            } else {
                lemma_puts_pushed(before, steps.last(), path, b, mode);
                assert(steps == before.push(steps.last()));
                assert(step_puts(steps.last(), path, b, mode));
            }
        }
        assert forall|k: int| 0 <= k < steps.len() implies (#[trigger] steps[k]) is Write
            && exists|i: int|
            0 <= i < items.len() && steps[k]->Write_path == dir + "/"@ + (#[trigger] items[i]).path@
                && api::lookup_bytes(data, items[i].key@) is Some && secret_holds(
                items[i].key@,
                api::lookup_bytes(data, items[i].key@)->0,
                token,
                steps[k]->Write_content,
            ) by {
            if k < before.len() {
                assert(steps[k] == before[k]);
                let i = choose|i: int|
                    0 <= i < n && before[k]->Write_path == dir + "/"@ + (
                    #[trigger] items.drop_last()[i]).path@ && api::lookup_bytes(
                        data,
                        items.drop_last()[i].key@,
                    ) is Some && secret_holds(
                        items.drop_last()[i].key@,
                        api::lookup_bytes(data, items.drop_last()[i].key@)->0,
                        token,
                        before[k]->Write_content,
                    );
                assert(items.drop_last()[i] == items[i]);
            } else {
                assert(items[n as int] == items.last());
            }
        }
    }
}

pub proof fn lemma_secret_steps(
    dir: Seq<char>,
    data: Seq<(String, Vec<u8>)>,
    items: Option<Vec<KeyToPath>>,
    token: Option<Seq<char>>,
    default: Option<i32>,
    how: WriteHow,
)
    ensures
        ({
            let steps = volumes::secret_steps(dir, data, items, token, default, how);
            &&& has_secret_files(steps, dir, data, items, token, default)
            &&& forall|k: int|
                0 <= k < steps.len() ==> is_secret_file(
                    #[trigger] steps[k],
                    dir,
                    data,
                    items,
                    token,
                )
        }),
{
    let steps = volumes::secret_steps(dir, data, items, token, default, how);
    match items {
        Some(it) => {
            lemma_secret_items(dir, data, it@, token, default, true, how);
        },
        None => {
            let mode = given_mode(None, default);
            lemma_byte_steps(dir, data, token, mode, false, how);
            assert forall|k: int| 0 <= k < steps.len() implies is_secret_file(
                #[trigger] steps[k],
                dir,
                data,
                items,
                token,
            ) by {
                assert(step_puts(
                    steps[k],
                    dir + "/"@ + data[k].0@,
                    volumes::with_token(data[k].0@, data[k].1@, token),
                    mode,
                ));
            }
        },
    }
}

proof fn lemma_secret_files_kept(
    a: Seq<StepView>,
    files: Seq<StepView>,
    b: Seq<StepView>,
    dir: Seq<char>,
    data: Seq<(String, Vec<u8>)>,
    items: Option<Vec<KeyToPath>>,
    token: Option<Seq<char>>,
    default: Option<i32>,
)
    requires
        has_secret_files(files, dir, data, items, token, default),
    ensures
        has_secret_files(a + files + b, dir, data, items, token, default),
{
    let steps = a + files + b;
    assert forall|path: Seq<char>, bytes: Seq<u8>, mode: Option<u32>|
        puts(files, path, bytes, mode) implies #[trigger] puts(steps, path, bytes, mode) by {
        lemma_puts_joined(a, files, path, bytes, mode);
        lemma_puts_joined(a + files, b, path, bytes, mode);
    }
}

/// The data of a secret has the key.
pub open spec fn secret_has(data: Option<Vec<(String, Vec<u8>)>>, key: Seq<char>) -> bool {
    data matches Some(d) && api::lookup_bytes(d@, key) is Some
}

/// A secret volume whose secret was found is made: there is a file with its content for each
/// item whose key the secret has, or for each key where no items are given, and no other file
/// but the CA certificate, which is put beside a token that comes without one. The token
/// minted for the pod takes the place of the secret's where the volume is one of tokens, and
/// nowhere else.
pub proof fn law_a_secret_volume_holds_its_secret(
    base: Seq<char>,
    pod: Pod,
    v: Volume,
    f: VolumeFacts,
)
    requires
        v.empty_dir is None,
        v.host_path is None,
        v.config_map is None,
        v.secret is Some,
        v.secret->0.secret_name is Some,
        f.storage,
        f.secret is Ok,
    ensures
        ({
            let plan = volumes::volume_plan(base, pod, v, f);
            let dir = volume_dir(base, pod, v);
            let src = v.secret->0;
            let name = src.secret_name->0@;
            let data = f.secret->Ok_0.data;
            let of_tokens = text::has(v.name@, "kube-api-access"@) || text::ends(name, "-token"@);
            let token = if of_tokens && f.bound_token is Some {
                Some(f.bound_token->0@)
            } else {
                None
            };
            let ca = StepView::PutCaCert(dir + "/ca.crt"@);
            &&& plan.outcome == Ok::<Seq<char>, Seq<char>>(dir)
            &&& frames_dir(plan.steps, dir, src.default_mode)
            &&& data is Some ==> has_secret_files(
                plan.steps,
                dir,
                data->0@,
                src.items,
                token,
                Some(files_mode(src.default_mode)),
            )
            &&& (plan.steps.contains(ca) <==> (secret_has(data, "token"@) || text::ends(
                name,
                "-token"@,
            )) && !secret_has(data, "ca.crt"@))
            &&& forall|k: int|
                0 < k < plan.steps.len() - 1 ==> (#[trigger] plan.steps[k]) == ca || data is Some
                    && is_secret_file(plan.steps[k], dir, data->0@, src.items, token)
        }),
{
    let plan = volumes::volume_plan(base, pod, v, f);
    let dir = volume_dir(base, pod, v);
    let src = v.secret->0;
    let name = src.secret_name->0@;
    let data = f.secret->Ok_0.data;
    let token = if volumes::is_token_volume(v.name@, name) {
        text::opt_text(f.bound_token)
    } else {
        None
    };
    let default = Some(files_mode(src.default_mode));
    let make = seq![StepView::MakeDir(dir)];
    let files = match data {
        Some(d) => volumes::secret_steps(dir, d@, src.items, token, default, WriteHow::Always),
        None => Seq::empty(),
    };
    let cert = StepView::PutCaCert(volumes::in_dir(dir, "ca.crt"@));
    reveal_strlit("/");
    reveal_strlit("ca.crt");
    reveal_strlit("/ca.crt");
    assert(volumes::in_dir(dir, "ca.crt"@) =~= dir + "/ca.crt"@);
    let wanted = volumes::wants_ca_cert(name, volumes::secret_data(f.secret));
    let ca = if wanted {
        seq![cert]
    } else {
        Seq::empty()
    };
    let done = ca + seq![StepView::SetMode(dir, volumes::dir_mode(src.default_mode))];
    assert(plan.steps =~= make + files + done);
    if let Some(d) = data {
        lemma_secret_steps(dir, d@, src.items, token, default, WriteHow::Always);
        lemma_secret_files_kept(make, files, done, dir, d@, src.items, token, default);
    }
    assert forall|k: int| 0 < k < plan.steps.len() - 1 implies (#[trigger] plan.steps[k]) == cert
        || data is Some && is_secret_file(plan.steps[k], dir, data->0@, src.items, token) by {
        if k - 1 < files.len() {
            assert(plan.steps[k] == files[k - 1]);
        } else {
            assert(plan.steps[k] == ca[k - 1 - files.len()]);
        }
    }
    if wanted {
        assert(plan.steps[1 + files.len() as int] == cert);
    } else if plan.steps.contains(cert) {
        let k = choose|k: int| 0 <= k < plan.steps.len() && plan.steps[k] == cert;
        if 0 < k < plan.steps.len() - 1 {
            assert(plan.steps[k] == files[k - 1]);
            assert(is_secret_file(files[k - 1], dir, data->0@, src.items, token));
        }
    }
}

/// A config map or secret that is not there makes its volume fail, and leaves it empty where
/// it is optional; without a name, or without storage to look it up in, the volume fails.
pub proof fn law_what_is_missing_fails_unless_optional(
    base: Seq<char>,
    pod: Pod,
    v: Volume,
    f: VolumeFacts,
)
    requires
        v.empty_dir is None,
        v.host_path is None,
        v.config_map is Some || v.secret is Some,
    ensures
        ({
            let plan = volumes::volume_plan(base, pod, v, f);
            let dir = volume_dir(base, pod, v);
            &&& !f.storage ==> plan.outcome is Err
            &&& v.config_map matches Some(src) ==> {
                &&& src.name is None ==> plan.outcome is Err
                &&& f.config_map is Err && src.optional != Some(true) ==> plan.outcome is Err
                &&& f.config_map is Err && src.optional == Some(true) && f.storage && src.name is Some
                    ==> plan.outcome == Ok::<Seq<char>, Seq<char>>(dir) && plan.steps.len() == 2
                    && frames_dir(plan.steps, dir, src.default_mode)
            }
            &&& v.config_map is None ==> (v.secret matches Some(src) ==> {
                &&& src.secret_name is None ==> plan.outcome is Err
                &&& f.secret is Err && src.optional != Some(true) ==> plan.outcome is Err
                &&& f.secret is Err && src.optional == Some(true) && f.storage
                    && src.secret_name is Some ==> plan.outcome == Ok::<Seq<char>, Seq<char>>(dir)
                    && frames_dir(plan.steps, dir, src.default_mode) && forall|k: int|
                    0 <= k < plan.steps.len() ==> !((#[trigger] plan.steps[k]) is Write)
            })
        }),
{
}

/// A claim's volume is where its claim was bound to: at the host path of the volume whose name
/// the claim carries, which is there once the plan is carried out. It fails where there is no
/// storage, no claim, no volume of that name, or no place on the host.
pub proof fn law_a_claim_leads_to_its_volume(base: Seq<char>, pod: Pod, v: Volume, f: VolumeFacts)
    requires
        v.empty_dir is None,
        v.host_path is None,
        v.config_map is None,
        v.secret is None,
        v.persistent_volume_claim is Some,
    ensures
        ({
            let plan = volumes::volume_plan(base, pod, v, f);
            let bound = f.storage && f.claim.volume_name is Some && f.claim.volume_name->0 is Some
                && f.claim.volume_name->0->0@.len() > 0 && f.claim.volume is Some
                && f.claim.volume->0.host_path is Some;
            &&& bound ==> {
                let path = f.claim.volume->0.host_path->0@;
                &&& plan.outcome == Ok::<Seq<char>, Seq<char>>(path)
                &&& plan.steps == seq![StepView::MakeDir(path)]
            }
            &&& !bound ==> plan.outcome is Err && plan.steps.len() == 0
        }),
{
}

/// An ephemeral volume is at the host path of the volume that its claim is bound to, and fails
/// where it is not bound to one that has such a path.
pub proof fn law_an_ephemeral_volume_leads_to_its_claims_volume(
    base: Seq<char>,
    pod: Pod,
    v: Volume,
    f: VolumeFacts,
)
    requires
        volumes::kind_of(v) == volumes::SourceKind::Ephemeral,
    ensures
        ({
            let plan = volumes::volume_plan(base, pod, v, f);
            let bound = f.storage && f.claim.volume_name is Some && f.claim.volume_name->0 is Some
                && f.claim.volume_name->0->0@.len() > 0 && f.claim.volume is Some
                && f.claim.volume->0.host_path is Some;
            &&& plan.steps.len() == 0
            &&& bound ==> plan.outcome == Ok::<Seq<char>, Seq<char>>(
                f.claim.volume->0.host_path->0@,
            )
            &&& !bound ==> plan.outcome is Err
        }),
{
}

/// An empty directory, and a volume of a kind that is not known, is its own directory among
/// the pod's; a host path is that path with its variables replaced, and is made where it asks
/// for that.
pub proof fn law_plain_directories_are_where_they_are_asked_for(
    base: Seq<char>,
    pod: Pod,
    v: Volume,
    f: VolumeFacts,
)
    ensures
        ({
            let plan = volumes::volume_plan(base, pod, v, f);
            let dir = volume_dir(base, pod, v);
            &&& v.empty_dir is Some ==> plan.outcome == Ok::<Seq<char>, Seq<char>>(dir)
                && plan.steps.contains(StepView::MakeDir(dir)) && plan.steps.last()
                == StepView::SetMode(dir, 0o777)
            &&& v.empty_dir is None ==> (v.host_path matches Some(h) ==> {
                let path = expand::host_path_expansion(h.path@, api::pair_texts(f.process_env@));
                &&& path is Some ==> plan.outcome == Ok::<Seq<char>, Seq<char>>(path->0)
                &&& !h.path@.contains('$') ==> plan.outcome == Ok::<Seq<char>, Seq<char>>(h.path@)
                &&& (plan.steps.len() > 0 <==> text::opt_text(h.type_) == Some(
                    "DirectoryOrCreate"@,
                ))
                &&& plan.steps.len() > 0 && path is Some ==> plan.steps == seq![
                    StepView::MakeDir(path->0),
                ]
            })
            &&& v.empty_dir is None && v.host_path is None && v.config_map is None && v.secret is None
                && v.persistent_volume_claim is None && v.downward_api is None && v.ephemeral is None
                && v.projected is None ==> plan.outcome == Ok::<Seq<char>, Seq<char>>(dir)
                && plan.steps == seq![StepView::MakeDir(dir)]
        }),
{
    let plan = volumes::volume_plan(base, pod, v, f);
    let dir = volume_dir(base, pod, v);
    if v.empty_dir is Some {
        assert(plan.steps[0] == StepView::MakeDir(dir));
    } else if let Some(h) = v.host_path {
        if !h.path@.contains('$') {
            expand::law_paths_without_references_stay(h.path@, api::pair_texts(f.process_env@));
        }
    }
}

/// What an item of fields says: the pod's field, or else the container's resource.
pub open spec fn says(
    pod: Pod,
    item: DownwardAPIVolumeFile,
    readings: Seq<(String, i64)>,
) -> Result<Seq<char>, Seq<char>> {
    if item.field_ref is Some {
        downward::field_value(pod, item.field_ref->0.field_path@)
    } else if item.resource_field_ref is Some {
        downward::resource_value(pod, item.resource_field_ref->0, readings)
    } else {
        volumes::item_value(pod, item, readings)
    }
}

proof fn lemma_items_up_to(
    dir: Seq<char>,
    pod: Pod,
    items: Seq<DownwardAPIVolumeFile>,
    default: i32,
    readings: Seq<(String, i64)>,
    k: int,
)
    requires
        0 <= k < items.len(),
        forall|i: int| 0 <= i < k ==> says(pod, #[trigger] items[i], readings) is Ok,
    ensures
        ({
            let (steps, failure) = volumes::strict_item_steps(dir, pod, items, default, readings);
            let said = says(pod, items[k], readings);
            &&& said is Ok ==> puts(
                steps,
                dir + "/"@ + items[k].path@,
                encode_utf8(said->Ok_0),
                given_mode(items[k].mode, Some(default)),
            )
            &&& said is Err ==> failure == Some(said->Err_0)
            &&& said is Ok && k == items.len() - 1 ==> failure is None
        }),
    decreases items.len(),
{
    let (steps, failure) = volumes::strict_item_steps(dir, pod, items, default, readings);
    let n = items.len() - 1;
    let short = items.drop_last();
    let (before, early) = volumes::strict_item_steps(dir, pod, short, default, readings);
    let said = says(pod, items[k], readings);
    assert(items.last() == items[n as int]);
    assert forall|i: int| 0 <= i < k implies says(pod, #[trigger] short[i], readings) is Ok by {
        assert(short[i] == items[i]);
    }
    let path = dir + "/"@ + items[k].path@;
    let mode = given_mode(items[k].mode, Some(default));
    if k < n {
        assert(short[k] == items[k]);
        lemma_items_up_to(dir, pod, short, default, readings, k);
        if said is Ok && steps != before {
            lemma_puts_pushed(before, steps.last(), path, encode_utf8(said->Ok_0), mode);
            assert(steps == before.push(steps.last()));
        }
    } else {
        if n > 0 {
            lemma_items_up_to(dir, pod, short, default, readings, n - 1);
        }
        assert(early is None);
        assert(said == volumes::item_value(pod, items.last(), readings));
        if said is Ok {
            lemma_puts_pushed(before, steps.last(), path, encode_utf8(said->Ok_0), mode);
            assert(steps == before.push(steps.last()));
            assert(step_puts(steps.last(), path, encode_utf8(said->Ok_0), mode));
        }
    }
}

proof fn lemma_fields(
    dir: Seq<char>,
    pod: Pod,
    src: api::DownwardAPIVolumeSource,
    items: Seq<DownwardAPIVolumeFile>,
    f: VolumeFacts,
    k: int,
)
    requires
        src.items is Some,
        src.items->0@ == items,
        0 <= k < items.len(),
        forall|i: int| 0 <= i < k ==> says(pod, #[trigger] items[i], f.readings@) is Ok,
    ensures
        ({
            let plan = volumes::downward_plan(dir, pod, src, f);
            let said = says(pod, items[k], f.readings@);
            &&& said matches Ok(t) ==> puts(
                plan.steps,
                dir + "/"@ + items[k].path@,
                encode_utf8(t),
                given_mode(items[k].mode, Some(files_mode(src.default_mode))),
            )
            &&& said is Err ==> plan.outcome == said
            &&& k == items.len() - 1 && said is Ok ==> plan.outcome == Ok::<Seq<char>, Seq<char>>(
                dir,
            ) && frames_dir(plan.steps, dir, src.default_mode)
        }),
{
    let default = files_mode(src.default_mode);
    let said = says(pod, items[k], f.readings@);
    let (files, failure) = volumes::strict_item_steps(dir, pod, items, default, f.readings@);
    lemma_items_up_to(dir, pod, items, default, f.readings@, k);
    let make = seq![StepView::MakeDir(dir)];
    let done = seq![StepView::SetMode(dir, volumes::dir_mode(src.default_mode))];
    if let Ok(t) = said {
        let path = dir + "/"@ + items[k].path@;
        let mode = given_mode(items[k].mode, Some(default));
        assert(puts(files, path, encode_utf8(t), mode));
        lemma_puts_joined(make, files, path, encode_utf8(t), mode);
        lemma_puts_joined(make + files, done, path, encode_utf8(t), mode);
    }
}

/// A volume of fields holds a file for each item, with what the item says; the first item that
/// says nothing makes the volume fail, for that item's reason.
pub proof fn law_a_volume_of_fields_tells_them(
    base: Seq<char>,
    pod: Pod,
    v: Volume,
    f: VolumeFacts,
    k: int,
)
    requires
        v.empty_dir is None,
        v.host_path is None,
        v.config_map is None,
        v.secret is None,
        v.persistent_volume_claim is None,
        v.downward_api is Some,
        v.downward_api->0.items is Some,
        0 <= k < v.downward_api->0.items->0@.len(),
        forall|i: int|
            0 <= i < k ==> says(pod, #[trigger] v.downward_api->0.items->0@[i], f.readings@) is Ok,
    ensures
        ({
            let plan = volumes::volume_plan(base, pod, v, f);
            let dir = volume_dir(base, pod, v);
            let src = v.downward_api->0;
            let items = src.items->0@;
            let said = says(pod, items[k], f.readings@);
            &&& said matches Ok(t) ==> puts(
                plan.steps,
                dir + "/"@ + items[k].path@,
                encode_utf8(t),
                given_mode(items[k].mode, Some(files_mode(src.default_mode))),
            )
            &&& said is Err ==> plan.outcome == said
            &&& k == items.len() - 1 && said is Ok ==> plan.outcome == Ok::<Seq<char>, Seq<char>>(
                dir,
            ) && frames_dir(plan.steps, dir, src.default_mode)
        }),
{
    let dir = volume_dir(base, pod, v);
    let src = v.downward_api->0;
    let items = src.items->0@;
    assert(volumes::volume_plan(base, pod, v, f) == volumes::downward_plan(dir, pod, src, f));
    assert forall|i: int| 0 <= i < k implies says(pod, #[trigger] items[i], f.readings@) is Ok by {
        assert(says(pod, v.downward_api->0.items->0@[i], f.readings@) is Ok);
    }
    lemma_fields(dir, pod, src, items, f, k);
}

pub proof fn lemma_lenient_items(
    dir: Seq<char>,
    pod: Pod,
    items: Seq<DownwardAPIVolumeFile>,
    default: Option<i32>,
    readings: Seq<(String, i64)>,
    make_parent: bool,
    how: WriteHow,
    k: int,
)
    requires
        0 <= k < items.len(),
    ensures
        puts(
            volumes::lenient_item_steps(dir, pod, items, default, readings, make_parent, how),
            dir + "/"@ + items[k].path@,
            told(pod, items[k], readings),
            given_mode(items[k].mode, default),
        ),
    decreases items.len(),
{
    let short = items.drop_last();
    let before = volumes::lenient_item_steps(dir, pod, short, default, readings, make_parent, how);
    let steps = volumes::lenient_item_steps(dir, pod, items, default, readings, make_parent, how);
    let path = dir + "/"@ + items[k].path@;
    let mode = given_mode(items[k].mode, default);
    assert(steps == before.push(steps.last()));
    lemma_puts_pushed(before, steps.last(), path, told(pod, items[k], readings), mode);
    if k < items.len() - 1 {
        assert(short[k] == items[k]);
        lemma_lenient_items(dir, pod, short, default, readings, make_parent, how, k);
    } else {
        assert(step_puts(steps.last(), path, told(pod, items[k], readings), mode));
    }
}

/// What the file of an item of fields holds: what the item says, nothing where it cannot say
/// anything.
pub open spec fn told(pod: Pod, item: DownwardAPIVolumeFile, readings: Seq<(String, i64)>) -> Seq<u8> {
    match says(pod, item, readings) {
        Ok(t) => encode_utf8(t),
        Err(_) => encode_utf8(Seq::<char>::empty()),
    }
}

/// The files of one source of a projected volume are there: those of the config map and the
/// secret that it names, where they were found, one for each field, and the token.
pub open spec fn has_source_files(
    steps: Seq<StepView>,
    dir: Seq<char>,
    pod: Pod,
    storage: bool,
    src: VolumeProjection,
    p: ProjectionFacts,
    default: i32,
    readings: Seq<(String, i64)>,
) -> bool {
    &&& storage && src.config_map is Some && src.config_map->0.name is Some && p.config_map is Some
        ==> has_config_files(steps, dir, p.config_map->0, src.config_map->0.items, Some(default))
    &&& storage && src.secret is Some && src.secret->0.name is Some && p.secret is Some
        && p.secret->0.data is Some ==> has_secret_files(
        steps,
        dir,
        p.secret->0.data->0@,
        src.secret->0.items,
        None,
        Some(default),
    )
    &&& src.downward_api is Some && src.downward_api->0.items is Some ==> forall|k: int|
        0 <= k < src.downward_api->0.items->0@.len() ==> puts(
            steps,
            dir + "/"@ + (#[trigger] src.downward_api->0.items->0@[k]).path@,
            told(pod, src.downward_api->0.items->0@[k], readings),
            given_mode(src.downward_api->0.items->0@[k].mode, Some(default)),
        )
    &&& src.service_account_token matches Some(t) ==> puts(
        steps,
        dir + "/"@ + t.path@,
        encode_utf8(p.token@),
        Some(default as u32),
    )
}

/// Files that some steps put are put by more steps too.
pub open spec fn puts_more(few: Seq<StepView>, many: Seq<StepView>) -> bool {
    forall|path: Seq<char>, bytes: Seq<u8>, mode: Option<u32>|
        puts(few, path, bytes, mode) ==> #[trigger] puts(many, path, bytes, mode)
}

pub proof fn lemma_more(a: Seq<StepView>, files: Seq<StepView>, b: Seq<StepView>)
    ensures
        puts_more(files, a + files + b),
{
    assert forall|path: Seq<char>, bytes: Seq<u8>, mode: Option<u32>|
        puts(files, path, bytes, mode) implies #[trigger] puts(
        a + files + b,
        path,
        bytes,
        mode,
    ) by {
        lemma_puts_joined(a, files, path, bytes, mode);
        lemma_puts_joined(a + files, b, path, bytes, mode);
    }
}

proof fn lemma_more_config(
    few: Seq<StepView>,
    many: Seq<StepView>,
    dir: Seq<char>,
    cm: ConfigMap,
    items: Option<Vec<KeyToPath>>,
    default: Option<i32>,
)
    requires
        puts_more(few, many),
        has_config_files(few, dir, cm, items, default),
    ensures
        has_config_files(many, dir, cm, items, default),
{
    match items {
        Some(it) => {
            assert forall|i: int, bytes: Seq<u8>|
                0 <= i < it@.len() && config_holds(
                    cm,
                    (#[trigger] it@[i]).key@,
                    bytes,
                ) implies #[trigger] puts(
                many,
                dir + "/"@ + it@[i].path@,
                bytes,
                given_mode(it@[i].mode, default),
            ) by {
                assert(puts(
                    few,
                    dir + "/"@ + it@[i].path@,
                    bytes,
                    given_mode(it@[i].mode, default),
                ));
            }
        },
        None => {},
    }
}

pub proof fn lemma_more_secret(
    few: Seq<StepView>,
    many: Seq<StepView>,
    dir: Seq<char>,
    data: Seq<(String, Vec<u8>)>,
    items: Option<Vec<KeyToPath>>,
    token: Option<Seq<char>>,
    default: Option<i32>,
)
    requires
        puts_more(few, many),
        has_secret_files(few, dir, data, items, token, default),
    ensures
        has_secret_files(many, dir, data, items, token, default),
{
}

proof fn lemma_more_sources(
    few: Seq<StepView>,
    many: Seq<StepView>,
    dir: Seq<char>,
    pod: Pod,
    storage: bool,
    src: VolumeProjection,
    p: ProjectionFacts,
    default: i32,
    readings: Seq<(String, i64)>,
)
    requires
        puts_more(few, many),
        has_source_files(few, dir, pod, storage, src, p, default, readings),
    ensures
        has_source_files(many, dir, pod, storage, src, p, default, readings),
{
    if storage && src.config_map is Some && src.config_map->0.name is Some && p.config_map is Some {
        lemma_more_config(
            few,
            many,
            dir,
            p.config_map->0,
            src.config_map->0.items,
            Some(default),
        );
    }
    if storage && src.secret is Some && src.secret->0.name is Some && p.secret is Some
        && p.secret->0.data is Some {
        lemma_more_secret(
            few,
            many,
            dir,
            p.secret->0.data->0@,
            src.secret->0.items,
            None,
            Some(default),
        );
    }
}

proof fn lemma_projection(
    dir: Seq<char>,
    pod: Pod,
    storage: bool,
    src: VolumeProjection,
    p: ProjectionFacts,
    default: i32,
    readings: Seq<(String, i64)>,
)
    ensures
        has_source_files(
            volumes::projection_steps(dir, pod, storage, src, p, default, readings),
            dir,
            pod,
            storage,
            src,
            p,
            default,
            readings,
        ),
{
    let how = WriteHow::Always;
    let some = Some(default);
    let cm = match (src.config_map, p.config_map) {
        (Some(s), Some(m)) if storage && s.name is Some => volumes::config_steps(
            dir,
            m,
            s.items,
            some,
            true,
            how,
        ),
        _ => Seq::empty(),
    };
    let sec = match (src.secret, p.secret) {
        (Some(s), Some(m)) if storage && s.name is Some && m.data is Some => volumes::secret_steps(
            dir,
            m.data->0@,
            s.items,
            None,
            some,
            how,
        ),
        _ => Seq::empty(),
    };
    let fields = match src.downward_api {
        Some(d) if d.items is Some => volumes::lenient_item_steps(
            dir,
            pod,
            d.items->0@,
            some,
            readings,
            true,
            how,
        ),
        _ => Seq::empty(),
    };
    let steps = volumes::projection_steps(dir, pod, storage, src, p, default, readings);
    let token = steps.skip((cm + sec + fields).len() as int);
    let none = Seq::<StepView>::empty();
    assert(steps =~= cm + sec + fields + token);
    assert(steps =~= none + cm + (sec + fields + token));
    assert(steps =~= cm + sec + (fields + token));
    assert(steps =~= (cm + sec) + fields + token);
    assert(steps =~= (cm + sec + fields) + token + none);
    lemma_more(none, cm, sec + fields + token);
    lemma_more(cm, sec, fields + token);
    lemma_more(cm + sec, fields, token);
    lemma_more(cm + sec + fields, token, none);
    if storage && src.config_map is Some && src.config_map->0.name is Some && p.config_map is Some {
        lemma_config_steps(dir, p.config_map->0, src.config_map->0.items, some, true, how);
        lemma_more_config(cm, steps, dir, p.config_map->0, src.config_map->0.items, some);
    }
    if storage && src.secret is Some && src.secret->0.name is Some && p.secret is Some
        && p.secret->0.data is Some {
        let data = p.secret->0.data->0@;
        lemma_secret_steps(dir, data, src.secret->0.items, None, some, how);
        lemma_more_secret(sec, steps, dir, data, src.secret->0.items, None, some);
    }
    if src.downward_api is Some && src.downward_api->0.items is Some {
        let items = src.downward_api->0.items->0@;
        assert forall|k: int| 0 <= k < items.len() implies puts(
            steps,
            dir + "/"@ + (#[trigger] items[k]).path@,
            told(pod, items[k], readings),
            given_mode(items[k].mode, some),
        ) by {
            lemma_lenient_items(dir, pod, items, some, readings, true, how, k);
            assert(puts(
                fields,
                dir + "/"@ + items[k].path@,
                told(pod, items[k], readings),
                given_mode(items[k].mode, some),
            ));
        }
    }
    if let Some(t) = src.service_account_token {
        let path = dir + "/"@ + t.path@;
        assert(token.len() == 1);
        assert(step_puts(token[0], path, encode_utf8(p.token@), Some(default as u32)));
        assert(puts(token, path, encode_utf8(p.token@), Some(default as u32)));
    }
}

proof fn lemma_projections(
    dir: Seq<char>,
    pod: Pod,
    storage: bool,
    srcs: Seq<VolumeProjection>,
    ps: Seq<ProjectionFacts>,
    default: i32,
    readings: Seq<(String, i64)>,
    n: nat,
    i: int,
)
    requires
        0 <= i < n,
    ensures
        has_source_files(
            volumes::projections_steps(dir, pod, storage, srcs, ps, default, readings, n),
            dir,
            pod,
            storage,
            srcs[i],
            ps[i],
            default,
            readings,
        ),
    decreases n,
{
    let m = (n - 1) as nat;
    let before = volumes::projections_steps(dir, pod, storage, srcs, ps, default, readings, m);
    let last = volumes::projection_steps(
        dir,
        pod,
        storage,
        srcs[n - 1],
        ps[n - 1],
        default,
        readings,
    );
    let none = Seq::<StepView>::empty();
    assert(before + last =~= none + before + last);
    assert(before + last =~= before + last + none);
    lemma_more(none, before, last);
    lemma_more(before, last, none);
    if i < n - 1 {
        lemma_projections(dir, pod, storage, srcs, ps, default, readings, m, i);
        lemma_more_sources(
            before,
            before + last,
            dir,
            pod,
            storage,
            srcs[i],
            ps[i],
            default,
            readings,
        );
    } else {
        lemma_projection(dir, pod, storage, srcs[i], ps[i], default, readings);
        lemma_more_sources(
            last,
            before + last,
            dir,
            pod,
            storage,
            srcs[i],
            ps[i],
            default,
            readings,
        );
    }
}

/// A projected volume holds the files of each of its sources: for a config map or secret that
/// was found, one with the bytes of each key asked for; one for each field; and each token.
pub proof fn law_a_projected_volume_holds_all_its_sources(
    base: Seq<char>,
    pod: Pod,
    v: Volume,
    f: VolumeFacts,
    i: int,
)
    requires
        v.empty_dir is None,
        v.host_path is None,
        v.config_map is None,
        v.secret is None,
        v.persistent_volume_claim is None,
        v.downward_api is None,
        v.csi is None,
        v.ephemeral is None,
        v.projected is Some,
        v.projected->0.sources is Some,
        0 <= i < v.projected->0.sources->0@.len(),
        f.projections@.len() == v.projected->0.sources->0@.len(),
    ensures
        ({
            let plan = volumes::volume_plan(base, pod, v, f);
            let dir = volume_dir(base, pod, v);
            let src = v.projected->0;
            &&& plan.outcome == Ok::<Seq<char>, Seq<char>>(dir)
            &&& frames_dir(plan.steps, dir, src.default_mode)
            &&& has_source_files(
                plan.steps,
                dir,
                pod,
                f.storage,
                src.sources->0@[i],
                f.projections@[i],
                files_mode(src.default_mode),
                f.readings@,
            )
        }),
{
    let plan = volumes::volume_plan(base, pod, v, f);
    let dir = volume_dir(base, pod, v);
    let src = v.projected->0;
    let srcs = src.sources->0@;
    let default = files_mode(src.default_mode);
    let files = volumes::projections_steps(
        dir,
        pod,
        f.storage,
        srcs,
        f.projections@,
        default,
        f.readings@,
        srcs.len(),
    );
    let make = seq![StepView::MakeDir(dir)];
    let done = seq![StepView::SetMode(dir, volumes::dir_mode(src.default_mode))];
    assert(plan.steps == make + files + done);
    lemma_projections(
        dir,
        pod,
        f.storage,
        srcs,
        f.projections@,
        default,
        f.readings@,
        srcs.len(),
        i,
    );
    lemma_more(make, files, done);
    lemma_more_sources(
        files,
        plan.steps,
        dir,
        pod,
        f.storage,
        srcs[i],
        f.projections@[i],
        default,
        f.readings@,
    );
}

/// The claim of an ephemeral volume has the labels and annotations of its template.
pub proof fn law_claims_are_labelled_as_their_template(m: api::ObjectMeta)
    ensures
        volumes::given(Some(m), true) == (match m.labels {
            Some(v) => Some(api::pair_texts(v@)),
            None => None,
        }),
        volumes::given(Some(m), false) == (match m.annotations {
            Some(v) => Some(api::pair_texts(v@)),
            None => None,
        }),
        volumes::given(None, true) is None,
        volumes::given(None, false) is None,
{
}

/// A step says what its fields hold.
pub proof fn law_steps_say_what_they_hold(s: volumes::VolumeStep)
    ensures
        ({
            let v = volumes::step_view(s);
            match s {
                volumes::VolumeStep::MakeDir(d) => v == StepView::MakeDir(d@),
                volumes::VolumeStep::MakeParentOf(p) => v == StepView::MakeParentOf(p@),
                volumes::VolumeStep::Write { path, content, mode, make_parent, how } => v is Write
                    && v->Write_path
                    == path@ && v->content == content@ && v->mode == mode && v->make_parent
                    == make_parent && v->how == how,
                volumes::VolumeStep::PutCaCert(p) => v == StepView::PutCaCert(p@),
                volumes::VolumeStep::SetMode(d, m) => v == StepView::SetMode(d@, m),
                volumes::VolumeStep::RemoveAll(d) => v == StepView::RemoveAll(d@),
                volumes::VolumeStep::RemoveNamesExcept { dir, keep } => v is RemoveNamesExcept
                    && v->RemoveNamesExcept_dir == dir@ && v->RemoveNamesExcept_keep
                    == text::texts(keep@),
                volumes::VolumeStep::RemoveFilesExcept { dir, keep } => v is RemoveFilesExcept
                    && v->RemoveFilesExcept_dir == dir@ && v->RemoveFilesExcept_keep
                    == text::texts(keep@),
                volumes::VolumeStep::RotateToken { path, expiration_seconds, volume, source } => v
                    is RotateToken && v->RotateToken_path == path@ && v->expiration_seconds
                    == expiration_seconds && v->volume == volume && v->source == source,
            }
        }),
{
}

/// A volume whose source needs nothing to be put in words can be made whatever was looked up;
/// one of several sources can where each was looked up and none tells fields.
pub proof fn law_plain_volumes_can_be_made(pod: Pod, v: Volume, f: VolumeFacts)
    ensures
        v.empty_dir is Some || (v.host_path is None && (v.config_map is Some || v.secret is Some
            || v.persistent_volume_claim is Some)) ==> volumes::volume_facts_match(pod, v, f),
        v.projected is Some && volumes::kind_of(v) == volumes::SourceKind::Projected
            && v.projected->0.sources is Some && f.projections@.len()
            == v.projected->0.sources->0@.len() && (forall|i: int|
            0 <= i < v.projected->0.sources->0@.len() ==> (
            #[trigger] v.projected->0.sources->0@[i]).downward_api is None)
            ==> volumes::volume_facts_match(pod, v, f),
{
}

/// The files of the steps are written whatever they held, and where `parents` holds the
/// directories that they lie in are made first.
pub open spec fn written_afresh(steps: Seq<StepView>, parents: bool) -> bool {
    forall|k: int|
        0 <= k < steps.len() && (#[trigger] steps[k]) is Write ==> steps[k]->how == WriteHow::Always
            && (parents ==> steps[k]->make_parent)
}

proof fn lemma_afresh_joined(a: Seq<StepView>, b: Seq<StepView>, parents: bool)
    requires
        written_afresh(a, parents),
        written_afresh(b, parents),
    ensures
        written_afresh(a + b, parents),
{
    let c = a + b;
    assert forall|k: int| 0 <= k < c.len() && (#[trigger] c[k]) is Write implies c[k]->how
        == WriteHow::Always && (parents ==> c[k]->make_parent) by {
        if k < a.len() {
            assert(c[k] == a[k]);
        } else {
            assert(c[k] == b[k - a.len()]);
        }
    }
}

proof fn lemma_afresh_pushed(a: Seq<StepView>, s: StepView, parents: bool)
    requires
        written_afresh(a, parents),
        s is Write ==> s->how == WriteHow::Always && (parents ==> s->make_parent),
    ensures
        written_afresh(a.push(s), parents),
{
    let c = a.push(s);
    assert forall|k: int| 0 <= k < c.len() && (#[trigger] c[k]) is Write implies c[k]->how
        == WriteHow::Always && (parents ==> c[k]->make_parent) by {
        if k < a.len() {
            assert(c[k] == a[k]);
        }
    }
}

proof fn lemma_afresh_text(dir: Seq<char>, d: Seq<(String, String)>, mode: Option<u32>, parents: bool)
    ensures
        written_afresh(volumes::text_steps(dir, d, mode, parents, WriteHow::Always), parents),
    decreases d.len(),
{
    if d.len() > 0 {
        lemma_afresh_text(dir, d.drop_last(), mode, parents);
        lemma_afresh_pushed(
            volumes::text_steps(dir, d.drop_last(), mode, parents, WriteHow::Always),
            volumes::text_steps(dir, d, mode, parents, WriteHow::Always).last(),
            parents,
        );
    }
}

proof fn lemma_afresh_bytes(
    dir: Seq<char>,
    d: Seq<(String, Vec<u8>)>,
    token: Option<Seq<char>>,
    mode: Option<u32>,
    parents: bool,
)
    ensures
        written_afresh(volumes::byte_steps(dir, d, token, mode, parents, WriteHow::Always), parents),
    decreases d.len(),
{
    if d.len() > 0 {
        lemma_afresh_bytes(dir, d.drop_last(), token, mode, parents);
        lemma_afresh_pushed(
            volumes::byte_steps(dir, d.drop_last(), token, mode, parents, WriteHow::Always),
            volumes::byte_steps(dir, d, token, mode, parents, WriteHow::Always).last(),
            parents,
        );
    }
}

proof fn lemma_afresh_config(
    dir: Seq<char>,
    cm: ConfigMap,
    items: Option<Vec<KeyToPath>>,
    default: Option<i32>,
)
    ensures
        written_afresh(
            volumes::config_steps(dir, cm, items, default, true, WriteHow::Always),
            true,
        ),
{
    match items {
        Some(it) => {
            lemma_afresh_config_items(dir, cm, it@, default);
        },
        None => {
            let mode = volumes::file_mode(None, default);
            let a = match cm.data {
                Some(d) => volumes::text_steps(dir, d@, mode, true, WriteHow::Always),
                None => Seq::empty(),
            };
            let b = match cm.binary_data {
                Some(d) => volumes::byte_steps(dir, d@, None, mode, true, WriteHow::Always),
                None => Seq::empty(),
            };
            if let Some(d) = cm.data {
                lemma_afresh_text(dir, d@, mode, true);
            }
            if let Some(d) = cm.binary_data {
                lemma_afresh_bytes(dir, d@, None, mode, true);
            }
            lemma_afresh_joined(a, b, true);
        },
    }
}

proof fn lemma_afresh_config_items(
    dir: Seq<char>,
    cm: ConfigMap,
    items: Seq<KeyToPath>,
    default: Option<i32>,
)
    ensures
        written_afresh(
            volumes::config_item_steps(dir, cm, items, default, WriteHow::Always),
            true,
        ),
    decreases items.len(),
{
    if items.len() > 0 {
        lemma_afresh_config_items(dir, cm, items.drop_last(), default);
        let rest = volumes::config_item_steps(
            dir,
            cm,
            items.drop_last(),
            default,
            WriteHow::Always,
        );
        if volumes::config_bytes(cm, items.last().key@) is Some {
            lemma_afresh_pushed(
                rest,
                volumes::config_item_steps(dir, cm, items, default, WriteHow::Always).last(),
                true,
            );
        }
    }
}

proof fn lemma_afresh_secret(
    dir: Seq<char>,
    data: Seq<(String, Vec<u8>)>,
    items: Option<Vec<KeyToPath>>,
    token: Option<Seq<char>>,
    default: Option<i32>,
)
    ensures
        written_afresh(
            volumes::secret_steps(dir, data, items, token, default, WriteHow::Always),
            items is Some,
        ),
{
    match items {
        Some(it) => {
            lemma_afresh_secret_items(dir, data, it@, token, default);
        },
        None => {
            lemma_afresh_bytes(dir, data, token, volumes::file_mode(None, default), false);
        },
    }
}

proof fn lemma_afresh_secret_items(
    dir: Seq<char>,
    data: Seq<(String, Vec<u8>)>,
    items: Seq<KeyToPath>,
    token: Option<Seq<char>>,
    default: Option<i32>,
)
    ensures
        written_afresh(
            volumes::secret_item_steps(dir, data, items, token, default, true, WriteHow::Always),
            true,
        ),
    decreases items.len(),
{
    if items.len() > 0 {
        lemma_afresh_secret_items(dir, data, items.drop_last(), token, default);
        if api::lookup_bytes(data, items.last().key@) is Some {
            lemma_afresh_pushed(
                volumes::secret_item_steps(
                    dir,
                    data,
                    items.drop_last(),
                    token,
                    default,
                    true,
                    WriteHow::Always,
                ),
                volumes::secret_item_steps(
                    dir,
                    data,
                    items,
                    token,
                    default,
                    true,
                    WriteHow::Always,
                ).last(),
                true,
            );
        }
    }
}

proof fn lemma_afresh_fields(
    dir: Seq<char>,
    pod: Pod,
    items: Seq<DownwardAPIVolumeFile>,
    default: i32,
    readings: Seq<(String, i64)>,
)
    ensures
        written_afresh(
            volumes::strict_item_steps(dir, pod, items, default, readings).0,
            true,
        ),
        written_afresh(
            volumes::lenient_item_steps(
                dir,
                pod,
                items,
                Some(default),
                readings,
                true,
                WriteHow::Always,
            ),
            true,
        ),
    decreases items.len(),
{
    if items.len() > 0 {
        let d = items.drop_last();
        lemma_afresh_fields(dir, pod, d, default, readings);
        let (steps, failure) = volumes::strict_item_steps(dir, pod, d, default, readings);
        if failure is None {
            lemma_afresh_pushed(
                steps,
                volumes::strict_item_steps(dir, pod, items, default, readings).0.last(),
                true,
            );
        }
        lemma_afresh_pushed(
            volumes::lenient_item_steps(
                dir,
                pod,
                d,
                Some(default),
                readings,
                true,
                WriteHow::Always,
            ),
            volumes::lenient_item_steps(
                dir,
                pod,
                items,
                Some(default),
                readings,
                true,
                WriteHow::Always,
            ).last(),
            true,
        );
    }
}

/// No source of the volume is a secret whose keys are all taken.
pub open spec fn takes_no_whole_secret(srcs: Seq<VolumeProjection>) -> bool {
    forall|i: int|
        0 <= i < srcs.len() ==> ((#[trigger] srcs[i]).secret is Some ==> srcs[i].secret->0.items is Some)
}

proof fn lemma_afresh_source(
    dir: Seq<char>,
    pod: Pod,
    storage: bool,
    src: VolumeProjection,
    p: ProjectionFacts,
    default: i32,
    readings: Seq<(String, i64)>,
    parents: bool,
)
    requires
        parents && src.secret is Some ==> src.secret->0.items is Some,
    ensures
        written_afresh(
            volumes::projection_steps(dir, pod, storage, src, p, default, readings),
            parents,
        ),
{
    let cm = match (src.config_map, p.config_map) {
        (Some(s), Some(m)) if storage && s.name is Some => volumes::config_steps(
            dir,
            m,
            s.items,
            Some(default),
            true,
            WriteHow::Always,
        ),
        _ => Seq::empty(),
    };
    let sec = match (src.secret, p.secret) {
        (Some(s), Some(m)) if storage && s.name is Some && m.data is Some => volumes::secret_steps(
            dir,
            m.data->0@,
            s.items,
            None,
            Some(default),
            WriteHow::Always,
        ),
        _ => Seq::empty(),
    };
    let fields = match src.downward_api {
        Some(d) if d.items is Some => volumes::lenient_item_steps(
            dir,
            pod,
            d.items->0@,
            Some(default),
            readings,
            true,
            WriteHow::Always,
        ),
        _ => Seq::empty(),
    };
    let token = match src.service_account_token {
        Some(t) => seq![
            volumes::write_step(
                dir,
                t.path@,
                encode_utf8(p.token@),
                volumes::file_mode(None, Some(default)),
                true,
                WriteHow::Always,
            ),
        ],
        None => Seq::empty(),
    };
    if src.config_map is Some && p.config_map is Some {
        lemma_afresh_config(dir, p.config_map->0, src.config_map->0.items, Some(default));
    }
    if src.secret is Some && p.secret is Some && p.secret->0.data is Some {
        lemma_afresh_secret(
            dir,
            p.secret->0.data->0@,
            src.secret->0.items,
            None,
            Some(default),
        );
    }
    if src.downward_api is Some && src.downward_api->0.items is Some {
        lemma_afresh_fields(dir, pod, src.downward_api->0.items->0@, default, readings);
    }
    lemma_afresh_joined(cm, sec, parents);
    lemma_afresh_joined(cm + sec, fields, parents);
    lemma_afresh_joined(cm + sec + fields, token, parents);
}

proof fn lemma_afresh_sources(
    dir: Seq<char>,
    pod: Pod,
    storage: bool,
    srcs: Seq<VolumeProjection>,
    ps: Seq<ProjectionFacts>,
    default: i32,
    readings: Seq<(String, i64)>,
    n: nat,
    parents: bool,
)
    requires
        n <= srcs.len(),
        parents ==> takes_no_whole_secret(srcs),
    ensures
        written_afresh(
            volumes::projections_steps(dir, pod, storage, srcs, ps, default, readings, n),
            parents,
        ),
    decreases n,
{
    if n > 0 {
        let m = (n - 1) as nat;
        lemma_afresh_sources(dir, pod, storage, srcs, ps, default, readings, m, parents);
        lemma_afresh_source(
            dir,
            pod,
            storage,
            srcs[n - 1],
            ps[n - 1],
            default,
            readings,
            parents,
        );
        lemma_afresh_joined(
            volumes::projections_steps(dir, pod, storage, srcs, ps, default, readings, m),
            volumes::projection_steps(
                dir,
                pod,
                storage,
                srcs[n - 1],
                ps[n - 1],
                default,
                readings,
            ),
            parents,
        );
    }
}

/// When a volume is made its files are written whatever they held before, and the directories
/// that a file of an item lies in are made with it.
pub proof fn law_files_are_written_afresh(base: Seq<char>, pod: Pod, v: Volume, f: VolumeFacts)
    ensures
        ({
            let steps = volumes::volume_plan(base, pod, v, f).steps;
            let kind = volumes::kind_of(v);
            &&& kind == volumes::SourceKind::ConfigMap ==> written_afresh(steps, true)
            &&& kind == volumes::SourceKind::Downward ==> written_afresh(steps, true)
            &&& kind == volumes::SourceKind::Secret ==> written_afresh(
                steps,
                v.secret->0.items is Some,
            )
            &&& kind == volumes::SourceKind::Projected && v.projected->0.sources is Some
                ==> written_afresh(steps, takes_no_whole_secret(v.projected->0.sources->0@))
        }),
{
    let dir = volume_dir(base, pod, v);
    let kind = volumes::kind_of(v);
    let make = seq![StepView::MakeDir(dir)];
    if kind == volumes::SourceKind::ConfigMap {
        let src = v.config_map->0;
        let default = Some(volumes::mode_or_default(src.default_mode));
        let done = seq![StepView::SetMode(dir, volumes::dir_mode(src.default_mode))];
        if let Ok(cm) = f.config_map {
            lemma_afresh_config(dir, cm, src.items, default);
            let files = volumes::config_steps(dir, cm, src.items, default, true, WriteHow::Always);
            lemma_afresh_joined(make, files, true);
            lemma_afresh_joined(make + files, done, true);
        }
    }
    if kind == volumes::SourceKind::Secret {
        let src = v.secret->0;
        let parents = src.items is Some;
        let default = Some(volumes::mode_or_default(src.default_mode));
        let done = seq![StepView::SetMode(dir, volumes::dir_mode(src.default_mode))];
        if f.storage && src.secret_name is Some {
            let name = src.secret_name->0@;
            let data = volumes::secret_data(f.secret);
            let token = if volumes::is_token_volume(v.name@, name) {
                text::opt_text(f.bound_token)
            } else {
                None
            };
            let files = match data {
                Some(d) => volumes::secret_steps(
                    dir,
                    d,
                    src.items,
                    token,
                    default,
                    WriteHow::Always,
                ),
                None => Seq::empty(),
            };
            if let Some(d) = data {
                lemma_afresh_secret(dir, d, src.items, token, default);
            }
            let ca = if volumes::wants_ca_cert(name, data) {
                seq![StepView::PutCaCert(volumes::in_dir(dir, "ca.crt"@))]
            } else {
                Seq::empty()
            };
            lemma_afresh_joined(make, files, parents);
            lemma_afresh_joined(make + files, ca, parents);
            lemma_afresh_joined(make + files + ca, done, parents);
        }
    }
    if kind == volumes::SourceKind::Downward {
        let src = v.downward_api->0;
        let done = seq![StepView::SetMode(dir, volumes::dir_mode(src.default_mode))];
        if let Some(it) = src.items {
            let mode = volumes::mode_or_default(src.default_mode);
            lemma_afresh_fields(dir, pod, it@, mode, f.readings@);
            let files = volumes::strict_item_steps(dir, pod, it@, mode, f.readings@).0;
            lemma_afresh_joined(make, files, true);
            lemma_afresh_joined(make + files, done, true);
        }
    }
    if kind == volumes::SourceKind::Projected && v.projected->0.sources is Some {
        let src = v.projected->0;
        let srcs = src.sources->0@;
        let parents = takes_no_whole_secret(srcs);
        let mode = volumes::mode_or_default(src.default_mode);
        let done = seq![StepView::SetMode(dir, volumes::dir_mode(src.default_mode))];
        let files = volumes::projections_steps(
            dir,
            pod,
            f.storage,
            srcs,
            f.projections@,
            mode,
            f.readings@,
            srcs.len(),
        );
        lemma_afresh_sources(
            dir,
            pod,
            f.storage,
            srcs,
            f.projections@,
            mode,
            f.readings@,
            srcs.len(),
            parents,
        );
        lemma_afresh_joined(make, files, parents);
        lemma_afresh_joined(make + files, done, parents);
    }
}

/// The files of a projected volume's sources are written in the order of the sources, so that
/// those of a later one take the place of those of an earlier: a further source only adds to
/// what is done for the others.
pub proof fn law_later_sources_are_written_later(
    base: Seq<char>,
    pod: Pod,
    v: Volume,
    w: Volume,
    f: VolumeFacts,
    g: VolumeFacts,
)
    requires
        volumes::kind_of(v) == volumes::SourceKind::Projected,
        volumes::kind_of(w) == volumes::SourceKind::Projected,
        v.name == w.name,
        v.projected->0.default_mode == w.projected->0.default_mode,
        v.projected->0.sources is Some,
        w.projected->0.sources is Some,
        v.projected->0.sources->0@.len() > 0,
        w.projected->0.sources->0@ == v.projected->0.sources->0@.drop_last(),
        f.projections@.len() == v.projected->0.sources->0@.len(),
        g.projections@ == f.projections@.drop_last(),
        g.storage == f.storage,
        g.readings == f.readings,
    ensures
        ({
            let few = volumes::volume_plan(base, pod, w, g).steps.drop_last();
            let many = volumes::volume_plan(base, pod, v, f).steps;
            many.len() > few.len() && many.take(few.len() as int) == few
        }),
{
    let dir = volume_dir(base, pod, v);
    let src = v.projected->0;
    let srcs = src.sources->0@;
    let mode = volumes::mode_or_default(src.default_mode);
    let n = srcs.len();
    let m = (n - 1) as nat;
    lemma_sources_of_longer(
        dir,
        pod,
        f.storage,
        srcs,
        srcs.drop_last(),
        f.projections@,
        f.projections@.drop_last(),
        mode,
        f.readings@,
        m,
    );
    let make = seq![StepView::MakeDir(dir)];
    let done = seq![StepView::SetMode(dir, volumes::dir_mode(src.default_mode))];
    let a = volumes::projections_steps(
        dir,
        pod,
        f.storage,
        srcs,
        f.projections@,
        mode,
        f.readings@,
        m,
    );
    let b = volumes::projection_steps(
        dir,
        pod,
        f.storage,
        srcs[m as int],
        f.projections@[m as int],
        mode,
        f.readings@,
    );
    let few = volumes::volume_plan(base, pod, w, g).steps;
    let many = volumes::volume_plan(base, pod, v, f).steps;
    assert(few =~= make + a + done);
    assert(few.drop_last() =~= make + a);
    assert(many =~= make + (a + b) + done);
    assert(many.take((make + a).len() as int) =~= make + a);
}

proof fn lemma_sources_of_longer(
    dir: Seq<char>,
    pod: Pod,
    storage: bool,
    s: Seq<VolumeProjection>,
    t: Seq<VolumeProjection>,
    p: Seq<ProjectionFacts>,
    q: Seq<ProjectionFacts>,
    mode: i32,
    readings: Seq<(String, i64)>,
    n: nat,
)
    requires
        n <= t.len() <= s.len(),
        n <= q.len() <= p.len(),
        forall|i: int| 0 <= i < n ==> #[trigger] s[i] == t[i],
        forall|i: int| 0 <= i < n ==> #[trigger] p[i] == q[i],
    ensures
        volumes::projections_steps(dir, pod, storage, s, p, mode, readings, n)
            == volumes::projections_steps(dir, pod, storage, t, q, mode, readings, n),
    decreases n,
{
    if n > 0 {
        lemma_sources_of_longer(dir, pod, storage, s, t, p, q, mode, readings, (n - 1) as nat);
        assert(s[n - 1] == t[n - 1]);
        assert(p[n - 1] == q[n - 1]);
    }
}

/// A volume of fields or of sources that lists none is an empty directory with its mode.
pub proof fn law_volumes_of_nothing_are_empty(base: Seq<char>, pod: Pod, v: Volume, f: VolumeFacts)
    ensures
        ({
            let plan = volumes::volume_plan(base, pod, v, f);
            let dir = volume_dir(base, pod, v);
            &&& volumes::kind_of(v) == volumes::SourceKind::Downward && v.downward_api->0.items is None
                ==> plan.outcome == Ok::<Seq<char>, Seq<char>>(dir) && plan.steps.len() == 2
                && frames_dir(plan.steps, dir, v.downward_api->0.default_mode)
            &&& volumes::kind_of(v) == volumes::SourceKind::Projected
                && v.projected->0.sources is None ==> plan.outcome == Ok::<Seq<char>, Seq<char>>(dir)
                && plan.steps.len() == 2 && frames_dir(
                plan.steps,
                dir,
                v.projected->0.default_mode,
            )
        }),
{
}

/// A volume of fields can be made where each item names a field and none of them leaves a
/// quote open.
pub proof fn law_volumes_of_plain_fields_can_be_made(pod: Pod, v: Volume, f: VolumeFacts)
    requires
        volumes::kind_of(v) == volumes::SourceKind::Downward,
        v.downward_api->0.items matches Some(it) ==> forall|i: int|
            0 <= i < it@.len() ==> (#[trigger] it@[i]).field_ref is Some
                && it@[i].field_ref->0.field_path@ != "metadata.labels[']"@
                && it@[i].field_ref->0.field_path@ != "metadata.annotations[']"@,
    ensures
        volumes::volume_facts_match(pod, v, f),
{
    if let Some(it) = v.downward_api->0.items {
        lemma_plain_while_told(pod, it@, f.readings@);
    }
}

proof fn lemma_plain_while_told(
    pod: Pod,
    items: Seq<DownwardAPIVolumeFile>,
    readings: Seq<(String, i64)>,
)
    requires
        forall|i: int|
            0 <= i < items.len() ==> (#[trigger] items[i]).field_ref is Some
                && items[i].field_ref->0.field_path@ != "metadata.labels[']"@
                && items[i].field_ref->0.field_path@ != "metadata.annotations[']"@,
    ensures
        volumes::plain_while_told(pod, items, readings),
    decreases items.len(),
{
    if items.len() > 0 {
        let d = items.drop_first();
        assert forall|i: int| 0 <= i < d.len() implies (#[trigger] d[i]).field_ref is Some
            && d[i].field_ref->0.field_path@ != "metadata.labels[']"@
            && d[i].field_ref->0.field_path@ != "metadata.annotations[']"@ by {
            assert(d[i] == items[i + 1]);
        }
        lemma_plain_while_told(pod, d, readings);
    }
}

} // verus!
