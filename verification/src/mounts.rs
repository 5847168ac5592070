//! How a container's volume mounts become bind mounts and memory file systems.

use crate::api;
use crate::api::{Container, Pod, Volume, VolumeMount};
use crate::expand;
use crate::ports;
use crate::runtime::ContainerRuntime;
use crate::text;
use vstd::prelude::*;
use vstd::string::*;

verus! {

/// Why a container cannot be configured.
#[derive(Clone, Debug)]
pub enum ConfigError {
    /// What it asks for is refused, in the given words; the directories of the mounts before
    /// the refused one are made all the same.
    Refused(String, Vec<String>),
    /// The references in a sub-path expression or a variable have no end.
    Endless,
}

/// A text that stands for nothing when it is empty.
pub open spec fn nonempty(o: Option<String>) -> Option<Seq<char>> {
    match o {
        Some(s) if s@.len() > 0 => Some(s@),
        _ => None,
    }
}

/// The characters of an optional text that is borrowed.
pub open spec fn opt_str(o: Option<&str>) -> Option<Seq<char>> {
    match o {
        Some(s) => Some(s@),
        None => None,
    }
}

fn some_nonempty(o: &Option<String>) -> (r: Option<&str>)
    ensures
        opt_str(r) == nonempty(*o),
{
    match o {
        Some(s) => if s.as_str().is_empty() {
            None
        } else {
            Some(s.as_str())
        },
        None => None,
    }
}

/// The volume that a claim is bound to. An empty name is none: a claim can carry one
/// before it is bound.
pub fn bound_pv_name(volume_name: &Option<String>) -> (r: Option<&str>)
    ensures
        opt_str(r) == nonempty(*volume_name),
{
    some_nonempty(volume_name)
}

/// A mount's `subPathExpr`. An empty one is none, and leaves the plain `subPath` in force.
pub fn effective_sub_path_expr(sub_path_expr: &Option<String>) -> (r: Option<&str>)
    ensures
        opt_str(r) == nonempty(*sub_path_expr),
{
    some_nonempty(sub_path_expr)
}

/// The path at which a container leaves its termination message, `/dev/termination-log`
/// where it names none or an empty one.
pub fn effective_termination_message_path(termination_message_path: &Option<String>) -> (r: &str)
    ensures
        r@ == termination_path(*termination_message_path),
{
    match some_nonempty(termination_message_path) {
        Some(s) => s,
        None => "/dev/termination-log",
    }
}

/// The path at which a container leaves its termination message.
pub open spec fn termination_path(o: Option<String>) -> Seq<char> {
    match nonempty(o) {
        Some(s) => s,
        None => "/dev/termination-log"@,
    }
}

/// A mount's sub-path, checked, or why it is refused.
pub open spec fn sub_path_of(
    container: Seq<char>,
    m: VolumeMount,
    env: Seq<(Seq<char>, Seq<char>)>,
) -> Result<Option<Seq<char>>, Seq<char>> {
    match nonempty(m.sub_path_expr) {
        Some(expr) => match expand::subpath_result(expr, env) {
            Ok(t) => if t.len() == 0 {
                Err(
                    "CreateContainerConfigError: subPathExpr '"@ + expr
                        + "' expanded to empty string in container "@ + container,
                )
            } else {
                Ok(Some(t))
            },
            Err(e) => Err(
                "CreateContainerConfigError: subPathExpr expansion failed for container "@
                    + container + ": "@ + e,
            ),
        },
        None => match nonempty(m.sub_path) {
            None => Ok(None),
            Some(p) => if text::begins(p, "/"@) {
                Err(
                    "CreateContainerConfigError: subPath must not be an absolute path in container "@
                        + container,
                )
            } else if p.contains('`') {
                Err(
                    "CreateContainerConfigError: subPath must not contain backticks in container "@
                        + container,
                )
            } else if expand::climbs(p) {
                Err(
                    "CreateContainerConfigError: subPath must not contain '..' in container "@
                        + container,
                )
            } else {
                Ok(Some(p))
            },
        },
    }
}

/// The references in a mount's sub-path expression come to an end.
pub open spec fn mount_settles(m: VolumeMount, env: Seq<(Seq<char>, Seq<char>)>) -> bool {
    match nonempty(m.sub_path_expr) {
        Some(expr) => expr.contains('`') || expand::path_settles(expr, env, u64::MAX as nat),
        None => true,
    }
}

/// The volumes of a pod.
pub open spec fn volumes_of(pod: Pod) -> Seq<Volume> {
    match pod.spec {
        Some(s) => match s.volumes {
            Some(v) => v@,
            None => Seq::empty(),
        },
        None => Seq::empty(),
    }
}

/// A volume of the list that has the name is an empty directory.
pub open spec fn some_empty_dir(vs: Seq<Volume>, name: Seq<char>) -> bool {
    exists|i: int| 0 <= i < vs.len() && (#[trigger] vs[i]).name@ == name && vs[i].empty_dir is Some
}

/// The first volume of the list that has the name.
pub open spec fn volume_named(vs: Seq<Volume>, name: Seq<char>) -> Option<Volume>
    decreases vs.len(),
{
    if vs.len() == 0 {
        None
    } else if vs[0].name@ == name {
        Some(vs[0])
    } else {
        volume_named(vs.drop_first(), name)
    }
}

/// The volume with the name is an empty directory in memory.
pub open spec fn in_memory(vs: Seq<Volume>, name: Seq<char>) -> bool {
    some_empty_dir(vs, name) && match volume_named(vs, name) {
        Some(v) => match v.empty_dir {
            Some(e) => text::opt_text(e.medium) == Some("Memory"@),
            None => false,
        },
        None => false,
    }
}

/// The mount is read-only.
pub open spec fn is_read_only(m: VolumeMount) -> bool {
    m.read_only == Some(true)
}

/// `host:target`, with `:ro` behind it for a read-only mount.
pub open spec fn bind_text(host: Seq<char>, target: Seq<char>, read_only: bool) -> Seq<char> {
    host + ":"@ + target + (if read_only {
        ":ro"@
    } else {
        Seq::empty()
    })
}

/// The bind mounts, memory file systems and sub-path directories of a container's mounts.
pub ghost struct MountsView {
    pub binds: Seq<Seq<char>>,
    pub tmpfs: Seq<(Seq<char>, Seq<char>)>,
    pub sub_paths: Seq<Seq<char>>,
}

/// What the mounts `ms` come to, one after another. The first mount with a bad sub-path
/// decides, and what the ones before it ask for is then in place; a mount whose volume has
/// no place on the host is left out.
pub open spec fn mounted(
    pod: Pod,
    container: Seq<char>,
    ms: Seq<VolumeMount>,
    env: Seq<(Seq<char>, Seq<char>)>,
    paths: Seq<(String, String)>,
) -> Result<MountsView, (Seq<char>, Seq<Seq<char>>)>
    decreases ms.len(),
{
    if ms.len() == 0 {
        Ok(MountsView { binds: Seq::empty(), tmpfs: Seq::empty(), sub_paths: Seq::empty() })
    } else {
        match mounted(pod, container, ms.drop_last(), env, paths) {
            Err(e) => Err(e),
            Ok(done) => {
                let m = ms.last();
                match sub_path_of(container, m, env) {
                    Err(e) => Err((e, done.sub_paths)),
                    Ok(sub) => match api::lookup(paths, m.name@) {
                        None => Ok(done),
                        Some(host) => Ok(with_mount(pod, done, m, sub, host)),
                    },
                }
            },
        }
    }
}

/// `done` with one more mount, whose volume is at `host`.
pub open spec fn with_mount(
    pod: Pod,
    done: MountsView,
    m: VolumeMount,
    sub: Option<Seq<char>>,
    host: Seq<char>,
) -> MountsView {
    match sub {
        Some(s) => MountsView {
            binds: done.binds.push(
                bind_text(host + "/"@ + s, m.mount_path@, is_read_only(m)),
            ),
            tmpfs: done.tmpfs,
            sub_paths: done.sub_paths.push(host + "/"@ + s),
        },
        None => if in_memory(volumes_of(pod), m.name@) {
            MountsView {
                binds: done.binds,
                tmpfs: ports::put(
                    done.tmpfs,
                    m.mount_path@,
                    if is_read_only(m) {
                        "ro,mode=0777"@
                    } else {
                        "mode=0777"@
                    },
                ),
                sub_paths: done.sub_paths,
            }
        } else {
            MountsView {
                binds: done.binds.push(bind_text(host, m.mount_path@, is_read_only(m))),
                tmpfs: done.tmpfs,
                sub_paths: done.sub_paths,
            }
        },
    }
}

/// What a container's mounts come to.
#[derive(Clone, Debug, Default)]
pub struct Mounts {
    /// Bind mounts: `host:target` or `host:target:ro`.
    pub binds: Vec<String>,
    /// Memory file systems: target and options.
    pub tmpfs: Vec<(String, String)>,
    /// The sub-paths that have to exist on the host.
    pub sub_paths: Vec<String>,
}

impl Mounts {
    /// The characters of all parts.
    pub open spec fn view_of(self) -> MountsView {
        MountsView {
            binds: text::texts(self.binds@),
            tmpfs: api::pair_texts(self.tmpfs@),
            sub_paths: text::texts(self.sub_paths@),
        }
    }
}

/// `host:target`, with `:ro` behind it for a read-only mount.
pub fn bind_string(host: &str, target: &str, read_only: bool) -> (r: String)
    ensures
        r@ == bind_text(host@, target@, read_only),
{
    let r = text::cat3(host, ":", target);
    if read_only {
        text::cat2(r.as_str(), ":ro")
    } else {
        assert(r@ =~= bind_text(host@, target@, read_only));
        r
    }
}

/// Sets the value of a key: in its place, or at the end.
pub fn put_pair(v: &mut Vec<(String, String)>, key: &str, value: &str)
    ensures
        api::pair_texts(final(v)@) == ports::put(api::pair_texts(old(v)@), key@, value@),
{
    let ghost s = api::pair_texts(v@);
    let n: usize = v.len();
    let mut i: usize = 0;
    assert(s.skip(0) == s);
    assert(s.take(0) + ports::put(s, key@, value@) =~= ports::put(s, key@, value@));
    while i < n
        invariant
            i <= n,
            n == v@.len(),
            v@ == old(v)@,
            s == api::pair_texts(v@),
            ports::put(s, key@, value@) == s.take(i as int) + ports::put(
                s.skip(i as int),
                key@,
                value@,
            ),
        decreases n - i,
    {
        let ghost t = s.skip(i as int);
        assert(t[0] == (v@[i as int].0@, v@[i as int].1@));
        assert(t.drop_first() == s.skip(i + 1));
        if text::same(v[i].0.as_str(), key) {
            v.set(i, (String::from_str(key), String::from_str(value)));
            assert(api::pair_texts(v@) =~= s.take(i as int) + (seq![(key@, value@)] + t.drop_first()));
            return;
        }
        assert(s.take(i as int) + (seq![t[0]] + ports::put(t.drop_first(), key@, value@)) =~= s.take(
            i + 1,
        ) + ports::put(s.skip(i + 1), key@, value@));
        i += 1;
    }
    assert(s.skip(n as int) =~= Seq::<(Seq<char>, Seq<char>)>::empty());
    assert(s.take(n as int) == s);
    v.push((String::from_str(key), String::from_str(value)));
    assert(api::pair_texts(v@) =~= s + seq![(key@, value@)]);
}

/// Whether the references in a sub-path expression come to an end.
pub fn sub_path_expr_settles(expr: &str, env: &[(String, String)]) -> (r: bool)
    ensures
        r == (expr@.contains('`') || expand::path_settles(expr@, api::pair_texts(env@), u64::MAX as nat)),
{
    text::contains_char(expr, '`') || expand::subpath_settles(expr, env)
}

/// A mount's sub-path, checked.
fn check_sub_path(container: &str, m: &VolumeMount, env: &[(String, String)]) -> (r: Result<
    Option<String>,
    String,
>)
    requires
        mount_settles(*m, api::pair_texts(env@)),
    ensures
        (match r {
            Ok(o) => Ok::<Option<Seq<char>>, Seq<char>>(text::opt_text(o)),
            Err(e) => Err(e@),
        }) == sub_path_of(container@, *m, api::pair_texts(env@)),
{
    if let Some(expr) = effective_sub_path_expr(&m.sub_path_expr) {
        return match ContainerRuntime::expand_subpath_expr(expr, env) {
            Ok(t) => if t.as_str().is_empty() {
                Err(
                    text::cat4(
                        "CreateContainerConfigError: subPathExpr '",
                        expr,
                        "' expanded to empty string in container ",
                        container,
                    ),
                )
            } else {
                Ok(Some(t))
            },
            Err(e) => Err(
                text::cat4(
                    "CreateContainerConfigError: subPathExpr expansion failed for container ",
                    container,
                    ": ",
                    e.as_str(),
                ),
            ),
        };
    }
    match some_nonempty(&m.sub_path) {
        None => Ok(None),
        Some(p) => {
            if text::starts_with(p, "/") {
                Err(
                    text::cat2(
                        "CreateContainerConfigError: subPath must not be an absolute path in container ",
                        container,
                    ),
                )
            } else if text::contains_char(p, '`') {
                Err(
                    text::cat2(
                        "CreateContainerConfigError: subPath must not contain backticks in container ",
                        container,
                    ),
                )
            } else if expand::path_climbs(p) {
                Err(
                    text::cat2(
                        "CreateContainerConfigError: subPath must not contain '..' in container ",
                        container,
                    ),
                )
            } else {
                Ok(Some(String::from_str(p)))
            }
        },
    }
}

/// Whether the volume with the name is an empty directory in memory.
fn is_in_memory(pod: &Pod, name: &str) -> (r: bool)
    ensures
        r == in_memory(volumes_of(*pod), name@),
{
    let vs = match &pod.spec {
        Some(s) => match &s.volumes {
            Some(v) => v,
            None => {
                return false;
            },
        },
        None => {
            return false;
        },
    };
    let mut i: usize = 0;
    assert(vs@.skip(0) == vs@);
    while i < vs.len()
        invariant
            i <= vs@.len(),
            vs@ == volumes_of(*pod),
            volume_named(vs@, name@) == volume_named(vs@.skip(i as int), name@),
        decreases vs@.len() - i,
    {
        assert(vs@.skip(i as int)[0] == vs@[i as int]);
        assert(vs@.skip(i as int).drop_first() == vs@.skip(i + 1));
        if text::same(vs[i].name.as_str(), name) {
            return match &vs[i].empty_dir {
                Some(e) => {
                    assert(some_empty_dir(vs@, name@));
                    match &e.medium {
                        Some(m) => text::same(m.as_str(), "Memory"),
                        None => false,
                    }
                },
                None => false,
            };
        }
        i += 1;
    }
    false
}

/// Whether a container mounts one of the volumes in the list.
pub fn mounts_any(c: &Container, volumes: &Vec<String>) -> (r: bool)
    ensures
        r == (c.volume_mounts is Some && exists|i: int|
            0 <= i < c.volume_mounts->0@.len() && text::texts(volumes@).contains(
                (#[trigger] c.volume_mounts->0@[i]).name@,
            )),
{
    match &c.volume_mounts {
        None => false,
        Some(ms) => {
            let mut i: usize = 0;
            while i < ms.len()
                invariant
                    i <= ms@.len(),
                    c.volume_mounts == Some(*ms),
                    forall|j: int|
                        0 <= j < i ==> !text::texts(volumes@).contains((#[trigger] ms@[j]).name@),
                decreases ms@.len() - i,
            {
                if text::list_has(volumes, ms[i].name.as_str()) {
                    assert(text::texts(volumes@).contains(ms@[i as int].name@));
                    return true;
                }
                i += 1;
            }
            false
        },
    }
}

/// The mounts of a container.
pub open spec fn mounts_of(c: Container) -> Seq<VolumeMount> {
    match c.volume_mounts {
        Some(v) => v@,
        None => Seq::empty(),
    }
}

/// A mount's sub-path expression runs on without an end, and no mount before it is
/// refused.
pub open spec fn endless(
    pod: Pod,
    container: Seq<char>,
    ms: Seq<VolumeMount>,
    env: Seq<(Seq<char>, Seq<char>)>,
    paths: Seq<(String, String)>,
) -> bool {
    exists|i: int|
        0 <= i < ms.len() && !mount_settles(#[trigger] ms[i], env) && mounted(
            pod,
            container,
            ms.take(i),
            env,
            paths,
        ) is Ok
}

proof fn lemma_mount_error_stays(
    pod: Pod,
    container: Seq<char>,
    ms: Seq<VolumeMount>,
    env: Seq<(Seq<char>, Seq<char>)>,
    paths: Seq<(String, String)>,
    k: int,
)
    requires
        0 <= k <= ms.len(),
        mounted(pod, container, ms.take(k), env, paths) is Err,
    ensures
        mounted(pod, container, ms, env, paths) == mounted(
            pod,
            container,
            ms.take(k),
            env,
            paths,
        ),
        forall|i: int|
            k <= i <= ms.len() ==> mounted(pod, container, #[trigger] ms.take(i), env, paths)
                is Err,
    decreases ms.len() - k,
{
    if k < ms.len() {
        assert(ms.take(k + 1).drop_last() == ms.take(k));
        lemma_mount_error_stays(pod, container, ms, env, paths, k + 1);
        assert forall|i: int| k <= i <= ms.len() implies mounted(
            pod,
            container,
            #[trigger] ms.take(i),
            env,
            paths,
        ) is Err by {
            if i > k {
                assert(k + 1 <= i);
            }
        }
    } else {
        assert(ms.take(k) == ms);
    }
}

/// What a container's mounts come to on this host, whose volumes lie at `paths`.
pub fn resolve_mounts(
    pod: &Pod,
    c: &Container,
    env: &[(String, String)],
    paths: &[(String, String)],
) -> (r: Result<Mounts, ConfigError>)
    ensures
        match r {
            Ok(m) => !endless(*pod, c.name@, mounts_of(*c), api::pair_texts(env@), paths@) && mounted(
                *pod,
                c.name@,
                mounts_of(*c),
                api::pair_texts(env@),
                paths@,
            ) == Ok::<MountsView, (Seq<char>, Seq<Seq<char>>)>(m.view_of()),
            Err(ConfigError::Refused(e, made)) => !endless(*pod, c.name@, mounts_of(*c), api::pair_texts(env@), paths@)
                && mounted(*pod, c.name@, mounts_of(*c), api::pair_texts(env@), paths@) == Err::<
                MountsView,
                (Seq<char>, Seq<Seq<char>>),
            >((e@, text::texts(made@))),
            Err(ConfigError::Endless) => endless(*pod, c.name@, mounts_of(*c), api::pair_texts(env@), paths@),
        },
{
    let mut r = Mounts { binds: Vec::new(), tmpfs: Vec::new(), sub_paths: Vec::new() };
    assert(text::texts(r.binds@) =~= Seq::<Seq<char>>::empty());
    assert(api::pair_texts(r.tmpfs@) =~= Seq::<(Seq<char>, Seq<char>)>::empty());
    assert(text::texts(r.sub_paths@) =~= Seq::<Seq<char>>::empty());
    let ms = match &c.volume_mounts {
        Some(ms) => ms,
        None => {
            return Ok(r);
        },
    };
    let mut i: usize = 0;
    assert(ms@.take(0) == Seq::<VolumeMount>::empty());
    while i < ms.len()
        invariant
            i <= ms@.len(),
            ms@ == mounts_of(*c),
            mounted(*pod, c.name@, ms@.take(i as int), api::pair_texts(env@), paths@) == Ok::<
                MountsView,
                (Seq<char>, Seq<Seq<char>>),
            >(r.view_of()),
            forall|j: int| 0 <= j < i ==> mount_settles(#[trigger] ms@[j], api::pair_texts(env@)),
        decreases ms@.len() - i,
    {
        let m = &ms[i];
        assert(ms@.take(i as int + 1).drop_last() == ms@.take(i as int));
        assert(ms@.take(i as int + 1).last() == ms@[i as int]);
        let settles: bool = match effective_sub_path_expr(&m.sub_path_expr) {
            Some(expr) => sub_path_expr_settles(expr, env),
            None => true,
        };
        if !settles {
            assert(!mount_settles(ms@[i as int], api::pair_texts(env@)));
            return Err(ConfigError::Endless);
        }
        let sub = match check_sub_path(c.name.as_str(), m, env) {
            Ok(s) => s,
            Err(e) => {
                proof {
                    lemma_mount_error_stays(
                        *pod,
                        c.name@,
                        ms@,
                        api::pair_texts(env@),
                        paths@,
                        i as int + 1,
                    );
                    assert forall|j: int|
                        0 <= j < ms@.len() && !mount_settles(#[trigger] ms@[j], api::pair_texts(env@)) implies mounted(
                        *pod,
                        c.name@,
                        ms@.take(j),
                        api::pair_texts(env@),
                        paths@,
                    ) is Err by {
                        assert(j >= i + 1);
                    }
                }
                return Err(ConfigError::Refused(e, r.sub_paths));
            },
        };
        if let Some(host) = api::get(paths, m.name.as_str()) {
            let read_only: bool = match m.read_only {
                Some(b) => b,
                None => false,
            };
            let ghost before = r.view_of();
            match sub {
                Some(s) => {
                    let full = text::cat3(host, "/", s.as_str());
                    let b = bind_string(full.as_str(), m.mount_path.as_str(), read_only);
                    text::push_text(&mut r.binds, b);
                    text::push_text(&mut r.sub_paths, full);
                },
                None => {
                    if is_in_memory(pod, m.name.as_str()) {
                        let opts: &str = if read_only {
                            "ro,mode=0777"
                        } else {
                            "mode=0777"
                        };
                        put_pair(&mut r.tmpfs, m.mount_path.as_str(), opts);
                    } else {
                        let b = bind_string(host, m.mount_path.as_str(), read_only);
                        text::push_text(&mut r.binds, b);
                    }
                },
            }
            assert(r.view_of() == with_mount(*pod, before, *m, text::opt_text(sub), host@));
        }
        i += 1;
    }
    assert(ms@.take(ms@.len() as int) == ms@);
    Ok(r)
}

/// The mount at `i` is in place, its volume being at `host`: as a bind mount of the volume, or
/// of the directory within it that the sub-path names, which is made first; or as a file system
/// in memory.
pub open spec fn is_in_place(
    done: MountsView,
    pod: Pod,
    m: VolumeMount,
    sub: Option<Seq<char>>,
    host: Seq<char>,
) -> bool {
    let mode = if m.read_only == Some(true) {
        ":ro"@
    } else {
        Seq::empty()
    };
    match sub {
        Some(s) => {
            &&& done.binds.contains(host + "/"@ + s + ":"@ + m.mount_path@ + mode)
            &&& done.sub_paths.contains(host + "/"@ + s)
        },
        None => {
            &&& in_memory(volumes_of(pod), m.name@) ==> exists|k: int|
                0 <= k < done.tmpfs.len() && (#[trigger] done.tmpfs[k]).0 == m.mount_path@
            &&& !in_memory(volumes_of(pod), m.name@) ==> done.binds.contains(
                host + ":"@ + m.mount_path@ + mode,
            )
        },
    }
}

proof fn lemma_put_keeps_keys(s: Seq<(Seq<char>, Seq<char>)>, k: Seq<char>, v: Seq<char>)
    ensures
        exists|i: int|
            0 <= i < ports::put(s, k, v).len() && (#[trigger] ports::put(s, k, v)[i]) == (k, v),
        forall|j: int|
            0 <= j < s.len() ==> exists|i: int|
                0 <= i < ports::put(s, k, v).len() && (#[trigger] ports::put(s, k, v)[i]).0 == (
                #[trigger] s[j]).0,
    decreases s.len(),
{
    let r = ports::put(s, k, v);
    if s.len() == 0 {
        assert(r[0] == (k, v));
    } else if s[0].0 == k {
        assert(r[0] == (k, v));
        assert forall|j: int| 0 <= j < s.len() implies exists|i: int|
            0 <= i < r.len() && (#[trigger] r[i]).0 == (#[trigger] s[j]).0 by {
            assert(r[j].0 == s[j].0);
        }
    } else {
        let rest = s.drop_first();
        let t = ports::put(rest, k, v);
        lemma_put_keeps_keys(rest, k, v);
        assert(forall|i: int| 0 <= i < t.len() ==> r[i + 1] == (#[trigger] t[i]));
        let at = choose|i: int| 0 <= i < t.len() && (#[trigger] t[i]) == (k, v);
        assert(r[at + 1] == (k, v));
        assert forall|j: int| 0 <= j < s.len() implies exists|i: int|
            0 <= i < r.len() && (#[trigger] r[i]).0 == (#[trigger] s[j]).0 by {
            if j == 0 {
                assert(r[0].0 == s[0].0);
            } else {
                assert(rest[j - 1] == s[j]);
                let i = choose|i: int|
                    0 <= i < t.len() && (#[trigger] t[i]).0 == rest[j - 1].0;
                assert(r[i + 1].0 == s[j].0);
            }
        }
    }
}

proof fn lemma_with_mount(
    pod: Pod,
    done: MountsView,
    m: VolumeMount,
    sub: Option<Seq<char>>,
    host: Seq<char>,
)
    ensures
        is_in_place(with_mount(pod, done, m, sub, host), pod, m, sub, host),
{
    let next = with_mount(pod, done, m, sub, host);
    let mode = if m.read_only == Some(true) {
        ":ro"@
    } else {
        Seq::empty()
    };
    match sub {
        Some(s) => {
            let x = host + "/"@ + s + ":"@ + m.mount_path@ + mode;
            assert(next.binds[done.binds.len() as int] =~= x);
            assert(next.binds.contains(x));
            let y = host + "/"@ + s;
            assert(next.sub_paths[done.sub_paths.len() as int] =~= y);
            assert(next.sub_paths.contains(y));
        },
        None => {
            if in_memory(volumes_of(pod), m.name@) {
                let options = if is_read_only(m) {
                    "ro,mode=0777"@
                } else {
                    "mode=0777"@
                };
                lemma_put_keeps_keys(done.tmpfs, m.mount_path@, options);
                let k = choose|k: int|
                    0 <= k < next.tmpfs.len() && (#[trigger] next.tmpfs[k]) == (
                        m.mount_path@,
                        options,
                    );
                assert(next.tmpfs[k].0 == m.mount_path@);
            } else {
                let x = host + ":"@ + m.mount_path@ + mode;
                assert(next.binds[done.binds.len() as int] =~= x);
                assert(next.binds.contains(x));
            }
        },
    }
}

proof fn lemma_stays_in_place(
    pod: Pod,
    done: MountsView,
    m: VolumeMount,
    sub: Option<Seq<char>>,
    host: Seq<char>,
    m2: VolumeMount,
    sub2: Option<Seq<char>>,
    host2: Seq<char>,
)
    requires
        is_in_place(done, pod, m, sub, host),
    ensures
        is_in_place(with_mount(pod, done, m2, sub2, host2), pod, m, sub, host),
{
    let next = with_mount(pod, done, m2, sub2, host2);
    assert forall|x: Seq<char>| done.binds.contains(x) implies next.binds.contains(x) by {
        let k = choose|k: int| 0 <= k < done.binds.len() && done.binds[k] == x;
        assert(next.binds[k] == x);
    }
    assert forall|x: Seq<char>| done.sub_paths.contains(x) implies next.sub_paths.contains(x) by {
        let k = choose|k: int| 0 <= k < done.sub_paths.len() && done.sub_paths[k] == x;
        assert(next.sub_paths[k] == x);
    }
    if sub is None && in_memory(volumes_of(pod), m.name@) {
        let k = choose|k: int|
            0 <= k < done.tmpfs.len() && (#[trigger] done.tmpfs[k]).0 == m.mount_path@;
        lemma_put_keeps_keys(
            done.tmpfs,
            m2.mount_path@,
            if is_read_only(m2) {
                "ro,mode=0777"@
            } else {
                "mode=0777"@
            },
        );
        assert(done.tmpfs[k].0 == m.mount_path@);
        if next.tmpfs.len() > 0 && next.tmpfs != done.tmpfs {
            let i = choose|i: int|
                0 <= i < next.tmpfs.len() && (#[trigger] next.tmpfs[i]).0 == done.tmpfs[k].0;
            assert(next.tmpfs[i].0 == m.mount_path@);
        }
    }
}

/// Each mount of a container whose volume has a place on the host is in place, at the path that
/// it asks for, read-only where it asks for that, and with the sub-path that it asks for.
pub proof fn law_every_mount_is_in_place(
    pod: Pod,
    container: Seq<char>,
    ms: Seq<VolumeMount>,
    env: Seq<(Seq<char>, Seq<char>)>,
    paths: Seq<(String, String)>,
    i: int,
)
    requires
        0 <= i < ms.len(),
        mounted(pod, container, ms, env, paths) is Ok,
    ensures
        sub_path_of(container, ms[i], env) is Ok,
        api::lookup(paths, ms[i].name@) matches Some(host) ==> is_in_place(
            mounted(pod, container, ms, env, paths)->Ok_0,
            pod,
            ms[i],
            sub_path_of(container, ms[i], env)->Ok_0,
            host,
        ),
    decreases ms.len(),
{
    let short = ms.drop_last();
    let done = mounted(pod, container, short, env, paths)->Ok_0;
    let m = ms.last();
    let sub = sub_path_of(container, m, env);
    if i < ms.len() - 1 {
        assert(short[i] == ms[i]);
        law_every_mount_is_in_place(pod, container, short, env, paths, i);
        if let Some(host) = api::lookup(paths, ms[i].name@) {
            if let Some(host2) = api::lookup(paths, m.name@) {
                lemma_stays_in_place(
                    pod,
                    done,
                    ms[i],
                    sub_path_of(container, ms[i], env)->Ok_0,
                    host,
                    m,
                    sub->Ok_0,
                    host2,
                );
            }
        }
    } else if let Some(host) = api::lookup(paths, m.name@) {
        lemma_with_mount(pod, done, m, sub->Ok_0, host);
    }
}

/// A container has no bind mounts, memory file systems or sub-path directories but those of its
/// mounts, and as many of them at most.
pub proof fn law_nothing_is_mounted_unasked(
    pod: Pod,
    container: Seq<char>,
    ms: Seq<VolumeMount>,
    env: Seq<(Seq<char>, Seq<char>)>,
    paths: Seq<(String, String)>,
    bind: Seq<char>,
)
    requires
        mounted(pod, container, ms, env, paths) is Ok,
        mounted(pod, container, ms, env, paths)->Ok_0.binds.contains(bind),
    ensures
        exists|i: int|
            0 <= i < ms.len() && api::lookup(paths, (#[trigger] ms[i]).name@) is Some
                && text::begins(bind, api::lookup(paths, ms[i].name@)->0) && text::ends(
                bind,
                ":"@ + ms[i].mount_path@ + (if ms[i].read_only == Some(true) {
                    ":ro"@
                } else {
                    Seq::empty()
                }),
            ),
    decreases ms.len(),
{
    if ms.len() > 0 {
        let short = ms.drop_last();
        let done = mounted(pod, container, short, env, paths)->Ok_0;
        let now = mounted(pod, container, ms, env, paths)->Ok_0;
        let m = ms.last();
        let n = ms.len() - 1;
        if done.binds.contains(bind) {
            law_nothing_is_mounted_unasked(pod, container, short, env, paths, bind);
            let i = choose|i: int|
                0 <= i < short.len() && api::lookup(paths, (#[trigger] short[i]).name@) is Some
                    && text::begins(bind, api::lookup(paths, short[i].name@)->0) && text::ends(
                    bind,
                    ":"@ + short[i].mount_path@ + (if short[i].read_only == Some(true) {
                        ":ro"@
                    } else {
                        Seq::empty()
                    }),
                );
            assert(short[i] == ms[i]);
        } else {
            let k = choose|k: int| 0 <= k < now.binds.len() && now.binds[k] == bind;
            if k < done.binds.len() {
                assert(done.binds[k] == now.binds[k]);
            }
            let host = api::lookup(paths, m.name@)->0;
            let tail = ":"@ + m.mount_path@ + (if m.read_only == Some(true) {
                ":ro"@
            } else {
                Seq::empty()
            });
            assert(bind == now.binds.last());
            assert(bind.take(host.len() as int) =~= host);
            assert(bind.skip(bind.len() - tail.len()) =~= tail);
            assert(ms[n as int] == m);
        }
    }
}

/// The first mount whose sub-path is refused decides: it refuses the container, for its reason,
/// and nothing is refused where no sub-path is.
pub proof fn law_the_first_bad_sub_path_decides(
    pod: Pod,
    container: Seq<char>,
    ms: Seq<VolumeMount>,
    env: Seq<(Seq<char>, Seq<char>)>,
    paths: Seq<(String, String)>,
    k: int,
)
    requires
        0 <= k <= ms.len(),
        forall|i: int| 0 <= i < k ==> sub_path_of(container, #[trigger] ms[i], env) is Ok,
    ensures
        k == ms.len() ==> mounted(pod, container, ms, env, paths) is Ok,
        k < ms.len() && sub_path_of(container, ms[k], env) is Err ==> mounted(
            pod,
            container,
            ms,
            env,
            paths,
        ) is Err && mounted(pod, container, ms, env, paths)->Err_0.0 == sub_path_of(
            container,
            ms[k],
            env,
        )->Err_0,
    decreases ms.len(),
{
    if ms.len() > 0 {
        let short = ms.drop_last();
        assert(forall|i: int| 0 <= i < short.len() ==> (#[trigger] short[i]) == ms[i]);
        if k >= ms.len() - 1 {
            assert forall|i: int| 0 <= i < short.len() implies sub_path_of(
                container,
                #[trigger] short[i],
                env,
            ) is Ok by {
                assert(sub_path_of(container, ms[i], env) is Ok);
            }
            law_the_first_bad_sub_path_decides(
                pod,
                container,
                short,
                env,
                paths,
                short.len() as int,
            );
            if k == ms.len() {
                assert(sub_path_of(container, ms[ms.len() - 1], env) is Ok);
            }
        } else {
            assert forall|i: int| 0 <= i < k implies sub_path_of(
                container,
                #[trigger] short[i],
                env,
            ) is Ok by {
                assert(sub_path_of(container, ms[i], env) is Ok);
            }
            law_the_first_bad_sub_path_decides(pod, container, short, env, paths, k);
        }
    }
}

/// A mount's sub-path is what its expression becomes, which must not be empty, or else its
/// plain sub-path, which must not be absolute, climb or hold a backtick. An empty text counts
/// as none.
pub proof fn law_sub_paths_are_checked(
    container: Seq<char>,
    m: VolumeMount,
    env: Seq<(Seq<char>, Seq<char>)>,
)
    ensures
        ({
            let r = sub_path_of(container, m, env);
            let has_expr = m.sub_path_expr is Some && m.sub_path_expr->0@.len() > 0;
            let has_path = m.sub_path is Some && m.sub_path->0@.len() > 0;
            &&& has_expr ==> {
                let e = expand::subpath_result(m.sub_path_expr->0@, env);
                &&& e is Err ==> r is Err
                &&& e matches Ok(t) ==> t.len() == 0 ==> r is Err
                &&& e matches Ok(t) ==> t.len() > 0 ==> r == Ok::<Option<Seq<char>>, Seq<char>>(
                    Some(t),
                )
            }
            &&& !has_expr && has_path ==> {
                let p = m.sub_path->0@;
                let bad = p[0] == '/' || p.contains('`') || text::split(p, '/').contains(".."@);
                &&& bad ==> r is Err
                &&& !bad ==> r == Ok::<Option<Seq<char>>, Seq<char>>(Some(p))
            }
            &&& !has_expr && !has_path ==> r == Ok::<Option<Seq<char>>, Seq<char>>(None)
        }),
{
    reveal_strlit("/");
    if m.sub_path is Some && m.sub_path->0@.len() > 0 {
        let p = m.sub_path->0@;
        assert(p.take(1)[0] == p[0]);
        if p[0] == '/' {
            assert(p.take(1) =~= "/"@);
        }
    }
}

/// A volume is in memory if it is an empty directory with that medium; the first volume of its
/// name decides.
pub proof fn law_memory_volumes_say_so(vs: Seq<Volume>, name: Seq<char>, k: int)
    requires
        0 <= k < vs.len(),
        vs[k].name@ == name,
        forall|j: int| 0 <= j < k ==> (#[trigger] vs[j]).name@ != name,
    ensures
        in_memory(vs, name) <==> vs[k].empty_dir is Some && vs[k].empty_dir->0.medium is Some
            && vs[k].empty_dir->0.medium->0@ == "Memory"@,
{
    lemma_volume_named(vs, name, k);
}

proof fn lemma_volume_named(vs: Seq<Volume>, name: Seq<char>, k: int)
    requires
        0 <= k < vs.len(),
        vs[k].name@ == name,
        forall|j: int| 0 <= j < k ==> (#[trigger] vs[j]).name@ != name,
    ensures
        volume_named(vs, name) == Some(vs[k]),
    decreases vs.len(),
{
    if k > 0 {
        let rest = vs.drop_first();
        assert(vs[0].name@ != name);
        assert forall|j: int| 0 <= j < k - 1 implies (#[trigger] rest[j]).name@ != name by {
            assert(rest[j] == vs[j + 1]);
        }
        assert(rest[k - 1] == vs[k]);
        lemma_volume_named(rest, name, k - 1);
    }
}

/// A container leaves its message at the path that it names, and at `/dev/termination-log`
/// where it names none.
pub proof fn law_messages_are_left_where_asked(o: Option<String>)
    ensures
        o is None || o->0@.len() == 0 ==> termination_path(o) == "/dev/termination-log"@,
        o matches Some(s) ==> s@.len() > 0 ==> termination_path(o) == s@,
{
}

/// A volume in memory is mounted as a file system that anyone may write to, or read where the
/// mount is read-only, at the path that is asked for; and nothing is bound to the host there.
pub proof fn law_memory_mounts_are_open_to_all(
    pod: Pod,
    done: MountsView,
    m: VolumeMount,
    host: Seq<char>,
)
    requires
        in_memory(volumes_of(pod), m.name@),
    ensures
        ({
            let next = with_mount(pod, done, m, None, host);
            &&& m.read_only == Some(true) ==> ports::bound_to(next.tmpfs, m.mount_path@) == Some(
                "ro,mode=0777"@,
            )
            &&& m.read_only != Some(true) ==> ports::bound_to(next.tmpfs, m.mount_path@) == Some(
                "mode=0777"@,
            )
            &&& next.binds == done.binds
        }),
{
    ports::law_put_changes_one_key(
        done.tmpfs,
        m.mount_path@,
        if is_read_only(m) {
            "ro,mode=0777"@
        } else {
            "mode=0777"@
        },
        m.mount_path@,
    );
}

/// A pod's volumes and a container's mounts are those that their descriptions list, all of
/// them.
pub proof fn law_all_listed_volumes_and_mounts_count(pod: Pod, c: Container)
    ensures
        pod.spec is Some && pod.spec->0.volumes is Some ==> volumes_of(pod) == pod.spec->0.volumes->0@,
        pod.spec is None || pod.spec->0.volumes is None ==> volumes_of(pod).len() == 0,
        c.volume_mounts is Some ==> mounts_of(c) == c.volume_mounts->0@,
        c.volume_mounts is None ==> mounts_of(c).len() == 0,
{
}

/// Only volumes held in memory are mounted from there.
pub proof fn law_only_memory_volumes_are_mounted_from_memory(
    pod: Pod,
    container: Seq<char>,
    ms: Seq<VolumeMount>,
    env: Seq<(Seq<char>, Seq<char>)>,
    paths: Seq<(String, String)>,
    target: Seq<char>,
)
    requires
        mounted(pod, container, ms, env, paths) is Ok,
        ports::bound_to(mounted(pod, container, ms, env, paths)->Ok_0.tmpfs, target) is Some,
    ensures
        exists|i: int|
            0 <= i < ms.len() && (#[trigger] ms[i]).mount_path@ == target && in_memory(
                volumes_of(pod),
                ms[i].name@,
            ),
    decreases ms.len(),
{
    if ms.len() > 0 {
        let d = ms.drop_last();
        let m = ms.last();
        let done = mounted(pod, container, d, env, paths);
        assert(done is Ok);
        assert(ms[ms.len() - 1] == m);
        let old = done->Ok_0.tmpfs;
        if let Some(host) = api::lookup(paths, m.name@) {
            let sub = sub_path_of(container, m, env)->Ok_0;
            if sub is None && in_memory(volumes_of(pod), m.name@) {
                ports::law_put_changes_one_key(
                    old,
                    m.mount_path@,
                    if is_read_only(m) {
                        "ro,mode=0777"@
                    } else {
                        "mode=0777"@
                    },
                    target,
                );
            }
        }
        if !(m.mount_path@ == target && in_memory(volumes_of(pod), m.name@)) {
            law_only_memory_volumes_are_mounted_from_memory(pod, container, d, env, paths, target);
            let i = choose|i: int|
                0 <= i < d.len() && (#[trigger] d[i]).mount_path@ == target && in_memory(
                    volumes_of(pod),
                    d[i].name@,
                );
            assert(ms[i] == d[i]);
        }
    }
}

} // verus!
