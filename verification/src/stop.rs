//! Stopping pods: the hooks that run first, the order in which containers are stopped, and
//! whether anything is still running.

use crate::api::{Container, LifecycleHandler, Pod};
use crate::container::ContainerStatusKind;
use crate::daemon::{ContainerSummary, NetworkSettings};
use crate::names;
use crate::ports;
use crate::runtime::ContainerRuntime;
use crate::sandbox;
use crate::status;
use crate::text;
use vstd::prelude::*;
use vstd::string::*;

verus! {

/// The first name of a container in the daemon's list, without slashes before it.
pub open spec fn first_name(c: ContainerSummary) -> Seq<char> {
    match c.names {
        Some(ns) if ns@.len() > 0 => text::trimmed_start(ns@[0]@, '/'),
        _ => Seq::empty(),
    }
}

/// The container holds a pod's network.
pub open spec fn is_pause(c: ContainerSummary) -> bool {
    text::ends(first_name(c), "_pause"@)
}

/// The daemon says that the container runs.
pub open spec fn is_running(c: ContainerSummary) -> bool {
    text::opt_text(c.state) == Some("running"@)
}

/// The container is stopped with its pod: it has an identity and, where only those count
/// that run, it runs.
pub open spec fn is_stopped(c: ContainerSummary, running_only: bool) -> bool {
    c.id is Some && (running_only ==> is_running(c))
}

/// The containers that are stopped and hold no network, in the order of the list.
pub open spec fn app_ids(cs: Seq<ContainerSummary>, running_only: bool) -> Seq<Seq<char>>
    decreases cs.len(),
{
    if cs.len() == 0 {
        Seq::empty()
    } else {
        let rest = app_ids(cs.drop_last(), running_only);
        let c = cs.last();
        if is_stopped(c, running_only) && !is_pause(c) {
            rest.push(c.id->0@)
        } else {
            rest
        }
    }
}

/// The last container that is stopped and holds the network.
pub open spec fn pause_id(cs: Seq<ContainerSummary>, running_only: bool) -> Option<Seq<char>>
    decreases cs.len(),
{
    if cs.len() == 0 {
        None
    } else if is_stopped(cs.last(), running_only) && is_pause(cs.last()) {
        Some(cs.last().id->0@)
    } else {
        pause_id(cs.drop_last(), running_only)
    }
}

/// The order in which a pod's containers are stopped: the one that holds the network
/// last.
pub open spec fn stop_order(cs: Seq<ContainerSummary>, running_only: bool) -> Seq<Seq<char>> {
    match pause_id(cs, running_only) {
        Some(p) => app_ids(cs, running_only).push(p),
        None => app_ids(cs, running_only),
    }
}

proof fn lemma_app_ids_has(cs: Seq<ContainerSummary>, running_only: bool, i: int)
    requires
        0 <= i < cs.len(),
        is_stopped(cs[i], running_only),
        !is_pause(cs[i]),
    ensures
        exists|k: int|
            0 <= k < app_ids(cs, running_only).len() && #[trigger] app_ids(cs, running_only)[k]
                == cs[i].id->0@,
    decreases cs.len(),
{
    let all = app_ids(cs, running_only);
    if i == cs.len() - 1 {
        assert(all[all.len() - 1] == cs[i].id->0@);
    } else {
        let front = cs.drop_last();
        assert(front[i] == cs[i]);
        lemma_app_ids_has(front, running_only, i);
        let some = app_ids(front, running_only);
        let k = choose|k: int| 0 <= k < some.len() && #[trigger] some[k] == cs[i].id->0@;
        assert(all[k] == some[k]);
    }
}

proof fn lemma_pause_id_is_one(cs: Seq<ContainerSummary>, running_only: bool)
    ensures
        match pause_id(cs, running_only) {
            Some(p) => exists|i: int|
                0 <= i < cs.len() && is_stopped(#[trigger] cs[i], running_only) && is_pause(cs[i])
                    && cs[i].id->0@ == p,
            None => forall|i: int|
                0 <= i < cs.len() ==> !(is_stopped(#[trigger] cs[i], running_only) && is_pause(
                    cs[i],
                )),
        },
    decreases cs.len(),
{
    if cs.len() > 0 {
        let front = cs.drop_last();
        lemma_pause_id_is_one(front, running_only);
        assert(cs[cs.len() - 1] == cs.last());
        match pause_id(front, running_only) {
            Some(p) => {
                let i = choose|i: int|
                    0 <= i < front.len() && is_stopped(#[trigger] front[i], running_only)
                        && is_pause(front[i]) && front[i].id->0@ == p;
                assert(cs[i] == front[i]);
            },
            None => {
                assert forall|i: int| 0 <= i < cs.len() - 1 implies !(is_stopped(
                    #[trigger] cs[i],
                    running_only,
                ) && is_pause(cs[i])) by {
                    assert(front[i] == cs[i]);
                }
            },
        }
    }
}

/// The container that holds a pod's network is stopped last: every other one that is
/// stopped comes before it, so none loses its network while it shuts down.
pub proof fn law_the_network_goes_last(cs: Seq<ContainerSummary>, running_only: bool, i: int)
    requires
        0 <= i < cs.len(),
        is_stopped(cs[i], running_only),
    ensures
        ({
            let order = stop_order(cs, running_only);
            &&& order.len() > 0
            &&& !is_pause(cs[i]) ==> exists|k: int|
                0 <= k < order.len() && #[trigger] order[k] == cs[i].id->0@ && (pause_id(
                    cs,
                    running_only,
                ) is Some ==> k < order.len() - 1)
            &&& is_pause(cs[i]) ==> pause_id(cs, running_only) == Some(order.last())
        }),
{
    lemma_pause_id_is_one(cs, running_only);
    let order = stop_order(cs, running_only);
    if !is_pause(cs[i]) {
        lemma_app_ids_has(cs, running_only, i);
        let all = app_ids(cs, running_only);
        let k = choose|k: int| 0 <= k < all.len() && #[trigger] all[k] == cs[i].id->0@;
        assert(order[k] == all[k]);
    }
}

/// The first name of a container in the daemon's list.
pub fn name_of(c: &ContainerSummary) -> (r: String)
    ensures
        r@ == first_name(*c),
{
    match &c.names {
        Some(ns) => {
            if ns.len() > 0 {
                String::from_str(text::trim_start_char(ns[0].as_str(), '/'))
            } else {
                String::new()
            }
        },
        None => String::new(),
    }
}

/// The order in which a pod's containers are stopped.
fn order_of_stopping(cs: &Vec<ContainerSummary>, running_only: bool) -> (r: Vec<String>)
    ensures
        text::texts(r@) == stop_order(cs@, running_only),
{
    let mut out: Vec<String> = Vec::new();
    let mut pause: Option<String> = None;
    let mut i: usize = 0;
    assert(cs@.take(0) == Seq::<ContainerSummary>::empty());
    assert(text::texts(out@) =~= Seq::<Seq<char>>::empty());
    while i < cs.len()
        invariant
            i <= cs@.len(),
            text::texts(out@) == app_ids(cs@.take(i as int), running_only),
            text::opt_text(pause) == pause_id(cs@.take(i as int), running_only),
        decreases cs@.len() - i,
    {
        assert(cs@.take(i as int + 1).drop_last() == cs@.take(i as int));
        assert(cs@.take(i as int + 1).last() == cs@[i as int]);
        if let Some(id) = &cs[i].id {
            if !running_only || status::is_text(&cs[i].state, "running") {
                let name = name_of(&cs[i]);
                if text::ends_with(name.as_str(), "_pause") {
                    pause = Some(id.clone());
                } else {
                    text::push_text(&mut out, id.clone());
                }
            }
        }
        i += 1;
    }
    assert(cs@.take(cs@.len() as int) == cs@);
    if let Some(p) = pause {
        text::push_text(&mut out, p);
    }
    out
}

/// What is done to stop a pod.
#[derive(Clone, Debug)]
pub struct StopPlan {
    /// The containers to stop, in this order.
    pub stop: Vec<String>,
    /// How many seconds each is given.
    pub grace_period_seconds: i64,
    /// Each is removed by force after it has been stopped.
    pub remove: bool,
    /// The pod's network is torn down at the end.
    pub teardown_network: bool,
}

/// The containers of a list that have an identity.
pub open spec fn known_ids(cs: Seq<ContainerSummary>) -> Seq<Seq<char>>
    decreases cs.len(),
{
    if cs.len() == 0 {
        Seq::empty()
    } else {
        let rest = known_ids(cs.drop_last());
        match cs.last().id {
            Some(id) => rest.push(id@),
            None => rest,
        }
    }
}

/// Values by the texts of their keys.
pub open spec fn refs_view(v: Seq<(String, &LifecycleHandler)>) -> Seq<
    (Seq<char>, LifecycleHandler),
> {
    v.map_values(|p: (String, &LifecycleHandler)| (p.0@, *p.1))
}

/// The pre-stop hook of a container.
pub open spec fn pre_stop_of(c: Container) -> Option<LifecycleHandler> {
    match c.lifecycle {
        Some(l) => l.pre_stop,
        None => None,
    }
}

/// The pre-stop hooks of the containers, by the containers' full names, added to those
/// known.
pub open spec fn hooks_by_name(
    known: Seq<(Seq<char>, LifecycleHandler)>,
    pod: Seq<char>,
    cs: Seq<Container>,
) -> Seq<(Seq<char>, LifecycleHandler)>
    decreases cs.len(),
{
    if cs.len() == 0 {
        known
    } else {
        let rest = hooks_by_name(known, pod, cs.drop_last());
        match pre_stop_of(cs.last()) {
            Some(h) => ports::put(rest, names::container_name_text(pod, cs.last().name@), h),
            None => rest,
        }
    }
}

/// The pre-stop hooks of a pod, by its containers' full names.
pub open spec fn pod_hooks(pod: Pod) -> Seq<(Seq<char>, LifecycleHandler)> {
    match pod.spec {
        Some(s) => {
            let apps = hooks_by_name(Seq::empty(), pod.metadata.name@, s.containers@);
            match s.init_containers {
                Some(v) => hooks_by_name(apps, pod.metadata.name@, v@),
                None => apps,
            }
        },
        None => Seq::empty(),
    }
}

/// The hook of the named container: its own, or else the first whose container's name is
/// the end of this one.
pub open spec fn hook_named(
    hooks: Seq<(Seq<char>, LifecycleHandler)>,
    pod_len: int,
    name: Seq<char>,
) -> Option<LifecycleHandler> {
    match exact_hook(hooks, name) {
        Some(h) => Some(h),
        None => suffix_hook(hooks, pod_len, name),
    }
}

/// The first hook with the name.
pub open spec fn exact_hook(hooks: Seq<(Seq<char>, LifecycleHandler)>, name: Seq<char>) -> Option<
    LifecycleHandler,
>
    decreases hooks.len(),
{
    if hooks.len() == 0 {
        None
    } else if hooks[0].0 == name {
        Some(hooks[0].1)
    } else {
        exact_hook(hooks.drop_first(), name)
    }
}

/// The first hook whose name, behind the pod's, is the end of `name`.
pub open spec fn suffix_hook(
    hooks: Seq<(Seq<char>, LifecycleHandler)>,
    pod_len: int,
    name: Seq<char>,
) -> Option<LifecycleHandler>
    decreases hooks.len(),
{
    if hooks.len() == 0 {
        None
    } else if text::ends(name, hooks[0].0.skip(pod_len)) {
        Some(hooks[0].1)
    } else {
        suffix_hook(hooks.drop_first(), pod_len, name)
    }
}

/// The last container with the name.
pub open spec fn last_named(cs: Seq<Container>, name: Seq<char>) -> Option<Container>
    decreases cs.len(),
{
    if cs.len() == 0 {
        None
    } else if cs.last().name@ == name {
        Some(cs.last())
    } else {
        last_named(cs.drop_last(), name)
    }
}

/// The name that a container has in its pod.
pub open spec fn name_in_pod(name: Seq<char>, pod: Seq<char>) -> Seq<char> {
    if text::begins(name, names::container_prefix_text(pod)) {
        name.skip(names::container_prefix_text(pod).len() as int)
    } else {
        name
    }
}

/// A hook to run before a container is stopped.
pub struct PreStopHook<'a> {
    /// The full name of the container.
    pub container_name: String,
    pub handler: &'a LifecycleHandler,
    /// The container in the pod's specification, where it is one of its application
    /// containers.
    pub container: Option<&'a Container>,
}

/// A hook to run before a container is stopped, its name in characters.
pub ghost struct HookView {
    pub container_name: Seq<char>,
    pub handler: LifecycleHandler,
    pub container: Option<Container>,
}

impl<'a> PreStopHook<'a> {
    /// The hook with its name in characters.
    pub open spec fn view_of(self) -> HookView {
        HookView {
            container_name: self.container_name@,
            handler: *self.handler,
            container: match self.container {
                Some(c) => Some(*c),
                None => None,
            },
        }
    }
}

/// The hooks of a list with their names in characters.
pub open spec fn hooks_view(v: Seq<PreStopHook<'_>>) -> Seq<HookView> {
    v.map_values(|h: PreStopHook<'_>| h.view_of())
}

/// The application containers of a pod.
pub open spec fn apps_of(pod: Pod) -> Seq<Container> {
    match pod.spec {
        Some(s) => s.containers@,
        None => Seq::empty(),
    }
}

/// The hooks to run before the containers of the list are stopped: those of the ones that
/// run.
pub open spec fn hooks_to_run(pod: Pod, cs: Seq<ContainerSummary>) -> Seq<HookView>
    decreases cs.len(),
{
    if cs.len() == 0 {
        Seq::empty()
    } else {
        let rest = hooks_to_run(pod, cs.drop_last());
        let c = cs.last();
        let name = first_name(c);
        match hook_named(pod_hooks(pod), pod.metadata.name@.len() as int, name) {
            Some(h) if is_running(c) => rest.push(
                HookView {
                    container_name: name,
                    handler: h,
                    container: last_named(apps_of(pod), name_in_pod(name, pod.metadata.name@)),
                },
            ),
            _ => rest,
        }
    }
}

/// Sets the hook of a key: in its place, or at the end.
fn put_hook<'a>(v: &mut Vec<(String, &'a LifecycleHandler)>, key: &str, h: &'a LifecycleHandler)
    ensures
        refs_view(final(v)@) == ports::put(refs_view(old(v)@), key@, *h),
{
    let ghost s = refs_view(v@);
    let n: usize = v.len();
    let mut i: usize = 0;
    assert(s.skip(0) == s);
    assert(s.take(0) + ports::put(s, key@, *h) =~= ports::put(s, key@, *h));
    while i < n
        invariant
            i <= n,
            n == v@.len(),
            v@ == old(v)@,
            s == refs_view(v@),
            ports::put(s, key@, *h) == s.take(i as int) + ports::put(s.skip(i as int), key@, *h),
        decreases n - i,
    {
        let ghost t = s.skip(i as int);
        assert(t[0] == (v@[i as int].0@, *v@[i as int].1));
        assert(t.drop_first() == s.skip(i + 1));
        if text::same(v[i].0.as_str(), key) {
            v.set(i, (String::from_str(key), h));
            assert(refs_view(v@) =~= s.take(i as int) + (seq![(key@, *h)] + t.drop_first()));
            return;
        }
        assert(s.take(i as int) + (seq![t[0]] + ports::put(t.drop_first(), key@, *h)) =~= s.take(
            i + 1,
        ) + ports::put(s.skip(i + 1), key@, *h));
        i += 1;
    }
    assert(s.skip(n as int) =~= Seq::<(Seq<char>, LifecycleHandler)>::empty());
    assert(s.take(n as int) == s);
    v.push((String::from_str(key), h));
    assert(refs_view(v@) =~= s + seq![(key@, *h)]);
}

/// Adds the pre-stop hooks of the containers.
fn add_hooks<'a>(v: &mut Vec<(String, &'a LifecycleHandler)>, pod: &str, cs: &'a Vec<Container>)
    ensures
        refs_view(final(v)@) == hooks_by_name(refs_view(old(v)@), pod@, cs@),
{
    let ghost known = refs_view(v@);
    let mut i: usize = 0;
    assert(cs@.take(0) == Seq::<Container>::empty());
    while i < cs.len()
        invariant
            i <= cs@.len(),
            refs_view(v@) == hooks_by_name(known, pod@, cs@.take(i as int)),
        decreases cs@.len() - i,
    {
        assert(cs@.take(i as int + 1).drop_last() == cs@.take(i as int));
        assert(cs@.take(i as int + 1).last() == cs@[i as int]);
        if let Some(l) = &cs[i].lifecycle {
            if let Some(h) = &l.pre_stop {
                let key = names::container_name(pod, cs[i].name.as_str());
                put_hook(v, key.as_str(), h);
            }
        }
        i += 1;
    }
    assert(cs@.take(cs@.len() as int) == cs@);
}

/// The hook of the named container.
fn find_hook<'a>(
    hooks: &Vec<(String, &'a LifecycleHandler)>,
    pod_len: usize,
    name: &str,
) -> (r: Option<&'a LifecycleHandler>)
    requires
        forall|i: int| 0 <= i < hooks@.len() ==> (#[trigger] hooks@[i]).0@.len() >= pod_len,
    ensures
        (match r {
            Some(h) => Some(*h),
            None => None,
        }) == hook_named(refs_view(hooks@), pod_len as int, name@),
{
    let ghost s = refs_view(hooks@);
    let mut i: usize = 0;
    assert(s.skip(0) == s);
    while i < hooks.len()
        invariant
            i <= hooks@.len(),
            s == refs_view(hooks@),
            exact_hook(s, name@) == exact_hook(s.skip(i as int), name@),
        decreases hooks@.len() - i,
    {
        assert(s.skip(i as int).drop_first() == s.skip(i as int + 1));
        assert(s.skip(i as int)[0] == (hooks@[i as int].0@, *hooks@[i as int].1));
        if text::same(hooks[i].0.as_str(), name) {
            return Some(hooks[i].1);
        }
        i += 1;
    }
    let mut j: usize = 0;
    while j < hooks.len()
        invariant
            j <= hooks@.len(),
            s == refs_view(hooks@),
            exact_hook(s, name@) is None,
            suffix_hook(s, pod_len as int, name@) == suffix_hook(
                s.skip(j as int),
                pod_len as int,
                name@,
            ),
            forall|i: int| 0 <= i < hooks@.len() ==> (#[trigger] hooks@[i]).0@.len() >= pod_len,
        decreases hooks@.len() - j,
    {
        assert(s.skip(j as int).drop_first() == s.skip(j as int + 1));
        assert(s.skip(j as int)[0] == (hooks@[j as int].0@, *hooks@[j as int].1));
        let key = hooks[j].0.as_str();
        let n: usize = key.unicode_len();
        let tail = key.substring_char(pod_len, n);
        assert(tail@ == key@.skip(pod_len as int));
        if text::ends_with(name, tail) {
            return Some(hooks[j].1);
        }
        j += 1;
    }
    None
}

/// The last container with the name.
fn find_last<'a>(cs: &'a Vec<Container>, name: &str) -> (r: Option<&'a Container>)
    ensures
        (match r {
            Some(c) => Some(*c),
            None => None,
        }) == last_named(cs@, name@),
{
    let mut n: usize = cs.len();
    assert(cs@.take(n as int) == cs@);
    while n > 0
        invariant
            n <= cs@.len(),
            last_named(cs@, name@) == last_named(cs@.take(n as int), name@),
        decreases n,
    {
        assert(cs@.take(n as int).drop_last() == cs@.take(n - 1));
        assert(cs@.take(n as int).last() == cs@[n - 1]);
        if text::same(cs[n - 1].name.as_str(), name) {
            return Some(&cs[n - 1]);
        }
        n -= 1;
    }
    None
}

proof fn lemma_put_keys_are_long<V>(s: Seq<(Seq<char>, V)>, k: Seq<char>, v: V, n: int)
    requires
        forall|i: int| 0 <= i < s.len() ==> (#[trigger] s[i]).0.len() >= n,
        k.len() >= n,
    ensures
        forall|i: int| 0 <= i < ports::put(s, k, v).len() ==> (#[trigger] ports::put(s, k, v)[i]).0.len()
            >= n,
    decreases s.len(),
{
    if s.len() > 0 {
        let t = s.drop_first();
        assert forall|i: int| 0 <= i < t.len() implies (#[trigger] t[i]).0.len() >= n by {
            assert(t[i] == s[i + 1]);
        }
        let r = ports::put(s, k, v);
        if s[0].0 == k {
            assert forall|i: int| 0 <= i < r.len() implies (#[trigger] r[i]).0.len() >= n by {
                if i > 0 {
                    assert(r[i] == t[i - 1]);
                }
            }
        } else {
            lemma_put_keys_are_long(t, k, v, n);
            let u = ports::put(t, k, v);
            assert forall|i: int| 0 <= i < r.len() implies (#[trigger] r[i]).0.len() >= n by {
                if i > 0 {
                    assert(r[i] == u[i - 1]);
                }
            }
        }
    }
}

proof fn lemma_hook_keys_are_long(
    known: Seq<(Seq<char>, LifecycleHandler)>,
    pod: Seq<char>,
    cs: Seq<Container>,
)
    requires
        forall|i: int| 0 <= i < known.len() ==> (#[trigger] known[i]).0.len() >= pod.len(),
    ensures
        forall|i: int|
            0 <= i < hooks_by_name(known, pod, cs).len() ==> (#[trigger] hooks_by_name(
                known,
                pod,
                cs,
            )[i]).0.len() >= pod.len(),
    decreases cs.len(),
{
    if cs.len() > 0 {
        lemma_hook_keys_are_long(known, pod, cs.drop_last());
        let rest = hooks_by_name(known, pod, cs.drop_last());
        if let Some(h) = pre_stop_of(cs.last()) {
            lemma_put_keys_are_long(
                rest,
                names::container_name_text(pod, cs.last().name@),
                h,
                pod.len() as int,
            );
        }
    }
}

/// What the daemon says of a container, as far as its having ended depends on it.
#[derive(Clone, Copy, Debug, PartialEq, Eq, Structural)]
pub struct EndState {
    pub running: Option<bool>,
    pub status: Option<ContainerStatusKind>,
    pub exit_code: Option<i64>,
}

/// The container has ended: it does not run, and there is a code that it ended with, or the
/// daemon says that it has exited or is dead.
pub open spec fn has_ended(s: Option<EndState>) -> bool {
    s matches Some(x) && x.running != Some(true) && (x.exit_code is Some || x.status == Some(
        ContainerStatusKind::Exited,
    ) || x.status == Some(ContainerStatusKind::Dead))
}

/// The container whose address a pod has.
#[derive(Clone, Debug)]
pub enum AddressOf {
    /// The one with the identity.
    Container(String),
    /// No container holds the pod's network: its other containers are to be listed.
    OtherContainers,
    /// None.
    Nobody,
}

/// The identity of the first container of a list.
pub open spec fn first_id(cs: Seq<ContainerSummary>) -> Option<Seq<char>> {
    if cs.len() == 0 {
        None
    } else {
        text::opt_text(cs[0].id)
    }
}

/// The container has a name, and none of its names has `part` in it.
pub open spec fn named_without(c: ContainerSummary, part: Seq<char>) -> bool {
    c.names matches Some(ns) && forall|i: int|
        0 <= i < ns@.len() ==> !text::has((#[trigger] ns@[i])@, part)
}

/// The container has a name that does not have `part` in it.
pub open spec fn has_name_without(c: ContainerSummary, part: Seq<char>) -> bool {
    c.names matches Some(ns) && exists|i: int|
        0 <= i < ns@.len() && !text::has((#[trigger] ns@[i])@, part)
}

/// The first container of the list that has a name with `part` in it.
pub open spec fn first_with(cs: Seq<ContainerSummary>, part: Seq<char>) -> Option<ContainerSummary>
    decreases cs.len(),
{
    if cs.len() == 0 {
        None
    } else if sandbox::named_with(cs[0], part) {
        Some(cs[0])
    } else {
        first_with(cs.drop_first(), part)
    }
}

/// A container that uses another's network uses that of the pod's pause container, which
/// goes by its name or its identity.
pub open spec fn shares_network(
    c: ContainerSummary,
    pause: Seq<char>,
    id: Option<Seq<char>>,
) -> bool {
    match c.network_mode {
        Some(m) if text::begins(m@, "container:"@) => m@ == "container:"@ + pause || (id is Some
            && m@ == "container:"@ + id->0),
        _ => true,
    }
}

/// The pod runs, by its containers that run: one is an application container; the one
/// that holds the network is there, unless plugins provide it; and all others use that
/// network, if they use another's.
pub open spec fn pod_is_running(cs: Seq<ContainerSummary>, pod: Seq<char>, use_cni: bool) -> bool {
    let pause = names::pause_name_text(pod);
    let holder = first_with(cs, pause);
    &&& exists|i: int| 0 <= i < cs.len() && has_name_without(#[trigger] cs[i], pause)
    &&& use_cni || holder is Some
    &&& holder matches Some(h) ==> forall|i: int|
        0 <= i < cs.len() && named_without(#[trigger] cs[i], pause) ==> shares_network(
            cs[i],
            pause,
            text::opt_text(h.id),
        )
}

/// A pod whose network holder is gone, or whose containers use another network than its,
/// does not run.
pub proof fn law_a_pod_without_its_network_does_not_run(
    cs: Seq<ContainerSummary>,
    pod: Seq<char>,
    i: int,
)
    ensures
        first_with(cs, names::pause_name_text(pod)) is None ==> !pod_is_running(cs, pod, false),
        first_with(cs, names::pause_name_text(pod)) matches Some(h) && 0 <= i < cs.len()
            && named_without(cs[i], names::pause_name_text(pod)) && !shares_network(
            cs[i],
            names::pause_name_text(pod),
            text::opt_text(h.id),
        ) ==> !pod_is_running(cs, pod, false),
{
}

proof fn lemma_named_either_way(c: ContainerSummary, part: Seq<char>)
    requires
        c.names is Some,
    ensures
        named_without(c, part) <==> !sandbox::named_with(c, part),
{
    let ns = c.names->0;
    let ts = text::texts(ns@);
    assert forall|i: int| 0 <= i < ns@.len() implies #[trigger] ts[i] == ns@[i]@ by {
    }
    if !sandbox::named_with(c, part) {
        assert forall|i: int| 0 <= i < ns@.len() implies !text::has((#[trigger] ns@[i])@, part) by {
            assert(ts[i] == ns@[i]@);
        }
    }
}

fn name_without(c: &ContainerSummary, part: &str) -> (r: bool)
    ensures
        r == has_name_without(*c, part@),
{
    if let Some(ns) = &c.names {
        let mut i: usize = 0;
        while i < ns.len()
            invariant
                i <= ns@.len(),
                c.names == Some(*ns),
                forall|j: int| 0 <= j < i ==> text::has((#[trigger] ns@[j])@, part@),
            decreases ns@.len() - i,
        {
            if !text::contains(ns[i].as_str(), part) {
                let ghost all = c.names->0@;
                assert(!text::has(all[i as int]@, part@));
                return true;
            }
            i += 1;
        }
    }
    false
}

fn network_shared(c: &ContainerSummary, pause: &str, id: &Option<String>) -> (r: bool)
    ensures
        r == shares_network(*c, pause@, text::opt_text(*id)),
{
    match &c.network_mode {
        Some(m) => {
            if text::starts_with(m.as_str(), "container:") {
                let by_name = text::cat2("container:", pause);
                if text::same(m.as_str(), by_name.as_str()) {
                    return true;
                }
                match id {
                    Some(x) => {
                        let by_id = text::cat2("container:", x.as_str());
                        text::same(m.as_str(), by_id.as_str())
                    },
                    None => false,
                }
            } else {
                true
            }
        },
        None => true,
    }
}

impl ContainerRuntime {
    /// How a pod's containers are stopped, each with the same time to shut down.
    pub fn stop_pod_with_grace_period(
        &self,
        listed: &Vec<ContainerSummary>,
        grace_period_seconds: i64,
    ) -> (r: StopPlan)
        ensures
            text::texts(r.stop@) == stop_order(listed@, false),
            r.grace_period_seconds == grace_period_seconds,
            !r.remove,
            r.teardown_network == self.use_cni,
    {
        StopPlan {
            stop: order_of_stopping(listed, false),
            grace_period_seconds,
            remove: false,
            teardown_network: self.use_cni,
        }
    }

    /// How a pod is stopped with the usual time to shut down. Its probes begin afresh.
    pub fn stop_pod(&mut self, pod_name: &str, listed: &Vec<ContainerSummary>) -> (r: StopPlan)
        ensures
            crate::probe::same_settings(*old(self), *final(self)),
            crate::probe::states_view(final(self).probe_states@) == crate::probe::without_prefix(
                crate::probe::states_view(old(self).probe_states@),
                pod_name@ + "/"@,
            ),
            text::texts(r.stop@) == stop_order(listed@, false),
            r.grace_period_seconds == 30,
            !r.remove,
            r.teardown_network == old(self).use_cni,
    {
        self.clear_probe_states_for_pod(pod_name);
        self.stop_pod_with_grace_period(listed, 30)
    }

    /// How a pod's containers are stopped at once and removed, in the order of the list.
    /// Its probes begin afresh.
    pub fn stop_and_remove_pod(&mut self, pod_name: &str, listed: &Vec<ContainerSummary>) -> (r:
        StopPlan)
        ensures
            crate::probe::same_settings(*old(self), *final(self)),
            crate::probe::states_view(final(self).probe_states@) == crate::probe::without_prefix(
                crate::probe::states_view(old(self).probe_states@),
                pod_name@ + "/"@,
            ),
            text::texts(r.stop@) == known_ids(listed@),
            r.grace_period_seconds == 0,
            r.remove,
            r.teardown_network == old(self).use_cni,
    {
        self.clear_probe_states_for_pod(pod_name);
        let mut out: Vec<String> = Vec::new();
        let mut i: usize = 0;
        assert(listed@.take(0) == Seq::<ContainerSummary>::empty());
        assert(text::texts(out@) =~= Seq::<Seq<char>>::empty());
        while i < listed.len()
            invariant
                i <= listed@.len(),
                text::texts(out@) == known_ids(listed@.take(i as int)),
            decreases listed@.len() - i,
        {
            assert(listed@.take(i as int + 1).drop_last() == listed@.take(i as int));
            assert(listed@.take(i as int + 1).last() == listed@[i as int]);
            if let Some(id) = &listed[i].id {
                text::push_text(&mut out, id.clone());
            }
            i += 1;
        }
        assert(listed@.take(listed@.len() as int) == listed@);
        StopPlan {
            stop: out,
            grace_period_seconds: 0,
            remove: true,
            teardown_network: self.use_cni,
        }
    }

    /// The hooks to run, all at once, before any container of a pod is stopped.
    pub fn pre_stop_hooks<'a>(&self, pod: &'a Pod, listed: &Vec<ContainerSummary>) -> (r: Vec<
        PreStopHook<'a>,
    >)
        ensures
            hooks_view(r@) == hooks_to_run(*pod, listed@),
    {
        let pod_name = pod.metadata.name.as_str();
        let mut hooks: Vec<(String, &'a LifecycleHandler)> = Vec::new();
        assert(refs_view(hooks@) =~= Seq::<(Seq<char>, LifecycleHandler)>::empty());
        if let Some(s) = &pod.spec {
            add_hooks(&mut hooks, pod_name, &s.containers);
            proof {
                lemma_hook_keys_are_long(Seq::empty(), pod_name@, s.containers@);
            }
            if let Some(v) = &s.init_containers {
                let ghost known = refs_view(hooks@);
                add_hooks(&mut hooks, pod_name, v);
                proof {
                    lemma_hook_keys_are_long(known, pod_name@, v@);
                }
            }
        }
        assert(refs_view(hooks@) == pod_hooks(*pod));
        let n: usize = pod_name.unicode_len();
        assert forall|i: int| 0 <= i < hooks@.len() implies (#[trigger] hooks@[i]).0@.len()
            >= n by {
            assert(refs_view(hooks@)[i].0 == hooks@[i].0@);
        }
        let prefix = names::container_prefix(pod_name);
        let mut out: Vec<PreStopHook<'a>> = Vec::new();
        let mut i: usize = 0;
        assert(listed@.take(0) == Seq::<ContainerSummary>::empty());
        assert(hooks_view(out@) =~= Seq::<HookView>::empty());
        while i < listed.len()
            invariant
                i <= listed@.len(),
                pod_name@ == pod.metadata.name@,
                n == pod_name@.len(),
                prefix@ == names::container_prefix_text(pod_name@),
                refs_view(hooks@) == pod_hooks(*pod),
                forall|j: int| 0 <= j < hooks@.len() ==> (#[trigger] hooks@[j]).0@.len() >= n,
                hooks_view(out@) == hooks_to_run(*pod, listed@.take(i as int)),
            decreases listed@.len() - i,
        {
            assert(listed@.take(i as int + 1).drop_last() == listed@.take(i as int));
            assert(listed@.take(i as int + 1).last() == listed@[i as int]);
            if status::is_text(&listed[i].state, "running") {
                let name = name_of(&listed[i]);
                if let Some(h) = find_hook(&hooks, n, name.as_str()) {
                    let short: &str = match text::strip_prefix(name.as_str(), prefix.as_str()) {
                        Some(t) => t,
                        None => name.as_str(),
                    };
                    let container: Option<&'a Container> = match &pod.spec {
                        Some(s) => find_last(&s.containers, short),
                        None => None,
                    };
                    assert(short@ == name_in_pod(name@, pod_name@));
                    let hook = PreStopHook {
                        container_name: String::from_str(name.as_str()),
                        handler: h,
                        container,
                    };
                    let ghost before = hooks_view(out@);
                    out.push(hook);
                    assert(hooks_view(out@) =~= before.push(hook.view_of()));
                }
            }
            i += 1;
        }
        assert(listed@.take(listed@.len() as int) == listed@);
        out
    }

    /// How many seconds the hooks before a pod's end may take together.
    pub fn pre_stop_budget(&self, grace_period_seconds: i64) -> (r: u64)
        ensures
            r == (if grace_period_seconds >= 1 {
                grace_period_seconds as int
            } else {
                1
            }),
    {
        if grace_period_seconds >= 1 {
            grace_period_seconds as u64
        } else {
            1
        }
    }

    /// How a pod's running containers are stopped once its hooks have run for the given
    /// seconds: those are taken off the time to shut down, of which two seconds are left
    /// at least. Its probes begin afresh.
    pub fn stop_pod_for(
        &mut self,
        pod: &Pod,
        listed: &Vec<ContainerSummary>,
        grace_period_seconds: i64,
        hooks_took: i64,
    ) -> (r: StopPlan)
        requires
            i64::MIN <= grace_period_seconds - hooks_took <= i64::MAX,
        ensures
            crate::probe::same_settings(*old(self), *final(self)),
            crate::probe::states_view(final(self).probe_states@) == crate::probe::without_prefix(
                crate::probe::states_view(old(self).probe_states@),
                pod.metadata.name@ + "/"@,
            ),
            text::texts(r.stop@) == stop_order(listed@, true),
            r.grace_period_seconds == (if grace_period_seconds - hooks_took >= 2 {
                grace_period_seconds - hooks_took
            } else {
                2
            }),
            !r.remove,
            r.teardown_network == old(self).use_cni,
    {
        self.clear_probe_states_for_pod(pod.metadata.name.as_str());
        let left: i64 = grace_period_seconds - hooks_took;
        StopPlan {
            stop: order_of_stopping(listed, true),
            grace_period_seconds: if left >= 2 {
                left
            } else {
                2
            },
            remove: false,
            teardown_network: self.use_cni,
        }
    }

    /// Whether a container runs, by what the daemon says of it.
    pub fn is_container_running(&self, running: Option<bool>) -> (r: bool)
        ensures
            r == (running == Some(true)),
    {
        match running {
            Some(b) => b,
            None => false,
        }
    }

    /// Whether one of a pod's application containers has ended, by what the daemon says of
    /// each.
    pub fn has_terminated_containers(&self, states: &Vec<Option<EndState>>) -> (r: bool)
        ensures
            r == exists|i: int| 0 <= i < states@.len() && has_ended(#[trigger] states@[i]),
    {
        let mut i: usize = 0;
        while i < states.len()
            invariant
                i <= states@.len(),
                forall|j: int| 0 <= j < i ==> !has_ended(#[trigger] states@[j]),
            decreases states@.len() - i,
        {
            if let Some(s) = states[i] {
                let over: bool = match s.status {
                    Some(ContainerStatusKind::Exited) => true,
                    Some(ContainerStatusKind::Dead) => true,
                    _ => false,
                };
                if !self.is_container_running(s.running) && (s.exit_code.is_some() || over) {
                    assert(has_ended(states@[i as int]));
                    return true;
                }
            }
            i += 1;
        }
        false
    }

    /// Whether any of a pod's containers runs, given those that do.
    pub fn any_container_running(&self, running: &Vec<ContainerSummary>) -> (r: bool)
        ensures
            r == (running@.len() > 0),
    {
        running.len() > 0
    }

    /// Whether a pod runs, given those of its containers that do.
    pub fn is_pod_running(&self, pod_name: &str, running: &Vec<ContainerSummary>) -> (r: bool)
        ensures
            r == pod_is_running(running@, pod_name@, self.use_cni),
    {
        let pause = names::pause_name(pod_name);
        let mut apps: bool = false;
        let mut i: usize = 0;
        while i < running.len()
            invariant
                i <= running@.len(),
                pause@ == names::pause_name_text(pod_name@),
                apps == exists|j: int|
                    0 <= j < i && has_name_without(#[trigger] running@[j], pause@),
            decreases running@.len() - i,
        {
            if name_without(&running[i], pause.as_str()) {
                assert(has_name_without(running@[i as int], pause@));
                apps = true;
            }
            i += 1;
        }
        if !apps {
            return false;
        }
        let mut k: usize = 0;
        let mut found: bool = false;
        assert(running@.skip(0) == running@);
        while k < running.len() && !found
            invariant
                k <= running@.len(),
                pause@ == names::pause_name_text(pod_name@),
                !found ==> first_with(running@, pause@) == first_with(
                    running@.skip(k as int),
                    pause@,
                ),
                found ==> k < running@.len() && first_with(running@, pause@) == Some(
                    running@[k as int],
                ),
            decreases running@.len() - k + (if found {
                0int
            } else {
                1int
            }),
        {
            assert(running@.skip(k as int).drop_first() == running@.skip(k as int + 1));
            assert(running@.skip(k as int)[0] == running@[k as int]);
            if sandbox::has_name_with(&running[k], pause.as_str()) {
                found = true;
            } else {
                k += 1;
            }
        }
        if !found {
            return self.use_cni;
        }
        let mut j: usize = 0;
        while j < running.len()
            invariant
                j <= running@.len(),
                k < running@.len(),
                pause@ == names::pause_name_text(pod_name@),
                first_with(running@, pause@) == Some(running@[k as int]),
                forall|m: int|
                    0 <= m < j && named_without(#[trigger] running@[m], pause@) ==> shares_network(
                        running@[m],
                        pause@,
                        text::opt_text(running@[k as int].id),
                    ),
            decreases running@.len() - j,
        {
            if running[j].names.is_some() && !sandbox::has_name_with(&running[j], pause.as_str()) {
                proof {
                    lemma_named_either_way(running@[j as int], pause@);
                }
                if !network_shared(&running[j], pause.as_str(), &running[k].id) {
                    assert(!shares_network(
                        running@[j as int],
                        pause@,
                        text::opt_text(running@[k as int].id),
                    ));
                    return false;
                }
            }
            proof {
                if running@[j as int].names is Some {
                    lemma_named_either_way(running@[j as int], pause@);
                }
            }
            j += 1;
        }
        true
    }

    /// The code that a container ended with, 1 where none is given.
    pub fn get_container_exit_code(&self, exit_code: Option<i64>) -> (r: i64)
        ensures
            r == (match exit_code {
                Some(c) => c,
                None => 1,
            }),
    {
        match exit_code {
            Some(c) => c,
            None => 1,
        }
    }

    /// Whether a container is removed so that it can be made anew: it is there, and does
    /// not run.
    pub fn remove_terminated_container(&self, inspected: Option<Option<bool>>) -> (r: bool)
        ensures
            r == (inspected is Some && inspected->0 != Some(true)),
    {
        match inspected {
            Some(running) => !self.is_container_running(running),
            None => false,
        }
    }

    /// The container whose address a pod has: the first of those that hold its network, or
    /// else the first of all its containers, once these are listed.
    pub fn address_of(
        &self,
        holders: &Vec<ContainerSummary>,
        others: &Option<Vec<ContainerSummary>>,
    ) -> (r: AddressOf)
        ensures
            match r {
                AddressOf::OtherContainers => holders@.len() == 0 && others is None,
                AddressOf::Container(id) => Some(id@) == (if holders@.len() > 0 {
                    first_id(holders@)
                } else {
                    match *others {
                        Some(o) => first_id(o@),
                        None => None,
                    }
                }),
                AddressOf::Nobody => if holders@.len() > 0 {
                    first_id(holders@) is None
                } else {
                    others matches Some(o) && first_id(o@) is None
                },
            },
    {
        let list: &Vec<ContainerSummary> = if holders.len() > 0 {
            holders
        } else {
            match others {
                Some(o) => o,
                None => {
                    return AddressOf::OtherContainers;
                },
            }
        };
        if list.len() == 0 {
            return AddressOf::Nobody;
        }
        match &list[0].id {
            Some(id) => AddressOf::Container(id.clone()),
            None => AddressOf::Nobody,
        }
    }

    /// The address of a pod: the one that plugins gave it, or else that of its container.
    pub fn get_pod_ip(&self, from_cni: Option<String>, network: &Option<NetworkSettings>) -> (r:
        Option<String>)
        ensures
            text::opt_text(r) == (if self.use_cni && from_cni is Some {
                text::opt_text(from_cni)
            } else {
                sandbox::assigned_address(*network, self.network@)
            }),
    {
        if self.use_cni {
            if let Some(ip) = from_cni {
                return Some(ip);
            }
        }
        self.assigned_ip(network)
    }
}

/// A container is stopped with its pod if and only if it has an identity and, where only those
/// count that run, runs; all of them are, and nothing else, but that of several sandboxes only
/// the last is.
pub proof fn law_exactly_the_pods_containers_are_stopped(
    cs: Seq<ContainerSummary>,
    running_only: bool,
    x: Seq<char>,
)
    ensures
        stop_order(cs, running_only).contains(x) ==> exists|i: int|
            0 <= i < cs.len() && text::opt_text((#[trigger] cs[i]).id) == Some(x) && (running_only
                ==> text::opt_text(cs[i].state) == Some("running"@)),
        forall|i: int|
            0 <= i < cs.len() && text::opt_text((#[trigger] cs[i]).id) == Some(x) && (running_only
                ==> text::opt_text(cs[i].state) == Some("running"@)) && !text::ends(
                first_name(cs[i]),
                "_pause"@,
            ) ==> stop_order(cs, running_only).contains(x),
{
    let order = stop_order(cs, running_only);
    let apps = app_ids(cs, running_only);
    lemma_app_ids(cs, running_only, x);
    lemma_pause_id(cs, running_only);
    if apps.contains(x) {
        let k = choose|k: int| 0 <= k < apps.len() && apps[k] == x;
        assert(order[k] == x);
        let i = choose|i: int|
            0 <= i < cs.len() && is_stopped(#[trigger] cs[i], running_only) && !is_pause(cs[i])
                && cs[i].id->0@ == x;
        assert(text::opt_text(cs[i].id) == Some(x));
    } else if order.contains(x) {
        let k = choose|k: int| 0 <= k < order.len() && order[k] == x;
        if k < apps.len() {
            assert(apps[k] == x);
        }
        let i = choose|i: int|
            0 <= i < cs.len() && is_stopped(#[trigger] cs[i], running_only) && cs[i].id->0@
                == pause_id(cs, running_only)->0;
        assert(text::opt_text(cs[i].id) == Some(x));
    }
    assert forall|i: int|
        0 <= i < cs.len() && text::opt_text((#[trigger] cs[i]).id) == Some(x) && (running_only
            ==> text::opt_text(cs[i].state) == Some("running"@)) && !text::ends(
            first_name(cs[i]),
            "_pause"@,
        ) implies order.contains(x) by {
        assert(is_stopped(cs[i], running_only) && !is_pause(cs[i]));
        assert(apps.contains(x));
    }
}

proof fn lemma_app_ids(cs: Seq<ContainerSummary>, running_only: bool, x: Seq<char>)
    ensures
        app_ids(cs, running_only).contains(x) <==> exists|i: int|
            0 <= i < cs.len() && is_stopped(#[trigger] cs[i], running_only) && !is_pause(cs[i])
                && cs[i].id->0@ == x,
    decreases cs.len(),
{
    if cs.len() > 0 {
        let short = cs.drop_last();
        let before = app_ids(short, running_only);
        let now = app_ids(cs, running_only);
        let n = cs.len() - 1;
        lemma_app_ids(short, running_only, x);
        if before.contains(x) {
            let j = choose|j: int| 0 <= j < before.len() && before[j] == x;
            assert(now[j] == x);
            let i = choose|i: int|
                0 <= i < short.len() && is_stopped(#[trigger] short[i], running_only) && !is_pause(
                    short[i],
                ) && short[i].id->0@ == x;
            assert(short[i] == cs[i]);
        } else if now.contains(x) {
            let j = choose|j: int| 0 <= j < now.len() && now[j] == x;
            if j < before.len() {
                assert(before[j] == x);
            }
            assert(is_stopped(cs[n as int], running_only));
        }
        if exists|i: int|
            0 <= i < cs.len() && is_stopped(#[trigger] cs[i], running_only) && !is_pause(cs[i])
                && cs[i].id->0@ == x {
            let i = choose|i: int|
                0 <= i < cs.len() && is_stopped(#[trigger] cs[i], running_only) && !is_pause(cs[i])
                    && cs[i].id->0@ == x;
            if i < n {
                assert(short[i] == cs[i]);
            } else {
                assert(now.last() == x);
            }
        }
    }
}

proof fn lemma_pause_id(cs: Seq<ContainerSummary>, running_only: bool)
    ensures
        pause_id(cs, running_only) matches Some(p) ==> exists|i: int|
            0 <= i < cs.len() && is_stopped(#[trigger] cs[i], running_only) && cs[i].id->0@ == p,
    decreases cs.len(),
{
    if cs.len() > 0 {
        let short = cs.drop_last();
        lemma_pause_id(short, running_only);
        if is_stopped(cs.last(), running_only) && is_pause(cs.last()) {
            assert(is_stopped(cs[cs.len() - 1], running_only));
        } else if let Some(p) = pause_id(short, running_only) {
            let i = choose|i: int|
                0 <= i < short.len() && is_stopped(#[trigger] short[i], running_only)
                    && short[i].id->0@ == p;
            assert(short[i] == cs[i]);
        }
    }
}

/// A pod that is stopped and removed loses all of its containers that have an identity, in the
/// order in which they are listed.
pub proof fn law_removed_pods_lose_all_containers(cs: Seq<ContainerSummary>, i: int)
    requires
        0 <= i < cs.len(),
    ensures
        cs[i].id matches Some(id) ==> known_ids(cs) == known_ids(cs.take(i)) + seq![id@] + known_ids(
            cs.skip(i + 1),
        ),
        cs[i].id is None ==> known_ids(cs) == known_ids(cs.take(i)) + known_ids(cs.skip(i + 1)),
    decreases cs.len(),
{
    let rest = cs.skip(i + 1);
    if i == cs.len() - 1 {
        assert(cs.take(i) =~= cs.drop_last());
        assert(known_ids(rest) =~= Seq::<Seq<char>>::empty());
    } else {
        let short = cs.drop_last();
        law_removed_pods_lose_all_containers(short, i);
        assert(short.take(i) =~= cs.take(i));
        assert(short.skip(i + 1) =~= rest.drop_last());
        assert(rest.last() == cs.last());
    }
}

proof fn lemma_exact_is_bound(hooks: Seq<(Seq<char>, LifecycleHandler)>, name: Seq<char>)
    ensures
        exact_hook(hooks, name) == ports::bound_to(hooks, name),
    decreases hooks.len(),
{
    if hooks.len() > 0 {
        lemma_exact_is_bound(hooks.drop_first(), name);
    }
}

proof fn lemma_hook_by_name(
    known: Seq<(Seq<char>, LifecycleHandler)>,
    pod: Seq<char>,
    cs: Seq<Container>,
    i: int,
)
    requires
        0 <= i < cs.len(),
        cs[i].lifecycle is Some,
        cs[i].lifecycle->0.pre_stop is Some,
        forall|j: int| i < j < cs.len() ==> (#[trigger] cs[j]).name@ != cs[i].name@,
    ensures
        exact_hook(hooks_by_name(known, pod, cs), pod + "_"@ + cs[i].name@)
            == cs[i].lifecycle->0.pre_stop,
    decreases cs.len(),
{
    let key = pod + "_"@ + cs[i].name@;
    let short = cs.drop_last();
    let rest = hooks_by_name(known, pod, short);
    let last = cs.last();
    lemma_exact_is_bound(rest, key);
    lemma_exact_is_bound(hooks_by_name(known, pod, cs), key);
    if let Some(h) = pre_stop_of(last) {
        ports::law_put_changes_one_key(rest, names::container_name_text(pod, last.name@), h, key);
    }
    if i < cs.len() - 1 {
        assert(short[i] == cs[i]);
        assert(forall|j: int| 0 <= j < short.len() ==> (#[trigger] short[j]) == cs[j]);
        lemma_hook_by_name(known, pod, short, i);
        assert(cs[cs.len() - 1].name@ != cs[i].name@);
        let other = pod + "_"@ + last.name@;
        if other == key {
            let n = (pod + "_"@).len() as int;
            assert(other.skip(n) =~= last.name@);
            assert(key.skip(n) =~= cs[i].name@);
        }
    }
}

proof fn lemma_hook_kept(
    known: Seq<(Seq<char>, LifecycleHandler)>,
    pod: Seq<char>,
    cs: Seq<Container>,
    name: Seq<char>,
)
    requires
        forall|j: int| 0 <= j < cs.len() ==> (#[trigger] cs[j]).name@ != name,
    ensures
        exact_hook(hooks_by_name(known, pod, cs), pod + "_"@ + name) == exact_hook(
            known,
            pod + "_"@ + name,
        ),
    decreases cs.len(),
{
    if cs.len() > 0 {
        let key = pod + "_"@ + name;
        let short = cs.drop_last();
        let rest = hooks_by_name(known, pod, short);
        let last = cs.last();
        assert(forall|j: int| 0 <= j < short.len() ==> (#[trigger] short[j]) == cs[j]);
        lemma_hook_kept(known, pod, short, name);
        lemma_exact_is_bound(rest, key);
        lemma_exact_is_bound(hooks_by_name(known, pod, cs), key);
        if let Some(h) = pre_stop_of(last) {
            ports::law_put_changes_one_key(
                rest,
                names::container_name_text(pod, last.name@),
                h,
                key,
            );
            assert(cs[cs.len() - 1].name@ != name);
            let other = pod + "_"@ + last.name@;
            if other == key {
                let n = (pod + "_"@).len() as int;
                assert(other.skip(n) =~= last.name@);
                assert(key.skip(n) =~= name);
            }
        }
    }
}

/// Before a pod is stopped, the pre-stop hook of each of its application containers that has
/// one and runs is run, in that container; a hook is run for no container that does not run.
pub proof fn law_pre_stop_hooks_are_run(pod: Pod, cs: Seq<ContainerSummary>, k: int, i: int)
    requires
        0 <= k < cs.len(),
        pod.spec is Some,
        0 <= i < pod.spec->0.containers@.len(),
        first_name(cs[k]) == pod.metadata.name@ + "_"@ + pod.spec->0.containers@[i].name@,
        text::opt_text(cs[k].state) == Some("running"@),
        pod.spec->0.containers@[i].lifecycle is Some,
        pod.spec->0.containers@[i].lifecycle->0.pre_stop is Some,
        forall|j: int|
            i < j < pod.spec->0.containers@.len() ==> (#[trigger] pod.spec->0.containers@[j]).name@
                != pod.spec->0.containers@[i].name@,
        pod.spec->0.init_containers matches Some(v) ==> forall|j: int|
            0 <= j < v@.len() ==> (#[trigger] v@[j]).name@ != pod.spec->0.containers@[i].name@,
    ensures
        hooks_to_run(pod, cs).contains(
            (HookView {
                container_name: pod.metadata.name@ + "_"@ + pod.spec->0.containers@[i].name@,
                handler: pod.spec->0.containers@[i].lifecycle->0.pre_stop->0,
                container: Some(pod.spec->0.containers@[i]),
            }),
        ),
    decreases cs.len(),
{
    let apps = pod.spec->0.containers@;
    let c = apps[i];
    let name = pod.metadata.name@ + "_"@ + c.name@;
    let wanted = HookView {
        container_name: name,
        handler: c.lifecycle->0.pre_stop->0,
        container: Some(c),
    };
    let none = Seq::<(Seq<char>, LifecycleHandler)>::empty();
    lemma_hook_by_name(none, pod.metadata.name@, apps, i);
    if let Some(v) = pod.spec->0.init_containers {
        lemma_hook_kept(
            hooks_by_name(none, pod.metadata.name@, apps),
            pod.metadata.name@,
            v@,
            c.name@,
        );
    }
    assert(exact_hook(pod_hooks(pod), name) == c.lifecycle->0.pre_stop);
    let prefix = names::container_prefix_text(pod.metadata.name@);
    assert(name.take(prefix.len() as int) =~= prefix);
    assert(name.skip(prefix.len() as int) =~= c.name@);
    lemma_last_named(apps, c.name@, i);
    let short = cs.drop_last();
    let before = hooks_to_run(pod, short);
    let now = hooks_to_run(pod, cs);
    if k < cs.len() - 1 {
        assert(short[k] == cs[k]);
        law_pre_stop_hooks_are_run(pod, short, k, i);
        let j = choose|j: int| 0 <= j < before.len() && before[j] == wanted;
        assert(now[j] == wanted);
    } else {
        assert(now.last() == wanted);
        assert(now[now.len() - 1] == wanted);
    }
}

proof fn lemma_last_named(cs: Seq<Container>, name: Seq<char>, i: int)
    requires
        0 <= i < cs.len(),
        cs[i].name@ == name,
        forall|j: int| i < j < cs.len() ==> (#[trigger] cs[j]).name@ != name,
    ensures
        last_named(cs, name) == Some(cs[i]),
    decreases cs.len(),
{
    if i < cs.len() - 1 {
        let short = cs.drop_last();
        assert(cs[cs.len() - 1].name@ != name);
        assert(short[i] == cs[i]);
        assert(forall|j: int| 0 <= j < short.len() ==> (#[trigger] short[j]) == cs[j]);
        lemma_last_named(short, name, i);
    }
}

/// No hook is run where nothing of the pod runs.
pub proof fn law_stopped_containers_run_no_hooks(pod: Pod, cs: Seq<ContainerSummary>)
    requires
        forall|k: int|
            0 <= k < cs.len() ==> text::opt_text((#[trigger] cs[k]).state) != Some("running"@),
    ensures
        hooks_to_run(pod, cs).len() == 0,
    decreases cs.len(),
{
    if cs.len() > 0 {
        let short = cs.drop_last();
        assert(forall|k: int| 0 <= k < short.len() ==> (#[trigger] short[k]) == cs[k]);
        assert(text::opt_text(cs[cs.len() - 1].state) != Some("running"@));
        law_stopped_containers_run_no_hooks(pod, short);
    }
}

/// A container has ended if and only if the daemon has it, it does not run, and there is a code
/// that it ended with, or the daemon's word for it.
pub proof fn law_containers_end_once_they_stop_running(s: EndState)
    ensures
        !has_ended(None),
        s.running == Some(true) ==> !has_ended(Some(s)),
        s.running != Some(true) && s.exit_code is Some ==> has_ended(Some(s)),
        s.running != Some(true) && s.status == Some(ContainerStatusKind::Exited) ==> has_ended(Some(s)),
        s.running != Some(true) && s.status == Some(ContainerStatusKind::Dead) ==> has_ended(Some(s)),
        s.exit_code is None && s.status == Some(ContainerStatusKind::Created) ==> !has_ended(Some(s)),
        s.exit_code is None && s.status is None ==> !has_ended(Some(s)),
{
}

/// A pod runs where its sandbox does, unless plugins provide its network, and one more of its
/// containers does, and none of them uses the network of another container than the sandbox. A
/// pod of which nothing runs, or only the sandbox, does not run.
pub proof fn law_pods_run_on_their_sandbox(
    cs: Seq<ContainerSummary>,
    pod: Seq<char>,
    use_cni: bool,
    i: int,
)
    ensures
        cs.len() == 0 ==> !pod_is_running(cs, pod, use_cni),
        (forall|k: int|
            0 <= k < cs.len() ==> !has_name_without(#[trigger] cs[k], pod + "_pause"@))
            ==> !pod_is_running(cs, pod, use_cni),
        0 <= i < cs.len() && has_name_without(cs[i], pod + "_pause"@) && (use_cni || first_with(
            cs,
            pod + "_pause"@,
        ) is Some) && (forall|k: int|
            0 <= k < cs.len() ==> (#[trigger] cs[k]).network_mode is None || cs[k].network_mode->0@
                == "container:"@ + (pod + "_pause"@)) ==> pod_is_running(cs, pod, use_cni),
{
}

/// A container shares its pod's network unless it joined that of a container that is not the
/// pod's holder.
pub proof fn law_networks_are_shared_by_joining_the_holder(
    c: ContainerSummary,
    pause: Seq<char>,
    id: Option<Seq<char>>,
)
    ensures
        c.network_mode is None ==> shares_network(c, pause, id),
        c.network_mode matches Some(m) ==> {
            &&& !text::begins(m@, "container:"@) ==> shares_network(c, pause, id)
            &&& m@ == "container:"@ + pause ==> shares_network(c, pause, id)
            &&& id is Some && m@ == "container:"@ + id->0 ==> shares_network(c, pause, id)
            &&& text::begins(m@, "container:"@) && m@ != "container:"@ + pause && (id is Some ==> m@
                != "container:"@ + id->0) ==> !shares_network(c, pause, id)
        },
{
}

/// A pod one of whose containers joined the network of a container that is not its holder does
/// not run, and neither does one without its holder, unless plugins give it its network.
pub proof fn law_pods_on_other_networks_do_not_run(
    cs: Seq<ContainerSummary>,
    pod: Seq<char>,
    use_cni: bool,
    i: int,
    k: int,
)
    requires
        0 <= k < cs.len(),
        sandbox::named_with(cs[k], pod + "_pause"@),
        forall|j: int| 0 <= j < k ==> !sandbox::named_with(#[trigger] cs[j], pod + "_pause"@),
        0 <= i < cs.len(),
        cs[i].names is Some,
        forall|j: int|
            0 <= j < cs[i].names->0@.len() ==> !text::has(
                (#[trigger] cs[i].names->0@[j])@,
                pod + "_pause"@,
            ),
        cs[i].network_mode is Some,
        text::begins(cs[i].network_mode->0@, "container:"@),
        cs[i].network_mode->0@ != "container:"@ + (pod + "_pause"@),
        cs[k].id is Some ==> cs[i].network_mode->0@ != "container:"@ + cs[k].id->0@,
    ensures
        !pod_is_running(cs, pod, use_cni),
        first_with(cs, pod + "_pause"@) == Some(cs[k]),
{
    lemma_first_with(cs, pod + "_pause"@, k);
    assert(named_without(cs[i], pod + "_pause"@));
    assert(!shares_network(cs[i], pod + "_pause"@, text::opt_text(cs[k].id)));
}

proof fn lemma_first_with(cs: Seq<ContainerSummary>, part: Seq<char>, k: int)
    requires
        0 <= k < cs.len(),
        sandbox::named_with(cs[k], part),
        forall|j: int| 0 <= j < k ==> !sandbox::named_with(#[trigger] cs[j], part),
    ensures
        first_with(cs, part) == Some(cs[k]),
    decreases cs.len(),
{
    if k > 0 {
        assert(!sandbox::named_with(cs[0], part));
        let d = cs.drop_first();
        assert(d[k - 1] == cs[k]);
        assert forall|j: int| 0 <= j < k - 1 implies !sandbox::named_with(#[trigger] d[j], part) by {
            assert(d[j] == cs[j + 1]);
        }
        lemma_first_with(d, part, k - 1);
    }
}

/// A hook is found for a container exactly where one bears its name or where its name ends as
/// a hook's does behind the pod's, and it is one of those that there are.
pub proof fn law_hooks_are_found_by_the_containers_name(
    hooks: Seq<(Seq<char>, LifecycleHandler)>,
    pod_len: int,
    name: Seq<char>,
)
    ensures
        hook_named(hooks, pod_len, name) is Some <==> exists|k: int|
            0 <= k < hooks.len() && ((#[trigger] hooks[k]).0 == name || text::ends(
                name,
                hooks[k].0.skip(pod_len),
            )),
        hook_named(hooks, pod_len, name) matches Some(h) ==> exists|k: int|
            0 <= k < hooks.len() && (#[trigger] hooks[k]).1 == h && (hooks[k].0 == name || text::ends(
                name,
                hooks[k].0.skip(pod_len),
            )),
{
    lemma_exact_hook(hooks, name);
    lemma_suffix_hook(hooks, pod_len, name);
}

proof fn lemma_exact_hook(hooks: Seq<(Seq<char>, LifecycleHandler)>, name: Seq<char>)
    ensures
        exact_hook(hooks, name) is Some <==> exists|k: int|
            0 <= k < hooks.len() && (#[trigger] hooks[k]).0 == name,
        exact_hook(hooks, name) matches Some(h) ==> exists|k: int|
            0 <= k < hooks.len() && (#[trigger] hooks[k]).1 == h && hooks[k].0 == name,
    decreases hooks.len(),
{
    if hooks.len() > 0 && hooks[0].0 != name {
        let d = hooks.drop_first();
        lemma_exact_hook(d, name);
        assert forall|k: int| 0 <= k < d.len() implies #[trigger] d[k] == hooks[k + 1] by {}
        if exact_hook(d, name) is Some {
            let k = choose|k: int|
                0 <= k < d.len() && (#[trigger] d[k]).1 == exact_hook(d, name)->0 && d[k].0 == name;
            assert(hooks[k + 1] == d[k]);
        }
        if exists|k: int| 0 <= k < hooks.len() && (#[trigger] hooks[k]).0 == name {
            let k = choose|k: int| 0 <= k < hooks.len() && (#[trigger] hooks[k]).0 == name;
            assert(d[k - 1] == hooks[k]);
        }
    }
}

proof fn lemma_suffix_hook(
    hooks: Seq<(Seq<char>, LifecycleHandler)>,
    pod_len: int,
    name: Seq<char>,
)
    ensures
        suffix_hook(hooks, pod_len, name) is Some <==> exists|k: int|
            0 <= k < hooks.len() && text::ends(name, (#[trigger] hooks[k]).0.skip(pod_len)),
        suffix_hook(hooks, pod_len, name) matches Some(h) ==> exists|k: int|
            0 <= k < hooks.len() && (#[trigger] hooks[k]).1 == h && text::ends(
                name,
                hooks[k].0.skip(pod_len),
            ),
    decreases hooks.len(),
{
    if hooks.len() > 0 && !text::ends(name, hooks[0].0.skip(pod_len)) {
        let d = hooks.drop_first();
        lemma_suffix_hook(d, pod_len, name);
        if suffix_hook(d, pod_len, name) is Some {
            let k = choose|k: int|
                0 <= k < d.len() && (#[trigger] d[k]).1 == suffix_hook(d, pod_len, name)->0
                    && text::ends(name, d[k].0.skip(pod_len));
            assert(hooks[k + 1] == d[k]);
        }
        if exists|k: int|
            0 <= k < hooks.len() && text::ends(name, (#[trigger] hooks[k]).0.skip(pod_len)) {
            let k = choose|k: int|
                0 <= k < hooks.len() && text::ends(name, (#[trigger] hooks[k]).0.skip(pod_len));
            assert(d[k - 1] == hooks[k]);
        }
    }
}

/// The hooks of a pod's init containers, its sidecars among them, are known as those of its
/// other containers are, each by the container's name; a container without a hook has none.
pub proof fn law_init_containers_have_hooks_too(pod: Pod, i: int)
    requires
        pod.spec is Some,
        pod.spec->0.init_containers is Some,
        0 <= i < pod.spec->0.init_containers->0@.len(),
        pod.spec->0.init_containers->0@[i].lifecycle is Some,
        pod.spec->0.init_containers->0@[i].lifecycle->0.pre_stop is Some,
        forall|j: int|
            i < j < pod.spec->0.init_containers->0@.len() ==> (
            #[trigger] pod.spec->0.init_containers->0@[j]).name@
                != pod.spec->0.init_containers->0@[i].name@,
    ensures
        ports::bound_to(
            pod_hooks(pod),
            pod.metadata.name@ + "_"@ + pod.spec->0.init_containers->0@[i].name@,
        ) == Some(pod.spec->0.init_containers->0@[i].lifecycle->0.pre_stop->0),
{
    let s = pod.spec->0;
    let apps = hooks_by_name(Seq::empty(), pod.metadata.name@, s.containers@);
    lemma_known_hook(apps, pod.metadata.name@, s.init_containers->0@, i);
}

proof fn lemma_known_hook(
    known: Seq<(Seq<char>, LifecycleHandler)>,
    pod: Seq<char>,
    cs: Seq<Container>,
    i: int,
)
    requires
        0 <= i < cs.len(),
        pre_stop_of(cs[i]) is Some,
        forall|j: int| i < j < cs.len() ==> (#[trigger] cs[j]).name@ != cs[i].name@,
    ensures
        ports::bound_to(hooks_by_name(known, pod, cs), pod + "_"@ + cs[i].name@) == Some(
            pre_stop_of(cs[i])->0,
        ),
    decreases cs.len(),
{
    let d = cs.drop_last();
    let l = cs.last();
    let key = pod + "_"@ + cs[i].name@;
    if let Some(h) = pre_stop_of(l) {
        ports::law_put_changes_one_key(
            hooks_by_name(known, pod, d),
            names::container_name_text(pod, l.name@),
            h,
            key,
        );
    }
    if i < cs.len() - 1 {
        assert(cs[cs.len() - 1].name@ != cs[i].name@);
        let a = pod + "_"@;
        assert((a + l.name@).skip(a.len() as int) =~= l.name@);
        assert((a + cs[i].name@).skip(a.len() as int) =~= cs[i].name@);
        assert(names::container_name_text(pod, l.name@) != key);
        assert forall|j: int| i < j < d.len() implies (#[trigger] d[j]).name@ != d[i].name@ by {
            assert(cs[j].name@ != cs[i].name@);
        }
        lemma_known_hook(known, pod, d, i);
    }
}

} // verus!
