//! What is left of pods: which dead containers are removed, which pods there are, and how
//! old they are.

use crate::api;
use crate::api::Timestamp;
use crate::daemon::ContainerSummary;
use crate::names;
use crate::runtime::{ContainerRuntime, POD_LABEL};
use crate::stop;
use crate::text;
use crate::time;
use vstd::prelude::*;
use vstd::string::*;

verus! {

/// Whether every dead container of a pod, its sandbox and its volumes go, rather
/// than one dead container staying behind for its logs: only once nothing of the
/// pod runs any more and the pod is gone from storage.
pub fn should_fully_cleanup_pod(pod_has_running_container: bool, pod_still_exists: bool) -> (r: bool)
    ensures
        r <==> !pod_has_running_container && !pod_still_exists,
{
    !pod_has_running_container && !pod_still_exists
}

/// The container is one that a pod may have: it has names and an identity, and is no part
/// of the control plane.
pub open spec fn counts(c: ContainerSummary) -> bool {
    c.names is Some && c.id is Some && !text::begins(stop::first_name(c), "rusternetes-"@)
}

/// The pod that a container's name speaks of.
pub open spec fn pod_of(c: ContainerSummary) -> Seq<char> {
    let n = stop::first_name(c);
    n.take(text::cut(n, '_'))
}

/// What a container's name says behind the pod's.
pub open spec fn short_name(c: ContainerSummary) -> Seq<char> {
    text::behind_first(stop::first_name(c), '_')
}

/// The state that the daemon gives.
pub open spec fn state_text(c: ContainerSummary) -> Seq<char> {
    match c.state {
        Some(s) => s@,
        None => Seq::empty(),
    }
}

/// When the container was created.
pub open spec fn created_at(c: ContainerSummary) -> i64 {
    match c.created {
        Some(t) => t,
        None => 0,
    }
}

/// The container of a pod has ended.
pub open spec fn is_dead(c: ContainerSummary) -> bool {
    counts(c) && (state_text(c) == "exited"@ || state_text(c) == "dead"@ || state_text(c)
        == "stopped"@)
}

/// The container of a pod runs.
pub open spec fn is_alive(c: ContainerSummary) -> bool {
    counts(c) && state_text(c) == "running"@
}

/// The container of a pod was created more than five minutes ago, and never started.
pub open spec fn is_stale(c: ContainerSummary, now: i64) -> bool {
    counts(c) && state_text(c) == "created"@ && now - created_at(c) > 300
}

/// Both are dead containers of one pod with one name.
pub open spec fn same_group(a: ContainerSummary, b: ContainerSummary) -> bool {
    pod_of(a) == pod_of(b) && short_name(a) == short_name(b)
}

/// Of the dead containers of its pod with its name, the one at `i` is the newest; of
/// several created at one time, the first.
pub open spec fn is_newest(cs: Seq<ContainerSummary>, i: int) -> bool {
    forall|j: int|
        0 <= j < cs.len() && j != i && is_dead(#[trigger] cs[j]) && same_group(cs[j], cs[i])
            ==> created_at(cs[j]) < created_at(cs[i]) || (created_at(cs[j]) == created_at(cs[i])
            && i < j)
}

/// The dead container at `i` goes: it stays only if it is its pod's newest with its name,
/// and the pod still exists.
pub open spec fn goes(cs: Seq<ContainerSummary>, existing: Seq<Seq<char>>, i: int) -> bool {
    is_dead(cs[i]) && !(existing.contains(pod_of(cs[i])) && is_newest(cs, i))
}

/// The dead containers among the first `n` that go.
pub open spec fn removed_ids(cs: Seq<ContainerSummary>, existing: Seq<Seq<char>>, n: nat) -> Seq<
    Seq<char>,
>
    decreases n,
{
    if n == 0 {
        Seq::empty()
    } else {
        let rest = removed_ids(cs, existing, (n - 1) as nat);
        if goes(cs, existing, n - 1) {
            rest.push(cs[n - 1].id->0@)
        } else {
            rest
        }
    }
}

/// A container of the pod runs, other than the one that holds its network.
pub open spec fn pod_is_alive(cs: Seq<ContainerSummary>, pod: Seq<char>) -> bool {
    exists|j: int|
        0 <= j < cs.len() && is_alive(#[trigger] cs[j]) && !stop::is_pause(cs[j]) && pod_of(cs[j]) == pod
}

/// The container is what a pod may leave behind: a dead container, or a running one that
/// holds its network.
pub open spec fn is_left_behind(c: ContainerSummary) -> bool {
    is_dead(c) || (is_alive(c) && stop::is_pause(c))
}

/// Everything of the pod goes that the container at `i` was left behind by.
pub open spec fn pod_goes(cs: Seq<ContainerSummary>, existing: Seq<Seq<char>>, i: int) -> bool {
    is_left_behind(cs[i]) && !pod_is_alive(cs, pod_of(cs[i])) && !existing.contains(pod_of(cs[i]))
}

/// The pods of which everything goes and that left one of the first `n` containers behind.
pub open spec fn gone_pods(cs: Seq<ContainerSummary>, existing: Seq<Seq<char>>, n: nat) -> Seq<
    Seq<char>,
>
    decreases n,
{
    if n == 0 {
        Seq::empty()
    } else {
        let rest = gone_pods(cs, existing, (n - 1) as nat);
        if pod_goes(cs, existing, n - 1) {
            text::with_text(rest, pod_of(cs[n - 1]))
        } else {
            rest
        }
    }
}

/// The newest dead containers among the first `n` of pods of which everything goes: they
/// are removed once more, in case that failed.
pub open spec fn last_ids(cs: Seq<ContainerSummary>, existing: Seq<Seq<char>>, n: nat) -> Seq<
    Seq<char>,
>
    decreases n,
{
    if n == 0 {
        Seq::empty()
    } else {
        let rest = last_ids(cs, existing, (n - 1) as nat);
        if pod_goes(cs, existing, n - 1) && is_dead(cs[n - 1]) && is_newest(cs, n - 1) {
            rest.push(cs[n - 1].id->0@)
        } else {
            rest
        }
    }
}

/// The containers among the first `n` that were created and never started.
pub open spec fn stale_ids(cs: Seq<ContainerSummary>, now: i64, n: nat) -> Seq<Seq<char>>
    decreases n,
{
    if n == 0 {
        Seq::empty()
    } else {
        let rest = stale_ids(cs, now, (n - 1) as nat);
        if is_stale(cs[n - 1], now) {
            rest.push(cs[n - 1].id->0@)
        } else {
            rest
        }
    }
}

/// What is removed of pods that have ended.
#[derive(Clone, Debug)]
pub struct GcPlan {
    /// Dead containers to remove.
    pub remove: Vec<String>,
    /// Dead containers to remove once more.
    pub remove_again: Vec<String>,
    /// Pods whose sandbox is stopped and removed, and whose volumes are cleaned up.
    pub cleanup_pods: Vec<String>,
    /// Containers to remove that never started.
    pub stale: Vec<String>,
}

/// The ages of the containers can be told.
pub open spec fn ages_fit(cs: Seq<ContainerSummary>, now: i64) -> bool {
    forall|i: int|
        0 <= i < cs.len() ==> i64::MIN <= now - created_at(#[trigger] cs[i]) <= i64::MAX
}

/// The position of the newest of the first `n` containers that are dead and belong with
/// `c`, -1 where there is none.
pub open spec fn newest_at(cs: Seq<ContainerSummary>, c: ContainerSummary, n: nat) -> int
    decreases n,
{
    if n == 0 {
        -1
    } else {
        let k = newest_at(cs, c, (n - 1) as nat);
        let d = cs[n - 1];
        if is_dead(d) && same_group(d, c) && (k < 0 || created_at(d) > created_at(cs[k])) {
            n - 1
        } else {
            k
        }
    }
}

proof fn lemma_newest_at(cs: Seq<ContainerSummary>, c: ContainerSummary, n: nat)
    requires
        n <= cs.len(),
    ensures
        ({
            let k = newest_at(cs, c, n);
            &&& -1 <= k < n
            &&& k >= 0 ==> is_dead(cs[k]) && same_group(cs[k], c)
            &&& forall|j: int|
                0 <= j < n && is_dead(#[trigger] cs[j]) && same_group(cs[j], c) ==> k >= 0 && (j
                    == k || created_at(cs[j]) < created_at(cs[k]) || (created_at(cs[j])
                    == created_at(cs[k]) && k < j))
        }),
    decreases n,
{
    if n > 0 {
        lemma_newest_at(cs, c, (n - 1) as nat);
    }
}

/// Of the dead containers of a pod that still exists, exactly one of each name stays
/// behind for its logs; of a pod that is gone, none does.
pub proof fn law_one_dead_container_of_each_name_stays(
    cs: Seq<ContainerSummary>,
    existing: Seq<Seq<char>>,
    i: int,
)
    requires
        0 <= i < cs.len(),
        is_dead(cs[i]),
    ensures
        existing.contains(pod_of(cs[i])) ==> exists|k: int|
            0 <= k < cs.len() && is_dead(#[trigger] cs[k]) && same_group(cs[k], cs[i]) && !goes(
                cs,
                existing,
                k,
            ),
        existing.contains(pod_of(cs[i])) ==> forall|k: int, l: int|
            0 <= k < cs.len() && 0 <= l < cs.len() && is_dead(#[trigger] cs[k]) && is_dead(
                #[trigger] cs[l],
            ) && same_group(cs[k], cs[i]) && same_group(cs[l], cs[i]) && !goes(cs, existing, k)
                && !goes(cs, existing, l) ==> k == l,
        !existing.contains(pod_of(cs[i])) ==> goes(cs, existing, i),
{
    lemma_newest_at(cs, cs[i], cs.len());
    let k = newest_at(cs, cs[i], cs.len());
    assert(is_dead(cs[i]) && same_group(cs[i], cs[i]));
    assert(is_newest(cs, k));
    assert(is_dead(cs[k]) && same_group(cs[k], cs[i]));
}

/// Nothing that runs is removed, but for the network holder of a pod that is gone.
pub proof fn law_what_runs_stays(cs: Seq<ContainerSummary>, existing: Seq<Seq<char>>, now: i64, i: int)
    requires
        0 <= i < cs.len(),
        is_alive(cs[i]),
        !stop::is_pause(cs[i]) || existing.contains(pod_of(cs[i])),
    ensures
        !goes(cs, existing, i),
        !is_stale(cs[i], now),
        forall|k: int| 0 <= k < cs.len() && pod_of(#[trigger] cs[k]) == pod_of(cs[i]) ==> !pod_goes(
            cs,
            existing,
            k,
        ),
{
    reveal_strlit("running");
    reveal_strlit("exited");
    reveal_strlit("dead");
    reveal_strlit("stopped");
    reveal_strlit("created");
    assert("running"@.len() == 7 && "exited"@.len() == 6 && "dead"@.len() == 4);
    assert("running"@[0] == 'r' && "stopped"@[0] == 's' && "created"@[0] == 'c');
}

/// The network holder of a pod that is gone goes, once no other container of the pod runs.
pub proof fn law_orphaned_sandboxes_go(cs: Seq<ContainerSummary>, existing: Seq<Seq<char>>, i: int)
    requires
        0 <= i < cs.len(),
        is_alive(cs[i]),
        stop::is_pause(cs[i]),
        !pod_is_alive(cs, pod_of(cs[i])),
        !existing.contains(pod_of(cs[i])),
    ensures
        gone_pods(cs, existing, cs.len()).contains(pod_of(cs[i])),
{
    lemma_gone_pods_hold(cs, existing, i, cs.len());
}

proof fn lemma_gone_pods_hold(cs: Seq<ContainerSummary>, existing: Seq<Seq<char>>, i: int, n: nat)
    requires
        0 <= i < n <= cs.len(),
        pod_goes(cs, existing, i),
    ensures
        gone_pods(cs, existing, n).contains(pod_of(cs[i])),
    decreases n,
{
    let rest = gone_pods(cs, existing, (n - 1) as nat);
    let pod = pod_of(cs[n - 1]);
    if i == n - 1 {
        if !rest.contains(pod) {
            assert(rest.push(pod)[rest.len() as int] == pod);
        }
    } else {
        lemma_gone_pods_hold(cs, existing, i, (n - 1) as nat);
        let k = choose|k: int| 0 <= k < rest.len() && rest[k] == pod_of(cs[i]);
        assert(rest.push(pod)[k] == pod_of(cs[i]));
    }
}

/// Whether the container is one that a pod may have.
fn does_count(c: &ContainerSummary, name: &str) -> (r: bool)
    requires
        name@ == stop::first_name(*c),
    ensures
        r == counts(*c),
{
    c.names.is_some() && c.id.is_some() && !text::starts_with(name, "rusternetes-")
}

/// A container, with what its name says.
struct Sorted {
    pod: String,
    name: String,
    id: String,
    created: i64,
    dead: bool,
    alive: bool,
    pause: bool,
    fresh: bool,
}

spec fn sorts(s: Sorted, c: ContainerSummary) -> bool {
    &&& s.pod@ == pod_of(c)
    &&& s.name@ == short_name(c)
    &&& c.id is Some ==> s.id@ == c.id->0@
    &&& s.created == created_at(c)
    &&& s.dead == is_dead(c)
    &&& s.alive == is_alive(c)
    &&& s.pause == stop::is_pause(c)
    &&& s.fresh == (counts(c) && state_text(c) == "created"@)
}

fn sort_one(c: &ContainerSummary) -> (r: Sorted)
    ensures
        sorts(r, *c),
{
    let name = stop::name_of(c);
    let count = does_count(c, name.as_str());
    let state: &str = match &c.state {
        Some(s) => s.as_str(),
        None => "",
    };
    proof {
        reveal_strlit("");
        assert(state@ =~= state_text(*c));
    }
    Sorted {
        pod: String::from_str(text::before_first(name.as_str(), '_')),
        name: String::from_str(text::after_first(name.as_str(), '_')),
        id: match &c.id {
            Some(i) => i.clone(),
            None => String::new(),
        },
        created: match c.created {
            Some(t) => t,
            None => 0,
        },
        dead: count && (text::same(state, "exited") || text::same(state, "dead") || text::same(
            state,
            "stopped",
        )),
        alive: count && text::same(state, "running"),
        pause: text::ends_with(name.as_str(), "_pause"),
        fresh: count && text::same(state, "created"),
    }
}

spec fn all_sorted(v: Seq<Sorted>, cs: Seq<ContainerSummary>) -> bool {
    &&& v.len() == cs.len()
    &&& forall|i: int| 0 <= i < cs.len() ==> sorts(#[trigger] v[i], cs[i])
}

fn newest(v: &Vec<Sorted>, Ghost(cs): Ghost<Seq<ContainerSummary>>, i: usize) -> (r: bool)
    requires
        all_sorted(v@, cs),
        i < cs.len(),
    ensures
        r == is_newest(cs, i as int),
{
    assert(sorts(v@[i as int], cs[i as int]));
    let mut j: usize = 0;
    while j < v.len()
        invariant
            j <= v@.len(),
            i < cs.len(),
            all_sorted(v@, cs),
            sorts(v@[i as int], cs[i as int]),
            forall|k: int|
                0 <= k < j && k != i && is_dead(#[trigger] cs[k]) && same_group(cs[k], cs[i as int])
                    ==> created_at(cs[k]) < created_at(cs[i as int]) || (created_at(cs[k])
                    == created_at(cs[i as int]) && i < k),
        decreases v@.len() - j,
    {
        assert(sorts(v@[j as int], cs[j as int]));
        if j != i && v[j].dead && text::same(v[j].pod.as_str(), v[i].pod.as_str()) && text::same(
            v[j].name.as_str(),
            v[i].name.as_str(),
        ) {
            if !(v[j].created < v[i].created || (v[j].created == v[i].created && i < j)) {
                assert(is_dead(cs[j as int]) && same_group(cs[j as int], cs[i as int]));
                return false;
            }
        }
        j += 1;
    }
    true
}

fn pod_alive(v: &Vec<Sorted>, Ghost(cs): Ghost<Seq<ContainerSummary>>, pod: &str) -> (r: bool)
    requires
        all_sorted(v@, cs),
    ensures
        r == pod_is_alive(cs, pod@),
{
    let mut j: usize = 0;
    while j < v.len()
        invariant
            j <= v@.len(),
            all_sorted(v@, cs),
            forall|k: int|
                0 <= k < j ==> !(is_alive(#[trigger] cs[k]) && !stop::is_pause(cs[k]) && pod_of(cs[k])
                    == pod@),
        decreases v@.len() - j,
    {
        assert(sorts(v@[j as int], cs[j as int]));
        if v[j].alive && !v[j].pause && text::same(v[j].pod.as_str(), pod) {
            assert(is_alive(cs[j as int]) && !stop::is_pause(cs[j as int]) && pod_of(cs[j as int]) == pod@);
            return true;
        }
        j += 1;
    }
    false
}

/// The pods that the containers' names speak of, each name by itself.
pub open spec fn pods_of_names(ns: Seq<String>) -> Seq<Seq<char>>
    decreases ns.len(),
{
    if ns.len() == 0 {
        Seq::empty()
    } else {
        let rest = pods_of_names(ns.drop_last());
        let n = text::trimmed_start(ns.last()@, '/');
        let pod = n.take(text::cut(n, '_'));
        if text::begins(pod, "rusternetes-"@) {
            rest
        } else {
            rest.push(pod)
        }
    }
}

/// The pods that the names of all containers of a list speak of.
pub open spec fn named_pods(cs: Seq<ContainerSummary>) -> Seq<Seq<char>>
    decreases cs.len(),
{
    if cs.len() == 0 {
        Seq::empty()
    } else {
        named_pods(cs.drop_last()) + (match cs.last().names {
            Some(ns) => pods_of_names(ns@),
            None => Seq::empty(),
        })
    }
}

/// The pods whose containers carry the cluster's label, by the label that names them.
pub open spec fn labelled_pods(cs: Seq<ContainerSummary>, network: Seq<char>) -> Seq<Seq<char>>
    decreases cs.len(),
{
    if cs.len() == 0 {
        Seq::empty()
    } else {
        let rest = labelled_pods(cs.drop_last(), network);
        let c = cs.last();
        match api::opt_lookup(c.labels, POD_LABEL@) {
            Some(pod) if api::opt_lookup(c.labels, crate::runtime::CLUSTER_LABEL@) == Some(
                network,
            ) => rest.push(pod),
            _ => rest,
        }
    }
}

proof fn lemma_distinct_push(s: Seq<Seq<char>>, x: Seq<char>)
    ensures
        text::distinct(s.push(x)) == text::with_text(text::distinct(s), x),
{
    assert(s.push(x).drop_last() == s);
}

impl ContainerRuntime {
    /// What is removed of pods that have ended: of a pod that still exists, all dead
    /// containers but the newest of each name; of any other, all; and what never started.
    /// A pod that is gone and of which nothing runs but its sandbox loses that and its
    /// volumes too.
    pub fn garbage_collect_containers(
        &self,
        listed: &Vec<ContainerSummary>,
        existing_pods: &Vec<String>,
        now: i64,
    ) -> (r: GcPlan)
        requires
            ages_fit(listed@, now),
        ensures
            text::texts(r.remove@) == removed_ids(
                listed@,
                text::texts(existing_pods@),
                listed@.len(),
            ),
            text::texts(r.remove_again@) == last_ids(
                listed@,
                text::texts(existing_pods@),
                listed@.len(),
            ),
            text::texts(r.cleanup_pods@) == gone_pods(
                listed@,
                text::texts(existing_pods@),
                listed@.len(),
            ),
            text::texts(r.stale@) == stale_ids(listed@, now, listed@.len()),
    {
        let ghost cs = listed@;
        let ghost ex = text::texts(existing_pods@);
        let mut v: Vec<Sorted> = Vec::new();
        let mut k: usize = 0;
        while k < listed.len()
            invariant
                k <= listed@.len(),
                cs == listed@,
                v@.len() == k,
                forall|i: int| 0 <= i < k ==> sorts(#[trigger] v@[i], cs[i]),
            decreases listed@.len() - k,
        {
            v.push(sort_one(&listed[k]));
            k += 1;
        }
        let mut remove: Vec<String> = Vec::new();
        let mut remove_again: Vec<String> = Vec::new();
        let mut cleanup_pods: Vec<String> = Vec::new();
        let mut stale: Vec<String> = Vec::new();
        let mut i: usize = 0;
        assert(text::texts(remove@) =~= Seq::<Seq<char>>::empty());
        while i < v.len()
            invariant
                i <= v@.len(),
                cs == listed@,
                ex == text::texts(existing_pods@),
                all_sorted(v@, cs),
                ages_fit(cs, now),
                text::texts(remove@) == removed_ids(cs, ex, i as nat),
                text::texts(remove_again@) == last_ids(cs, ex, i as nat),
                text::texts(cleanup_pods@) == gone_pods(cs, ex, i as nat),
                text::texts(stale@) == stale_ids(cs, now, i as nat),
            decreases v@.len() - i,
        {
            assert(sorts(v@[i as int], cs[i as int]));
            if v[i].dead || (v[i].alive && v[i].pause) {
                let is_new = newest(&v, Ghost(cs), i);
                let exists_still = text::list_has(existing_pods, v[i].pod.as_str());
                let alive = pod_alive(&v, Ghost(cs), v[i].pod.as_str());
                if v[i].dead && !(exists_still && is_new) {
                    text::push_text(&mut remove, v[i].id.clone());
                }
                if should_fully_cleanup_pod(alive, exists_still) {
                    if v[i].dead && is_new {
                        text::push_text(&mut remove_again, v[i].id.clone());
                    }
                    text::add_text(&mut cleanup_pods, v[i].pod.as_str());
                }
            }
            if v[i].fresh && now - v[i].created > 300 {
                text::push_text(&mut stale, v[i].id.clone());
            }
            i += 1;
        }
        GcPlan { remove, remove_again, cleanup_pods, stale }
    }

    /// The container that holds the network of a pod whose leftovers are removed.
    pub fn orphan_sandbox(&self, pod_name: &str) -> (r: String)
        ensures
            r@ == names::pause_name_text(pod_name@),
    {
        names::pause_name(pod_name)
    }

    /// The pods that the running containers' names speak of.
    pub fn list_running_pods(&self, running: &Vec<ContainerSummary>) -> (r: Vec<String>)
        ensures
            text::texts(r@) == text::distinct(named_pods(running@)),
    {
        let mut out: Vec<String> = Vec::new();
        let ghost mut seen: Seq<Seq<char>> = Seq::empty();
        let mut i: usize = 0;
        assert(running@.take(0) == Seq::<ContainerSummary>::empty());
        assert(text::texts(out@) =~= Seq::<Seq<char>>::empty());
        while i < running.len()
            invariant
                i <= running@.len(),
                seen == named_pods(running@.take(i as int)),
                text::texts(out@) == text::distinct(seen),
            decreases running@.len() - i,
        {
            assert(running@.take(i as int + 1).drop_last() == running@.take(i as int));
            assert(running@.take(i as int + 1).last() == running@[i as int]);
            let ghost before = seen;
            if let Some(ns) = &running[i].names {
                let mut j: usize = 0;
                assert(ns@.take(0) == Seq::<String>::empty());
                assert(before + pods_of_names(ns@.take(0)) =~= before);
                while j < ns.len()
                    invariant
                        j <= ns@.len(),
                        seen == before + pods_of_names(ns@.take(j as int)),
                        text::texts(out@) == text::distinct(seen),
                    decreases ns@.len() - j,
                {
                    assert(ns@.take(j as int + 1).drop_last() == ns@.take(j as int));
                    assert(ns@.take(j as int + 1).last() == ns@[j as int]);
                    let clean = text::trim_start_char(ns[j].as_str(), '/');
                    let pod = text::before_first(clean, '_');
                    if !text::starts_with(pod, "rusternetes-") {
                        text::add_text(&mut out, pod);
                        proof {
                            lemma_distinct_push(seen, pod@);
                            seen = seen.push(pod@);
                        }
                    }
                    assert(seen =~= before + pods_of_names(ns@.take(j as int + 1)));
                    j += 1;
                }
                assert(ns@.take(ns@.len() as int) == ns@);
            }
            assert(seen =~= named_pods(running@.take(i as int + 1)));
            i += 1;
        }
        assert(running@.take(running@.len() as int) == running@);
        out
    }

    /// The pods that have containers of this cluster, whether or not they run.
    pub fn list_all_pods(&self, listed: &Vec<ContainerSummary>) -> (r: Vec<String>)
        ensures
            text::texts(r@) == text::distinct(labelled_pods(listed@, self.network@)),
    {
        let mut out: Vec<String> = Vec::new();
        let mut i: usize = 0;
        assert(listed@.take(0) == Seq::<ContainerSummary>::empty());
        assert(text::texts(out@) =~= Seq::<Seq<char>>::empty());
        while i < listed.len()
            invariant
                i <= listed@.len(),
                text::texts(out@) == text::distinct(
                    labelled_pods(listed@.take(i as int), self.network@),
                ),
            decreases listed@.len() - i,
        {
            assert(listed@.take(i as int + 1).drop_last() == listed@.take(i as int));
            assert(listed@.take(i as int + 1).last() == listed@[i as int]);
            if self.is_owned_by_this_cluster(&listed[i].labels) {
                if let Some(pod) = api::opt_get(&listed[i].labels, POD_LABEL) {
                    proof {
                        lemma_distinct_push(
                            labelled_pods(listed@.take(i as int), self.network@),
                            pod@,
                        );
                    }
                    text::add_text(&mut out, pod);
                }
            }
            i += 1;
        }
        assert(listed@.take(listed@.len() as int) == listed@);
        out
    }

    /// How many seconds ago a pod's network holder started, by the daemon's words: none
    /// where they say no time, or one to come.
    pub fn get_container_age(&self, started_at: &Option<String>, now: Timestamp) -> (r: u64)
        ensures
            r == age(time::opt_time_of(text::opt_text(*started_at)), now),
    {
        match started_at {
            Some(s) => age_in_seconds(time::parse_time(s.as_str()), now),
            None => 0,
        }
    }
}

/// The whole seconds from the start until now, none where there is no start, or one to
/// come.
pub open spec fn age(started: Option<Timestamp>, now: Timestamp) -> int {
    match started {
        Some(t) => {
            let s = time::seconds_between(now, t);
            if s < 0 {
                0
            } else if s > u64::MAX {
                u64::MAX as int
            } else {
                s
            }
        },
        None => 0,
    }
}

/// The whole seconds from the start until now.
pub fn age_in_seconds(started: Option<Timestamp>, now: Timestamp) -> (r: u64)
    ensures
        r == age(started, now),
{
    match started {
        Some(t) => {
            let s: i128 = time::elapsed_seconds(now, t);
            if s < 0 {
                0
            } else if s > u64::MAX as i128 {
                u64::MAX
            } else {
                s as u64
            }
        },
        None => 0,
    }
}

/// Whether the ages of all containers can be told.
pub fn container_ages_fit(listed: &Vec<ContainerSummary>, now: i64) -> (r: bool)
    ensures
        r == ages_fit(listed@, now),
{
    let mut i: usize = 0;
    while i < listed.len()
        invariant
            i <= listed@.len(),
            forall|j: int|
                0 <= j < i ==> i64::MIN <= now - created_at(#[trigger] listed@[j]) <= i64::MAX,
        decreases listed@.len() - i,
    {
        let created: i64 = match listed[i].created {
            Some(t) => t,
            None => 0,
        };
        assert(created == created_at(listed@[i as int]));
        if now.checked_sub(created).is_none() {
            return false;
        }
        i += 1;
    }
    true
}

proof fn lemma_removed(cs: Seq<ContainerSummary>, existing: Seq<Seq<char>>, n: nat, x: Seq<char>)
    ensures
        removed_ids(cs, existing, n).contains(x) <==> exists|i: int|
            0 <= i < n && goes(cs, existing, i) && (#[trigger] cs[i]).id->0@ == x,
    decreases n,
{
    if n > 0 {
        let m = (n - 1) as nat;
        let before = removed_ids(cs, existing, m);
        let now = removed_ids(cs, existing, n);
        lemma_removed(cs, existing, m, x);
        if before.contains(x) {
            let j = choose|j: int| 0 <= j < before.len() && before[j] == x;
            assert(now[j] == x);
        }
        if now.contains(x) && !before.contains(x) {
            let j = choose|j: int| 0 <= j < now.len() && now[j] == x;
            if j < before.len() {
                assert(before[j] == x);
            }
            assert(cs[m as int].id->0@ == x);
        }
        if exists|i: int| 0 <= i < n && goes(cs, existing, i) && (#[trigger] cs[i]).id->0@ == x {
            let i = choose|i: int|
                0 <= i < n && goes(cs, existing, i) && (#[trigger] cs[i]).id->0@ == x;
            if i == m {
                assert(now.last() == x);
            }
        }
    }
}

proof fn lemma_stale(cs: Seq<ContainerSummary>, now: i64, n: nat, x: Seq<char>)
    ensures
        stale_ids(cs, now, n).contains(x) <==> exists|i: int|
            0 <= i < n && is_stale(#[trigger] cs[i], now) && cs[i].id->0@ == x,
    decreases n,
{
    if n > 0 {
        let m = (n - 1) as nat;
        let before = stale_ids(cs, now, m);
        let after = stale_ids(cs, now, n);
        lemma_stale(cs, now, m, x);
        if before.contains(x) {
            let j = choose|j: int| 0 <= j < before.len() && before[j] == x;
            assert(after[j] == x);
        }
        if after.contains(x) && !before.contains(x) {
            let j = choose|j: int| 0 <= j < after.len() && after[j] == x;
            if j < before.len() {
                assert(before[j] == x);
            }
            assert(is_stale(cs[m as int], now));
        }
        if exists|i: int| 0 <= i < n && is_stale(#[trigger] cs[i], now) && cs[i].id->0@ == x {
            let i = choose|i: int|
                0 <= i < n && is_stale(#[trigger] cs[i], now) && cs[i].id->0@ == x;
            if i == m {
                assert(after.last() == x);
            }
        }
    }
}

proof fn lemma_gone(cs: Seq<ContainerSummary>, existing: Seq<Seq<char>>, n: nat, x: Seq<char>)
    ensures
        gone_pods(cs, existing, n).contains(x) <==> exists|i: int|
            0 <= i < n && pod_goes(cs, existing, i) && pod_of(#[trigger] cs[i]) == x,
    decreases n,
{
    if n > 0 {
        let m = (n - 1) as nat;
        let before = gone_pods(cs, existing, m);
        let now = gone_pods(cs, existing, n);
        lemma_gone(cs, existing, m, x);
        if before.contains(x) {
            let j = choose|j: int| 0 <= j < before.len() && before[j] == x;
            assert(now[j] == x);
        }
        if now.contains(x) && !before.contains(x) {
            let j = choose|j: int| 0 <= j < now.len() && now[j] == x;
            if j < before.len() {
                assert(before[j] == x);
            }
            assert(pod_of(cs[m as int]) == x);
        }
        if exists|i: int| 0 <= i < n && pod_goes(cs, existing, i) && pod_of(#[trigger] cs[i]) == x {
            let i = choose|i: int|
                0 <= i < n && pod_goes(cs, existing, i) && pod_of(#[trigger] cs[i]) == x;
            if i == m && !before.contains(x) {
                assert(now.last() == x);
            }
        }
    }
}

/// The first name of a container says that it is `rest` of `pod`.
pub open spec fn belongs(c: ContainerSummary, pod: Seq<char>, rest: Seq<char>) -> bool {
    c.names is Some && c.names->0@.len() > 0 && text::trimmed_start(c.names->0@[0]@, '/') == pod
        + seq!['_'] + rest
}

/// A container's name is its pod's and its own, with an underscore between.
pub proof fn law_names_speak_of_their_pod(c: ContainerSummary, pod: Seq<char>, rest: Seq<char>)
    requires
        belongs(c, pod, rest),
        !pod.contains('_'),
    ensures
        pod_of(c) == pod,
        short_name(c) == rest,
{
    let s = pod + seq!['_'] + rest;
    let k = pod.len() as int;
    assert(s[k] == '_');
    assert forall|i: int| 0 <= i < k implies (#[trigger] s[i]) != '_' by {
        assert(s[i] == pod[i]);
        if pod[i] == '_' {
            assert(pod.contains('_'));
        }
    }
    text::lemma_cut_is(s, '_', k);
    assert(s.take(k) =~= pod);
    assert(s.skip(k + 1) =~= rest);
}

/// The daemon says that the container has ended.
pub open spec fn said_to_have_ended(c: ContainerSummary) -> bool {
    c.state matches Some(s) && (s@ == "exited"@ || s@ == "dead"@ || s@ == "stopped"@)
}

/// What ended of a pod that is no longer stored is removed, whatever else there is; of a stored
/// pod it is removed exactly where a newer one of its name ended too. What has not ended is
/// removed only where it was created more than five minutes ago and never started.
pub proof fn law_what_ended_is_removed(
    cs: Seq<ContainerSummary>,
    existing: Seq<Seq<char>>,
    now: i64,
    i: int,
    pod: Seq<char>,
    rest: Seq<char>,
)
    requires
        0 <= i < cs.len(),
        belongs(cs[i], pod, rest),
        !pod.contains('_'),
        cs[i].id is Some,
        !text::begins(pod + seq!['_'] + rest, "rusternetes-"@),
    ensures
        ({
            let id = cs[i].id->0@;
            let removed = removed_ids(cs, existing, cs.len());
            let stale = stale_ids(cs, now, cs.len());
            &&& said_to_have_ended(cs[i]) && !existing.contains(pod) ==> removed.contains(id)
            &&& said_to_have_ended(cs[i]) && existing.contains(pod) && (exists|j: int|
                0 <= j < cs.len() && #[trigger] is_dead(cs[j]) && same_group(cs[j], cs[i])
                    && created_at(cs[j]) > created_at(cs[i])) ==> removed.contains(id)
            &&& (text::opt_text(cs[i].state) == Some("created"@) && now - created_at(cs[i]) > 300)
                ==> stale.contains(id)
            &&& text::opt_text(cs[i].state) == Some("running"@) && (forall|j: int|
                0 <= j < cs.len() && j != i ==> text::opt_text((#[trigger] cs[j]).id) != Some(id))
                ==> !removed.contains(id) && !stale.contains(id)
        }),
{
    reveal_strlit("exited");
    reveal_strlit("dead");
    reveal_strlit("stopped");
    reveal_strlit("created");
    reveal_strlit("running");
    assert("exited"@.len() == 6 && "dead"@.len() == 4 && "stopped"@.len() == 7 && "created"@.len() == 7
        && "running"@.len() == 7);
    assert("stopped"@[0] == 's' && "created"@[0] == 'c' && "running"@[0] == 'r');
    let id = cs[i].id->0@;
    law_names_speak_of_their_pod(cs[i], pod, rest);
    lemma_removed(cs, existing, cs.len(), id);
    lemma_stale(cs, now, cs.len(), id);
    if said_to_have_ended(cs[i]) && existing.contains(pod) && (exists|j: int|
        0 <= j < cs.len() && #[trigger] is_dead(cs[j]) && same_group(cs[j], cs[i]) && created_at(
            cs[j],
        ) > created_at(cs[i])) {
        let j = choose|j: int|
            0 <= j < cs.len() && #[trigger] is_dead(cs[j]) && same_group(cs[j], cs[i])
                && created_at(cs[j]) > created_at(cs[i]);
        assert(!is_newest(cs, i)) by {
            assert(is_dead(cs[j]));
        }
        assert(goes(cs, existing, i));
    }
    if said_to_have_ended(cs[i]) && !existing.contains(pod) {
        assert(goes(cs, existing, i));
    }
    if text::opt_text(cs[i].state) == Some("running"@) && (forall|j: int|
        0 <= j < cs.len() && j != i ==> text::opt_text((#[trigger] cs[j]).id) != Some(id)) {
        assert(!goes(cs, existing, i));
        assert(!is_stale(cs[i], now));
        if removed_ids(cs, existing, cs.len()).contains(id) {
            let j = choose|j: int|
                0 <= j < cs.len() && goes(cs, existing, j) && (#[trigger] cs[j]).id->0@ == id;
            assert(text::opt_text(cs[j].id) == Some(id));
        }
        if stale_ids(cs, now, cs.len()).contains(id) {
            let j = choose|j: int|
                0 <= j < cs.len() && is_stale(#[trigger] cs[j], now) && cs[j].id->0@ == id;
            assert(text::opt_text(cs[j].id) == Some(id));
        }
    }
}

/// A pod loses its sandbox and its volumes only if it is no longer stored and none of its
/// containers but the sandbox runs; and it does so if it left an ended container behind.
pub proof fn law_only_gone_pods_lose_their_volumes(
    cs: Seq<ContainerSummary>,
    existing: Seq<Seq<char>>,
    pod: Seq<char>,
    i: int,
)
    ensures
        gone_pods(cs, existing, cs.len()).contains(pod) ==> !existing.contains(pod)
            && !pod_is_alive(cs, pod),
        0 <= i < cs.len() && is_dead(cs[i]) && pod_of(cs[i]) == pod && !existing.contains(pod)
            && !pod_is_alive(cs, pod) ==> gone_pods(cs, existing, cs.len()).contains(pod),
{
    lemma_gone(cs, existing, cs.len(), pod);
    if gone_pods(cs, existing, cs.len()).contains(pod) {
        let j = choose|j: int|
            0 <= j < cs.len() && pod_goes(cs, existing, j) && pod_of(#[trigger] cs[j]) == pod;
        assert(pod_goes(cs, existing, j));
    }
    if 0 <= i < cs.len() && is_dead(cs[i]) && pod_of(cs[i]) == pod && !existing.contains(pod)
        && !pod_is_alive(cs, pod) {
        assert(pod_goes(cs, existing, i));
    }
}

/// The pods with containers of this cluster are exactly those that such a container's label
/// names, each once.
pub proof fn law_labelled_pods_are_listed(
    cs: Seq<ContainerSummary>,
    network: Seq<char>,
    pod: Seq<char>,
)
    ensures
        text::distinct(labelled_pods(cs, network)).contains(pod) <==> exists|i: int|
            0 <= i < cs.len() && api::opt_lookup((#[trigger] cs[i]).labels, POD_LABEL@) == Some(pod)
                && api::opt_lookup(cs[i].labels, crate::runtime::CLUSTER_LABEL@) == Some(network),
        text::distinct(labelled_pods(cs, network)).no_duplicates(),
{
    text::law_distinct_texts_are_all_of_them(labelled_pods(cs, network));
    lemma_labelled(cs, network, pod);
}

proof fn lemma_labelled(cs: Seq<ContainerSummary>, network: Seq<char>, pod: Seq<char>)
    ensures
        labelled_pods(cs, network).contains(pod) <==> exists|i: int|
            0 <= i < cs.len() && api::opt_lookup((#[trigger] cs[i]).labels, POD_LABEL@) == Some(pod)
                && api::opt_lookup(cs[i].labels, crate::runtime::CLUSTER_LABEL@) == Some(network),
    decreases cs.len(),
{
    if cs.len() > 0 {
        let short = cs.drop_last();
        let before = labelled_pods(short, network);
        let now = labelled_pods(cs, network);
        let n = cs.len() - 1;
        lemma_labelled(short, network, pod);
        assert(forall|i: int| 0 <= i < short.len() ==> (#[trigger] short[i]) == cs[i]);
        if before.contains(pod) {
            let j = choose|j: int| 0 <= j < before.len() && before[j] == pod;
            assert(now[j] == pod);
            let i = choose|i: int|
                0 <= i < short.len() && api::opt_lookup((#[trigger] short[i]).labels, POD_LABEL@)
                    == Some(pod) && api::opt_lookup(
                    short[i].labels,
                    crate::runtime::CLUSTER_LABEL@,
                ) == Some(network);
            assert(short[i] == cs[i]);
        } else if now.contains(pod) {
            let j = choose|j: int| 0 <= j < now.len() && now[j] == pod;
            if j < before.len() {
                assert(before[j] == pod);
            }
            assert(api::opt_lookup(cs[n as int].labels, POD_LABEL@) == Some(pod));
        }
        if exists|i: int|
            0 <= i < cs.len() && api::opt_lookup((#[trigger] cs[i]).labels, POD_LABEL@) == Some(pod)
                && api::opt_lookup(cs[i].labels, crate::runtime::CLUSTER_LABEL@) == Some(network) {
            let i = choose|i: int|
                0 <= i < cs.len() && api::opt_lookup((#[trigger] cs[i]).labels, POD_LABEL@) == Some(
                    pod,
                ) && api::opt_lookup(cs[i].labels, crate::runtime::CLUSTER_LABEL@) == Some(
                    network,
                );
            if i < n {
                assert(short[i] == cs[i]);
            } else {
                assert(now.last() == pod);
            }
        }
    }
}

/// A pod is as old as the whole seconds since its start, and not old at all where it has no
/// start or one to come.
pub proof fn law_ages_count_from_the_start(t: Timestamp, now: Timestamp)
    requires
        t.nanos < 1_000_000_000,
        now.nanos < 1_000_000_000,
    ensures
        age(None, now) == 0,
        t.nanos == now.nanos && now.secs >= t.secs ==> age(Some(t), now) == now.secs - t.secs,
        now.secs < t.secs ==> age(Some(t), now) == 0,
{
}

/// Only what the daemon says has ended, or was created more than five minutes ago and never
/// started, is removed, and nothing of the control plane.
pub proof fn law_only_what_ended_or_never_started_is_removed(
    cs: Seq<ContainerSummary>,
    existing: Seq<Seq<char>>,
    now: i64,
    x: Seq<char>,
)
    ensures
        removed_ids(cs, existing, cs.len()).contains(x) ==> exists|i: int|
            0 <= i < cs.len() && said_to_have_ended(#[trigger] cs[i]) && text::opt_text(cs[i].id)
                == Some(x) && !of_control_plane(cs[i]),
        stale_ids(cs, now, cs.len()).contains(x) ==> exists|i: int|
            0 <= i < cs.len() && text::opt_text((#[trigger] cs[i]).state) == Some("created"@)
                && text::opt_text(cs[i].id) == Some(x) && now - (match cs[i].created {
                Some(t) => t as int,
                None => 0,
            }) > 300 && !of_control_plane(cs[i]),
        last_ids(cs, existing, cs.len()).contains(x) ==> exists|i: int|
            0 <= i < cs.len() && said_to_have_ended(#[trigger] cs[i]) && text::opt_text(cs[i].id)
                == Some(x) && !existing.contains(pod_of(cs[i])),
{
    reveal_strlit("exited");
    reveal_strlit("dead");
    reveal_strlit("stopped");
    reveal_strlit("created");
    assert("exited"@.len() == 6 && "dead"@.len() == 4 && "stopped"@.len() == 7);
    lemma_removed(cs, existing, cs.len(), x);
    lemma_stale(cs, now, cs.len(), x);
    lemma_last(cs, existing, cs.len(), x);
    if removed_ids(cs, existing, cs.len()).contains(x) {
        let i = choose|i: int|
            0 <= i < cs.len() && goes(cs, existing, i) && (#[trigger] cs[i]).id->0@ == x;
        assert(said_to_have_ended(cs[i]));
    }
    if stale_ids(cs, now, cs.len()).contains(x) {
        let i = choose|i: int|
            0 <= i < cs.len() && is_stale(#[trigger] cs[i], now) && cs[i].id->0@ == x;
        assert(text::opt_text(cs[i].state) == Some("created"@)) by {
            assert("created"@.len() == 7);
        }
    }
    if last_ids(cs, existing, cs.len()).contains(x) {
        let i = choose|i: int|
            0 <= i < cs.len() && is_last(cs, existing, i) && (#[trigger] cs[i]).id->0@ == x;
        assert(said_to_have_ended(cs[i]));
    }
}

/// The container's first name is one of the control plane's.
pub open spec fn of_control_plane(c: ContainerSummary) -> bool {
    c.names is Some && c.names->0@.len() > 0 && text::begins(
        text::trimmed_start(c.names->0@[0]@, '/'),
        "rusternetes-"@,
    )
}

spec fn is_last(cs: Seq<ContainerSummary>, existing: Seq<Seq<char>>, i: int) -> bool {
    pod_goes(cs, existing, i) && is_dead(cs[i]) && is_newest(cs, i)
}

proof fn lemma_last(cs: Seq<ContainerSummary>, existing: Seq<Seq<char>>, n: nat, x: Seq<char>)
    ensures
        last_ids(cs, existing, n).contains(x) <==> exists|i: int|
            0 <= i < n && is_last(cs, existing, i) && (#[trigger] cs[i]).id->0@ == x,
    decreases n,
{
    if n > 0 {
        let m = (n - 1) as nat;
        let before = last_ids(cs, existing, m);
        let after = last_ids(cs, existing, n);
        lemma_last(cs, existing, m, x);
        if after.contains(x) {
            let k = choose|k: int| 0 <= k < after.len() && after[k] == x;
            if k < before.len() {
                assert(before[k] == x);
                let i = choose|i: int|
                    0 <= i < m && is_last(cs, existing, i) && (#[trigger] cs[i]).id->0@ == x;
                assert(is_last(cs, existing, i) && cs[i].id->0@ == x);
            } else {
                assert(is_last(cs, existing, n - 1) && cs[n - 1].id->0@ == x);
            }
        }
        if exists|i: int| 0 <= i < n && is_last(cs, existing, i) && (#[trigger] cs[i]).id->0@ == x {
            let i = choose|i: int|
                0 <= i < n && is_last(cs, existing, i) && (#[trigger] cs[i]).id->0@ == x;
            if i < m {
                let k = choose|k: int| 0 <= k < before.len() && before[k] == x;
                assert(after[k] == x);
            } else {
                assert(after[after.len() - 1] == x);
            }
        }
    }
}

/// Of a pod that is gone the ended containers that are the newest of their name are removed
/// once more: exactly those of the pods that lose their volumes.
pub proof fn law_the_last_of_a_gone_pod_is_removed_again(
    cs: Seq<ContainerSummary>,
    existing: Seq<Seq<char>>,
    i: int,
)
    requires
        0 <= i < cs.len(),
        is_dead(cs[i]),
        !existing.contains(pod_of(cs[i])),
        !pod_is_alive(cs, pod_of(cs[i])),
        forall|j: int|
            0 <= j < cs.len() && j != i && is_dead(#[trigger] cs[j]) && same_group(cs[j], cs[i])
                ==> created_at(cs[j]) < created_at(cs[i]),
    ensures
        last_ids(cs, existing, cs.len()).contains(cs[i].id->0@),
{
    lemma_last(cs, existing, cs.len(), cs[i].id->0@);
    assert(is_last(cs, existing, i));
}

/// A container's name speaks of the pod before its first underscore, and the running pods are
/// exactly those that a name of a container speaks of, without the control plane's, each once.
pub proof fn law_named_pods_are_listed(cs: Seq<ContainerSummary>, pod: Seq<char>)
    ensures
        text::distinct(named_pods(cs)).contains(pod) <==> !text::begins(pod, "rusternetes-"@)
            && exists|i: int| 0 <= i < cs.len() && has_name_of(#[trigger] cs[i], pod),
        text::distinct(named_pods(cs)).no_duplicates(),
    decreases cs.len(),
{
    text::law_distinct_texts_are_all_of_them(named_pods(cs));
    lemma_named(cs, pod);
}

/// One of the container's names, without the slashes before it, is the pod's up to its first
/// underscore.
pub open spec fn has_name_of(c: ContainerSummary, pod: Seq<char>) -> bool {
    c.names is Some && exists|j: int|
        0 <= j < c.names->0@.len() && speaks_of((#[trigger] c.names->0@[j])@, pod)
}

/// The name, without the slashes before it, is the pod's up to its first underscore.
pub open spec fn speaks_of(name: Seq<char>, pod: Seq<char>) -> bool {
    let n = text::trimmed_start(name, '/');
    !pod.contains('_') && (n == pod || text::begins(n, pod + seq!['_']))
}

proof fn lemma_speaks(name: Seq<char>, pod: Seq<char>)
    ensures
        ({
            let n = text::trimmed_start(name, '/');
            n.take(text::cut(n, '_')) == pod <==> speaks_of(name, pod)
        }),
{
    let n = text::trimmed_start(name, '/');
    text::lemma_cut_bounds(n, '_');
    let k = text::cut(n, '_');
    if n.take(k) == pod {
        assert(!pod.contains('_')) by {
            if pod.contains('_') {
                let j = choose|j: int| 0 <= j < pod.len() && pod[j] == '_';
                assert(n[j] == '_');
            }
        }
        if k < n.len() {
            assert(n.take(k + 1) =~= pod + seq!['_']);
        } else {
            assert(n.take(k) =~= n);
        }
    }
    if speaks_of(name, pod) {
        assert forall|j: int| 0 <= j < pod.len() implies pod[j] != '_' by {
            if pod[j] == '_' {
                assert(pod.contains('_'));
            }
        }
        if n == pod {
            text::lemma_cut_is(n, '_', n.len() as int);
            assert(n.take(n.len() as int) =~= pod);
        } else {
            let h = n.take(pod.len() as int + 1);
            assert(h == pod + seq!['_']);
            assert forall|j: int| 0 <= j < pod.len() implies n[j] != '_' by {
                assert(h[j] == n[j]);
                assert(h[j] == pod[j]);
            }
            assert(h[pod.len() as int] == '_');
            assert(n[pod.len() as int] == '_');
            text::lemma_cut_is(n, '_', pod.len() as int);
            assert(n.take(pod.len() as int) =~= pod) by {
                assert forall|j: int| 0 <= j < pod.len() implies n[j] == pod[j] by {
                    assert(h[j] == n[j]);
                }
            }
        }
    }
}

proof fn lemma_pods_of_names(ns: Seq<String>, pod: Seq<char>)
    ensures
        pods_of_names(ns).contains(pod) <==> !text::begins(pod, "rusternetes-"@) && exists|j: int|
            0 <= j < ns.len() && speaks_of((#[trigger] ns[j])@, pod),
    decreases ns.len(),
{
    let r = pods_of_names(ns);
    if ns.len() > 0 {
        let d = ns.drop_last();
        let rest = pods_of_names(d);
        lemma_pods_of_names(d, pod);
        lemma_speaks(ns.last()@, pod);
        assert(ns[ns.len() - 1] == ns.last());
        if r.contains(pod) {
            let k = choose|k: int| 0 <= k < r.len() && r[k] == pod;
            if k < rest.len() {
                assert(rest[k] == pod);
                let j = choose|j: int| 0 <= j < d.len() && speaks_of((#[trigger] d[j])@, pod);
                assert(ns[j] == d[j]);
            }
        }
        if !text::begins(pod, "rusternetes-"@) && exists|j: int|
            0 <= j < ns.len() && speaks_of((#[trigger] ns[j])@, pod) {
            let j = choose|j: int| 0 <= j < ns.len() && speaks_of((#[trigger] ns[j])@, pod);
            if j < d.len() {
                assert(d[j] == ns[j]);
                let k = choose|k: int| 0 <= k < rest.len() && rest[k] == pod;
                assert(r[k] == pod);
            } else {
                assert(r[r.len() - 1] == pod);
            }
        }
    }
}

proof fn lemma_named(cs: Seq<ContainerSummary>, pod: Seq<char>)
    ensures
        named_pods(cs).contains(pod) <==> !text::begins(pod, "rusternetes-"@) && exists|i: int|
            0 <= i < cs.len() && has_name_of(#[trigger] cs[i], pod),
    decreases cs.len(),
{
    if cs.len() > 0 {
        let d = cs.drop_last();
        let rest = named_pods(d);
        let own = match cs.last().names {
            Some(ns) => pods_of_names(ns@),
            None => Seq::empty(),
        };
        let r = named_pods(cs);
        lemma_named(d, pod);
        if cs.last().names is Some {
            lemma_pods_of_names(cs.last().names->0@, pod);
        }
        assert(cs[cs.len() - 1] == cs.last());
        if r.contains(pod) {
            let k = choose|k: int| 0 <= k < r.len() && r[k] == pod;
            if k < rest.len() {
                assert(rest[k] == pod);
                let i = choose|i: int| 0 <= i < d.len() && has_name_of(#[trigger] d[i], pod);
                assert(cs[i] == d[i]);
            } else {
                assert(own[k - rest.len()] == pod);
            }
        }
        if !text::begins(pod, "rusternetes-"@) && exists|i: int|
            0 <= i < cs.len() && has_name_of(#[trigger] cs[i], pod) {
            let i = choose|i: int| 0 <= i < cs.len() && has_name_of(#[trigger] cs[i], pod);
            if i < d.len() {
                assert(d[i] == cs[i]);
                let k = choose|k: int| 0 <= k < rest.len() && rest[k] == pod;
                assert(r[k] == pod);
            } else {
                let k = choose|k: int| 0 <= k < own.len() && own[k] == pod;
                assert(r[rest.len() + k] == pod);
            }
        }
    }
}

} // verus!
