//! What the node's containers use, and changing what they may use.

use crate::daemon::ContainerSummary;
use crate::runtime::ContainerRuntime;
use crate::text;
use vstd::prelude::*;
use vstd::string::*;

verus! {

/// The name is that of a container of one of the pods.
pub open spec fn begins_with_one(name: Seq<char>, pods: Seq<String>) -> bool {
    exists|i: int| 0 <= i < pods.len() && text::begins(name, (#[trigger] pods[i])@ + "_"@)
}

/// Of the names, the first that tells says that the container is one of the pods' and no
/// pause container.
pub open spec fn names_tell(names: Seq<String>, pods: Seq<String>) -> bool
    decreases names.len(),
{
    if names.len() == 0 {
        false
    } else {
        let n = text::trimmed_start(names[0]@, '/');
        if text::ends(n, "_pause"@) {
            false
        } else if begins_with_one(n, pods) {
            true
        } else {
            names_tell(names.drop_first(), pods)
        }
    }
}

/// The container is measured.
pub open spec fn is_measured(c: ContainerSummary, pods: Seq<String>) -> bool {
    c.names matches Some(ns) && names_tell(ns@, pods)
}

/// The containers of a list that are measured and have an identity.
pub open spec fn measured_ids(cs: Seq<ContainerSummary>, pods: Seq<String>) -> Seq<Seq<char>>
    decreases cs.len(),
{
    if cs.len() == 0 {
        Seq::empty()
    } else {
        let rest = measured_ids(cs.drop_last(), pods);
        let c = cs.last();
        if is_measured(c, pods) && c.id is Some {
            rest.push(c.id->0@)
        } else {
            rest
        }
    }
}

/// What a container holds in memory, less what is only cached.
#[derive(Clone, Copy, Debug, PartialEq, Eq, Structural)]
pub struct MemorySample {
    /// The bytes in use, where they are given.
    pub usage: Option<u64>,
    pub cache: u64,
}

/// The bytes that a sample counts for.
pub open spec fn working_set(m: MemorySample) -> int {
    match m.usage {
        Some(u) => if u >= m.cache {
            u - m.cache
        } else {
            0
        },
        None => 0,
    }
}

/// The bytes that all samples count for.
pub open spec fn total(ms: Seq<MemorySample>) -> int
    decreases ms.len(),
{
    if ms.len() == 0 {
        0
    } else {
        total(ms.drop_last()) + working_set(ms.last())
    }
}

proof fn lemma_total_grows(ms: Seq<MemorySample>, n: int)
    requires
        0 <= n <= ms.len(),
    ensures
        0 <= total(ms.take(n)) <= total(ms),
    decreases ms.len(),
{
    if n < ms.len() {
        lemma_total_grows(ms.drop_last(), n);
        assert(ms.drop_last().take(n) == ms.take(n));
    } else {
        assert(ms.take(n) == ms);
        if n > 0 {
            lemma_total_grows(ms.drop_last(), n - 1);
            assert(ms.drop_last().take(n - 1) == ms.drop_last());
        }
    }
}

/// The bytes that all samples count for.
pub fn memory_in_use(ms: &Vec<MemorySample>) -> (r: u64)
    requires
        total(ms@) <= u64::MAX,
    ensures
        r == total(ms@),
{
    let mut sum: u64 = 0;
    let mut i: usize = 0;
    assert(ms@.take(0) == Seq::<MemorySample>::empty());
    while i < ms.len()
        invariant
            i <= ms@.len(),
            total(ms@) <= u64::MAX,
            sum == total(ms@.take(i as int)),
        decreases ms@.len() - i,
    {
        assert(ms@.take(i as int + 1).drop_last() == ms@.take(i as int));
        assert(ms@.take(i as int + 1).last() == ms@[i as int]);
        proof {
            lemma_total_grows(ms@, i as int + 1);
        }
        if let Some(u) = ms[i].usage {
            let c: u64 = ms[i].cache;
            let part: u64 = if u >= c {
                u - c
            } else {
                0
            };
            sum = sum + part;
        }
        i += 1;
    }
    assert(ms@.take(ms@.len() as int) == ms@);
    sum
}

/// Whether the bytes that all samples count for can be told in 64 bits.
pub fn memory_total_fits(ms: &Vec<MemorySample>) -> (r: bool)
    ensures
        r == (total(ms@) <= u64::MAX),
{
    let mut sum: u64 = 0;
    let mut i: usize = 0;
    assert(ms@.take(0) == Seq::<MemorySample>::empty());
    while i < ms.len()
        invariant
            i <= ms@.len(),
            sum == total(ms@.take(i as int)),
        decreases ms@.len() - i,
    {
        assert(ms@.take(i as int + 1).drop_last() == ms@.take(i as int));
        assert(ms@.take(i as int + 1).last() == ms@[i as int]);
        proof {
            lemma_total_grows(ms@, i as int + 1);
        }
        if let Some(u) = ms[i].usage {
            let c: u64 = ms[i].cache;
            let part: u64 = if u >= c {
                u - c
            } else {
                0
            };
            match sum.checked_add(part) {
                Some(s) => {
                    sum = s;
                },
                None => {
                    return false;
                },
            }
        }
        i += 1;
    }
    assert(ms@.take(ms@.len() as int) == ms@);
    true
}

/// Two readings of a container's processor time and of the system's.
#[derive(Clone, Copy, Debug, PartialEq, Eq, Structural)]
pub struct CpuSample {
    pub total: u64,
    pub previous_total: u64,
    /// The system's time, where it is given.
    pub system: Option<u64>,
    pub previous_system: Option<u64>,
}

/// What is left of `a` when `b` is taken off, nothing where `b` is more.
pub open spec fn less(a: u64, b: u64) -> u64 {
    if a >= b {
        (a - b) as u64
    } else {
        0
    }
}

/// What is left of `a` when `b` is taken off.
fn take_off(a: u64, b: u64) -> (r: u64)
    ensures
        r == less(a, b),
{
    if a >= b {
        a - b
    } else {
        0
    }
}

/// The processor time that a container used and the time that passed in between, where
/// any did.
pub fn cpu_shares_used(s: &CpuSample) -> (r: Option<(u64, u64)>)
    ensures
        r == (match s.system {
            Some(now) => {
                let passed = less(
                    now,
                    match s.previous_system {
                        Some(p) => p,
                        None => 0,
                    },
                );
                if passed > 0 {
                    Some((less(s.total, s.previous_total), passed))
                } else {
                    None
                }
            },
            None => None,
        }),
{
    match s.system {
        Some(now) => {
            let before: u64 = match s.previous_system {
                Some(p) => p,
                None => 0,
            };
            let passed: u64 = take_off(now, before);
            if passed > 0 {
                Some((take_off(s.total, s.previous_total), passed))
            } else {
                None
            }
        },
        None => None,
    }
}

/// A container's new limits.
#[derive(Clone, Copy, Debug, PartialEq, Eq, Structural)]
pub struct ResourceUpdate {
    pub cpu_period: Option<i64>,
    pub cpu_quota: Option<i64>,
    pub cpu_shares: Option<i64>,
    pub memory: Option<i64>,
    pub memory_swap: Option<i64>,
}

fn tells(ns: &Vec<String>, pods: &Vec<String>) -> (r: bool)
    ensures
        r == names_tell(ns@, pods@),
{
    let mut i: usize = 0;
    assert(ns@.skip(0) == ns@);
    while i < ns.len()
        invariant
            i <= ns@.len(),
            names_tell(ns@, pods@) == names_tell(ns@.skip(i as int), pods@),
        decreases ns@.len() - i,
    {
        assert(ns@.skip(i as int).drop_first() == ns@.skip(i as int + 1));
        assert(ns@.skip(i as int)[0] == ns@[i as int]);
        let clean = text::trim_start_char(ns[i].as_str(), '/');
        if text::ends_with(clean, "_pause") {
            return false;
        }
        let mut j: usize = 0;
        let mut found: bool = false;
        while j < pods.len()
            invariant
                j <= pods@.len(),
                found == exists|k: int|
                    0 <= k < j && text::begins(clean@, (#[trigger] pods@[k])@ + "_"@),
            decreases pods@.len() - j,
        {
            let head = text::cat2(pods[j].as_str(), "_");
            if text::starts_with(clean, head.as_str()) {
                assert(text::begins(clean@, pods@[j as int]@ + "_"@));
                found = true;
            }
            j += 1;
        }
        if found {
            return true;
        }
        i += 1;
    }
    false
}

impl ContainerRuntime {
    /// The running containers that are measured: those of the pods, but for the ones that
    /// hold their networks.
    pub fn collect_node_metrics(&self, pod_names: &Vec<String>, running: &Vec<ContainerSummary>) -> (
        r: Vec<String>)
        ensures
            text::texts(r@) == measured_ids(running@, pod_names@),
    {
        let mut out: Vec<String> = Vec::new();
        let mut i: usize = 0;
        assert(running@.take(0) == Seq::<ContainerSummary>::empty());
        assert(text::texts(out@) =~= Seq::<Seq<char>>::empty());
        while i < running.len()
            invariant
                i <= running@.len(),
                text::texts(out@) == measured_ids(running@.take(i as int), pod_names@),
            decreases running@.len() - i,
        {
            assert(running@.take(i as int + 1).drop_last() == running@.take(i as int));
            assert(running@.take(i as int + 1).last() == running@[i as int]);
            if let Some(id) = &running[i].id {
                if let Some(ns) = &running[i].names {
                    if tells(ns, pod_names) {
                        text::push_text(&mut out, id.clone());
                    }
                }
            }
            i += 1;
        }
        assert(running@.take(running@.len() as int) == running@);
        out
    }

    /// A container's new limits. What it may swap is what it may hold, so it may not swap.
    pub fn update_container_resources(
        &self,
        cpu_period: Option<i64>,
        cpu_quota: Option<i64>,
        cpu_shares: Option<i64>,
        memory: Option<i64>,
    ) -> (r: ResourceUpdate)
        ensures
            r == (ResourceUpdate {
                cpu_period,
                cpu_quota,
                cpu_shares,
                memory,
                memory_swap: memory,
            }),
    {
        ResourceUpdate { cpu_period, cpu_quota, cpu_shares, memory, memory_swap: memory }
    }
}

/// The container is one of the pods', by the first of its names that tells, and holds no
/// pod's network.
pub open spec fn is_pods_own(c: ContainerSummary, pods: Seq<String>, i: int) -> bool {
    &&& c.names is Some
    &&& 0 <= i < c.names->0@.len()
    &&& forall|j: int|
        0 <= j <= i ==> !text::ends(
            text::trimmed_start((#[trigger] c.names->0@[j])@, '/'),
            "_pause"@,
        )
    &&& exists|k: int|
        0 <= k < pods.len() && text::begins(
            text::trimmed_start(c.names->0@[i]@, '/'),
            (#[trigger] pods[k])@ + "_"@,
        )
}

/// What is measured are the running containers of the pods, each that has an identity, and
/// nothing else: not what holds a pod's network, and not what is no pod's.
pub proof fn law_exactly_the_pods_containers_are_measured(
    cs: Seq<ContainerSummary>,
    pods: Seq<String>,
    x: Seq<char>,
)
    ensures
        measured_ids(cs, pods).contains(x) <==> exists|n: int|
            0 <= n < cs.len() && is_own(#[trigger] cs[n], pods) && cs[n].id is Some && cs[n].id->0@
                == x,
    decreases cs.len(),
{
    let r = measured_ids(cs, pods);
    if cs.len() > 0 {
        let d = cs.drop_last();
        let rest = measured_ids(d, pods);
        law_exactly_the_pods_containers_are_measured(d, pods, x);
        lemma_own(cs.last(), pods);
        if r.contains(x) {
            let k = choose|k: int| 0 <= k < r.len() && r[k] == x;
            if k < rest.len() {
                assert(rest[k] == x);
                let n = choose|n: int|
                    0 <= n < d.len() && is_own(#[trigger] d[n], pods) && d[n].id is Some
                        && d[n].id->0@ == x;
                assert(cs[n] == d[n]);
            } else {
                assert(cs[cs.len() - 1] == cs.last());
            }
        }
        if exists|n: int|
            0 <= n < cs.len() && is_own(#[trigger] cs[n], pods) && cs[n].id is Some && cs[n].id->0@
                == x {
            let n = choose|n: int|
                0 <= n < cs.len() && is_own(#[trigger] cs[n], pods) && cs[n].id is Some
                    && cs[n].id->0@ == x;
            if n < d.len() {
                assert(d[n] == cs[n]);
                let k = choose|k: int| 0 <= k < rest.len() && rest[k] == x;
                assert(r[k] == x);
            } else {
                assert(r[r.len() - 1] == x);
            }
        }
    }
}

/// One of the container's names tells that it is one of the pods'.
pub open spec fn is_own(c: ContainerSummary, pods: Seq<String>) -> bool {
    exists|i: int| #[trigger] is_pods_own(c, pods, i)
}

proof fn lemma_own(c: ContainerSummary, pods: Seq<String>)
    ensures
        is_measured(c, pods) == is_own(c, pods),
{
    if c.names is Some {
        let ns = c.names->0@;
        lemma_names_tell(ns, pods);
        if names_tell(ns, pods) {
            let i = choose|i: int| #[trigger] tells_at(ns, pods, i);
            assert(is_pods_own(c, pods, i));
        }
        if is_own(c, pods) {
            let i = choose|i: int| #[trigger] is_pods_own(c, pods, i);
            assert(tells_at(ns, pods, i));
        }
    }
}

spec fn tells_at(ns: Seq<String>, pods: Seq<String>, i: int) -> bool {
    &&& 0 <= i < ns.len()
    &&& forall|j: int|
        0 <= j <= i ==> !text::ends(text::trimmed_start((#[trigger] ns[j])@, '/'), "_pause"@)
    &&& begins_with_one(text::trimmed_start(ns[i]@, '/'), pods)
}

proof fn lemma_names_tell(ns: Seq<String>, pods: Seq<String>)
    ensures
        names_tell(ns, pods) == exists|i: int| #[trigger] tells_at(ns, pods, i),
    decreases ns.len(),
{
    if ns.len() > 0 {
        let d = ns.drop_first();
        lemma_names_tell(d, pods);
        assert forall|i: int| 0 <= i < d.len() implies #[trigger] d[i] == ns[i + 1] by {}
        let n = text::trimmed_start(ns[0]@, '/');
        if !text::ends(n, "_pause"@) {
            if begins_with_one(n, pods) {
                assert(tells_at(ns, pods, 0));
            } else {
                if names_tell(d, pods) {
                    let i = choose|i: int| #[trigger] tells_at(d, pods, i);
                    assert forall|j: int| 0 <= j <= i + 1 implies !text::ends(
                        text::trimmed_start((#[trigger] ns[j])@, '/'),
                        "_pause"@,
                    ) by {
                        if j > 0 {
                            assert(d[j - 1] == ns[j]);
                        }
                    }
                    assert(tells_at(ns, pods, i + 1));
                }
                if exists|i: int| #[trigger] tells_at(ns, pods, i) {
                    let i = choose|i: int| #[trigger] tells_at(ns, pods, i);
                    assert(i > 0);
                    assert forall|j: int| 0 <= j <= i - 1 implies !text::ends(
                        text::trimmed_start((#[trigger] d[j])@, '/'),
                        "_pause"@,
                    ) by {
                        assert(d[j] == ns[j + 1]);
                    }
                    assert(tells_at(d, pods, i - 1));
                }
            }
        } else {
            if exists|i: int| #[trigger] tells_at(ns, pods, i) {
                let i = choose|i: int| #[trigger] tells_at(ns, pods, i);
                assert(!text::ends(text::trimmed_start(ns[0]@, '/'), "_pause"@));
            }
        }
    }
}

/// What is in use is the sum over all samples, in whatever order they come: what each uses
/// less what it has cached, and nothing where it caches more or tells no usage.
pub proof fn law_all_samples_count(a: Seq<MemorySample>, b: Seq<MemorySample>, m: MemorySample)
    ensures
        total(a + b) == total(a) + total(b),
        total(seq![m]) == (if m.usage is Some && m.usage->0 > m.cache {
            m.usage->0 - m.cache
        } else {
            0
        }),
        total(Seq::empty()) == 0,
    decreases b.len(),
{
    assert(seq![m].drop_last() =~= Seq::<MemorySample>::empty());
    assert(total(seq![m].drop_last()) == 0);
    if b.len() == 0 {
        assert(a + b =~= a);
    } else {
        law_all_samples_count(a, b.drop_last(), m);
        assert((a + b).drop_last() =~= a + b.drop_last());
    }
}

/// What is left when one amount is taken off another makes up the difference.
pub proof fn law_what_is_left_makes_up_the_difference(a: u64, b: u64)
    ensures
        a >= b ==> less(a, b) + b == a,
        a <= b ==> less(a, b) == 0,
{
}

} // verus!
