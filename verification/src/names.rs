//! The names and paths that the node agent derives from pods, containers and volumes.

use crate::text;
use vstd::prelude::*;
use vstd::string::*;

verus! {

/// The marker in front of the name of a daemon-managed volume.
pub const DOCKER_VOLUME_SENTINEL: &'static str = "docker-vol::";

/// The daemon's name of a pod's container: `pod_container`.
pub open spec fn container_name_text(pod: Seq<char>, container: Seq<char>) -> Seq<char> {
    pod + "_"@ + container
}

/// What the names of all containers of a pod begin with.
pub open spec fn container_prefix_text(pod: Seq<char>) -> Seq<char> {
    pod + "_"@
}

/// The daemon's name of the container that holds a pod's network.
pub open spec fn pause_name_text(pod: Seq<char>) -> Seq<char> {
    pod + "_pause"@
}

/// The directory of all of a pod's files.
pub open spec fn pod_dir_text(base: Seq<char>, pod: Seq<char>) -> Seq<char> {
    base + "/"@ + pod
}

/// A file or directory within a pod's directory.
pub open spec fn pod_path_text(base: Seq<char>, pod: Seq<char>, name: Seq<char>) -> Seq<char> {
    base + "/"@ + pod + "/"@ + name
}

/// The file that takes a container's termination message.
pub open spec fn termination_file_text(
    base: Seq<char>,
    pod: Seq<char>,
    container: Seq<char>,
) -> Seq<char> {
    pod_path_text(base, pod, "termination"@) + "/"@ + container
}

/// The key of a probe's counters.
pub open spec fn probe_key_text(pod: Seq<char>, container: Seq<char>, probe: Seq<char>) -> Seq<
    char,
> {
    pod + "/"@ + container + "/"@ + probe
}

/// What the names of the daemon-managed volumes of a pod's empty directories begin with.
pub open spec fn emptydir_prefix_text(pod: Seq<char>) -> Seq<char> {
    "rusternetes-emptydir-"@ + pod + "-"@
}

/// The daemon's name of a pod's container: `pod_container`.
pub fn container_name(pod: &str, container: &str) -> (r: String)
    ensures
        r@ == container_name_text(pod@, container@),
{
    text::cat3(pod, "_", container)
}

/// What the names of all containers of a pod begin with.
pub fn container_prefix(pod: &str) -> (r: String)
    ensures
        r@ == container_prefix_text(pod@),
{
    text::cat2(pod, "_")
}

/// The daemon's name of the container that holds a pod's network.
pub fn pause_name(pod: &str) -> (r: String)
    ensures
        r@ == pause_name_text(pod@),
{
    text::cat2(pod, "_pause")
}

/// The directory of all of a pod's files.
pub fn pod_dir(base: &str, pod: &str) -> (r: String)
    ensures
        r@ == pod_dir_text(base@, pod@),
{
    text::cat3(base, "/", pod)
}

/// A file or directory within a pod's directory: a volume, `hosts`, `resolv.conf`.
pub fn pod_path(base: &str, pod: &str, name: &str) -> (r: String)
    ensures
        r@ == pod_path_text(base@, pod@, name@),
{
    text::cat5(base, "/", pod, "/", name)
}

/// The file that takes a container's termination message.
pub fn termination_file(base: &str, pod: &str, container: &str) -> (r: String)
    ensures
        r@ == termination_file_text(base@, pod@, container@),
{
    let dir = pod_path(base, pod, "termination");
    text::cat3(dir.as_str(), "/", container)
}

/// The key of a probe's counters.
pub fn probe_key(pod: &str, container: &str, probe: &str) -> (r: String)
    ensures
        r@ == probe_key_text(pod@, container@, probe@),
{
    text::cat5(pod, "/", container, "/", probe)
}

/// What the names of the daemon-managed volumes of a pod's empty directories begin with.
pub fn emptydir_prefix(pod: &str) -> (r: String)
    ensures
        r@ == emptydir_prefix_text(pod@),
{
    text::cat3("rusternetes-emptydir-", pod, "-")
}

/// The daemon-managed volume of one of a pod's empty directories.
pub fn emptydir_volume_name(pod: &str, volume: &str) -> (r: String)
    ensures
        r@ == emptydir_prefix_text(pod@) + volume@,
{
    let p = emptydir_prefix(pod);
    text::cat2(p.as_str(), volume)
}

/// The claim behind a pod's ephemeral volume: `pod-volume`.
pub fn ephemeral_claim_name(pod: &str, volume: &str) -> (r: String)
    ensures
        r@ == pod@ + "-"@ + volume@,
{
    text::cat3(pod, "-", volume)
}

/// Every container of a pod, the one that holds its network among them, is found by
/// the pod's prefix.
pub proof fn law_containers_share_the_pod_prefix(pod: Seq<char>, container: Seq<char>)
    ensures
        text::begins(container_name_text(pod, container), container_prefix_text(pod)),
        text::begins(pause_name_text(pod), container_prefix_text(pod)),
        pause_name_text(pod) == container_name_text(pod, "pause"@),
        text::ends(pause_name_text(pod), "_pause"@),
{
    reveal_strlit("_");
    reveal_strlit("pause");
    reveal_strlit("_pause");
    assert(container_name_text(pod, container).take((pod + "_"@).len() as int) == pod + "_"@);
    assert(pause_name_text(pod).take((pod + "_"@).len() as int) == pod + "_"@);
    assert("_pause"@ == "_"@ + "pause"@);
    assert(pause_name_text(pod) == container_name_text(pod, "pause"@));
    assert(pause_name_text(pod).skip(pod.len() as int) == "_pause"@);
}

/// Where neither name of a pod holds a slash, different probes have different keys.
pub proof fn law_probe_keys_are_distinct(
    pod: Seq<char>,
    container: Seq<char>,
    probe: Seq<char>,
    pod2: Seq<char>,
    container2: Seq<char>,
    probe2: Seq<char>,
)
    requires
        !pod.contains('/'),
        !pod2.contains('/'),
        !container.contains('/'),
        !container2.contains('/'),
        probe_key_text(pod, container, probe) == probe_key_text(pod2, container2, probe2),
    ensures
        pod == pod2,
        container == container2,
        probe == probe2,
{
    reveal_strlit("/");
    let k = probe_key_text(pod, container, probe);
    lemma_first_slash(pod, "/"@ + container + "/"@ + probe);
    lemma_first_slash(pod2, "/"@ + container2 + "/"@ + probe2);
    assert(k == pod + ("/"@ + container + "/"@ + probe));
    assert(k == pod2 + ("/"@ + container2 + "/"@ + probe2));
    assert(pod == k.take(pod.len() as int));
    assert(pod2 == k.take(pod.len() as int));
    let t = k.skip(pod.len() as int + 1);
    assert(t == container + ("/"@ + probe));
    assert(t == container2 + ("/"@ + probe2));
    lemma_first_slash(container, "/"@ + probe);
    lemma_first_slash(container2, "/"@ + probe2);
    assert(container == t.take(container.len() as int));
    assert(container2 == t.take(container.len() as int));
    assert(probe == t.skip(container.len() as int + 1));
    assert(probe2 == t.skip(container.len() as int + 1));
}

proof fn lemma_first_slash(a: Seq<char>, b: Seq<char>)
    requires
        !a.contains('/'),
        b.len() > 0,
        b[0] == '/',
    ensures
        text::cut(a + b, '/') == a.len(),
{
    assert forall|j: int| 0 <= j < a.len() implies (a + b)[j] != '/' by {
        assert(a.contains(a[j]));
    }
    text::lemma_cut_is(a + b, '/', a.len() as int);
}

/// A pod's files lie in the pod's own directory, each under its name, and those of two pods
/// whose names hold no slash lie apart.
pub proof fn law_pods_keep_their_files_apart(
    base: Seq<char>,
    pod: Seq<char>,
    name: Seq<char>,
    other: Seq<char>,
    other_name: Seq<char>,
)
    requires
        !pod.contains('/'),
        !other.contains('/'),
    ensures
        pod_path_text(base, pod, name) == pod_dir_text(base, pod) + "/"@ + name,
        pod_path_text(base, pod, name) == pod_path_text(base, other, other_name) ==> pod == other
            && name == other_name,
        termination_file_text(base, pod, name) == pod_dir_text(base, pod) + "/termination/"@ + name,
{
    reveal_strlit("/");
    reveal_strlit("termination");
    reveal_strlit("/termination/");
    let b = base + "/"@;
    let p = pod_path_text(base, pod, name);
    let q = pod_path_text(base, other, other_name);
    assert(p =~= b + (pod + seq!['/'] + name));
    assert(q =~= b + (other + seq!['/'] + other_name));
    if p == q {
        assert((b + (pod + seq!['/'] + name)).skip(b.len() as int) =~= pod + seq!['/'] + name);
        assert((b + (other + seq!['/'] + other_name)).skip(b.len() as int) =~= other + seq!['/']
            + other_name);
        let t = pod + seq!['/'] + name;
        let u = other + seq!['/'] + other_name;
        assert(t == u);
        assert(pod.len() == other.len()) by {
            if pod.len() < other.len() {
                assert(u[pod.len() as int] == other[pod.len() as int]);
                assert(t[pod.len() as int] == '/');
                assert(other.contains('/'));
            }
            if other.len() < pod.len() {
                assert(t[other.len() as int] == pod[other.len() as int]);
                assert(u[other.len() as int] == '/');
                assert(pod.contains('/'));
            }
        }
        assert(t.take(pod.len() as int) =~= pod);
        assert(u.take(pod.len() as int) =~= other);
        assert(t.skip(pod.len() as int + 1) =~= name);
        assert(u.skip(pod.len() as int + 1) =~= other_name);
    }
    assert(termination_file_text(base, pod, name) =~= pod_dir_text(base, pod) + "/termination/"@
        + name);
}

} // verus!
