//! The daemon that runs containers, and the network plugins: what they are found to be
//! able to do.

use crate::runtime::ContainerRuntime;
use crate::text;
use vstd::prelude::*;
use vstd::string::*;

verus! {

/// The daemon joins another container's UTS namespace, by what it calls itself: Podman
/// does, Docker does not, and one that is neither is taken to.
pub open spec fn joins_uts(identity: Seq<char>) -> bool {
    let low = text::lower(identity);
    text::has(low, "podman"@) || !text::has(low, "docker"@)
}

/// What the daemon says it is.
#[derive(Clone, Debug, Default)]
pub struct DaemonVersion {
    pub platform: Option<String>,
    pub components: Option<Vec<String>>,
}

/// The parts of what the daemon calls itself.
pub open spec fn identity_parts(v: DaemonVersion) -> Seq<Seq<char>> {
    (match v.platform {
        Some(p) => seq![p@],
        None => Seq::empty(),
    }) + (match v.components {
        Some(c) => text::texts(c@),
        None => Seq::empty(),
    })
}

/// The name of a pod's network namespace.
pub open spec fn netns_text(pod: Seq<char>) -> Seq<char> {
    "cni-"@ + pod
}

/// The path of a pod's network namespace.
pub open spec fn netns_path_text(pod: Seq<char>) -> Seq<char> {
    "/var/run/netns/"@ + netns_text(pod)
}

/// The name of a pod's network namespace.
pub fn netns_name(pod: &str) -> (r: String)
    ensures
        r@ == netns_text(pod@),
{
    text::cat2("cni-", pod)
}

/// The path of a pod's network namespace.
pub fn netns_path(pod: &str) -> (r: String)
    ensures
        r@ == netns_path_text(pod@),
{
    let n = netns_name(pod);
    text::cat2("/var/run/netns/", n.as_str())
}

/// How a command ended.
#[derive(Clone, Debug, Default)]
pub struct CommandOutput {
    pub success: bool,
    pub stderr: Vec<u8>,
}

/// The command left a network namespace behind: it made one, or there was one.
pub open spec fn has_netns(o: CommandOutput) -> bool {
    o.success || text::has(text::lossy(o.stderr@), "File exists"@)
}

/// Whether the command left a network namespace behind, by what it wrote.
pub fn left_netns(success: bool, stderr: &str) -> (r: bool)
    ensures
        r == (success || text::has(stderr@, "File exists"@)),
{
    success || text::contains(stderr, "File exists")
}

/// Whether the command left a network namespace behind.
pub fn netns_exists(o: &CommandOutput) -> (r: bool)
    ensures
        r == has_netns(*o),
{
    let words = text::lossy_text(&o.stderr);
    left_netns(o.success, words.as_str())
}

impl ContainerRuntime {
    /// Whether a daemon with the identity joins another container's UTS namespace.
    pub fn uts_container_mode_from_identity(identity: &str) -> (r: bool)
        ensures
            r == joins_uts(identity@),
    {
        let low = identity.to_lowercase();
        if text::contains(low.as_str(), "podman") {
            true
        } else {
            !text::contains(low.as_str(), "docker")
        }
    }

    /// Whether the daemon joins another container's UTS namespace. One that did not say
    /// what it is is taken not to.
    pub fn detect_uts_container_mode(version: &Option<DaemonVersion>) -> (r: bool)
        ensures
            r == (version matches Some(v) && joins_uts(text::join(identity_parts(*v), " "@))),
    {
        let v = match version {
            None => {
                return false;
            },
            Some(v) => v,
        };
        let mut parts: Vec<String> = Vec::new();
        assert(text::texts(parts@) =~= Seq::<Seq<char>>::empty());
        if let Some(p) = &v.platform {
            text::push_text(&mut parts, p.clone());
        }
        let ghost head = text::texts(parts@);
        if let Some(c) = &v.components {
            let mut i: usize = 0;
            assert(head + text::texts(c@.take(0)) =~= head);
            while i < c.len()
                invariant
                    i <= c@.len(),
                    text::texts(parts@) == head + text::texts(c@.take(i as int)),
                decreases c@.len() - i,
            {
                text::push_text(&mut parts, c[i].clone());
                assert(text::texts(parts@) =~= head + text::texts(c@.take(i as int + 1)));
                i += 1;
            }
            assert(c@.take(c@.len() as int) == c@);
        }
        assert(text::texts(parts@) =~= identity_parts(*v));
        let identity = text::join_with(&parts, " ");
        Self::uts_container_mode_from_identity(identity.as_str())
    }

    /// The path of the network namespace that a pod uses, by how its making and the
    /// plugins' work in it went; none where either failed, and the daemon's network is
    /// used. Without plugins their work counts as done.
    pub fn setup_pod_network(
        &self,
        pod_name: &str,
        made: &Option<CommandOutput>,
        plugins_ok: Option<bool>,
    ) -> (r: Option<String>)
        ensures
            text::opt_text(r) == (if (made matches Some(o) && has_netns(*o)) && plugins_ok != Some(
                false,
            ) {
                Some(netns_path_text(pod_name@))
            } else {
                None
            }),
    {
        let usable = match made {
            Some(o) => netns_exists(o),
            None => false,
        };
        let done = match plugins_ok {
            Some(ok) => ok,
            None => true,
        };
        if usable && done {
            Some(netns_path(pod_name))
        } else {
            None
        }
    }

    /// Whether network plugins can be used: they are there, and no namespace that is made
    /// for trial stays within reach of this process alone.
    pub fn initialize_cni(plugins_exist: bool, trial: &Option<CommandOutput>) -> (r: Result<
        (),
        String,
    >)
        ensures
            match r {
                Ok(_) => plugins_exist && !(trial matches Some(o) && has_netns(*o)),
                Err(e) => if !plugins_exist {
                    e@ == "CNI plugin directory not found"@
                } else {
                    (trial matches Some(o) && has_netns(*o)) && e@
                        == "Network namespace isolation prevents CNI usage"@
                },
            },
    {
        if !plugins_exist {
            return Err("CNI plugin directory not found".to_string());
        }
        if let Some(o) = trial {
            if netns_exists(o) {
                return Err("Network namespace isolation prevents CNI usage".to_string());
            }
        }
        Ok(())
    }
}

/// A daemon joins another's UTS namespace unless it calls itself Docker without calling
/// itself Podman.
pub proof fn law_only_docker_joins_no_uts(identity: Seq<char>)
    ensures
        !joins_uts(identity) <==> text::has(text::lower(identity), "docker"@) && !text::has(
            text::lower(identity),
            "podman"@,
        ),
{
}

/// What a daemon calls itself holds its platform and each of its components.
pub proof fn law_identities_hold_all_parts(v: DaemonVersion, i: int)
    ensures
        ({
            let t = text::join(identity_parts(v), " "@);
            &&& v.platform is Some ==> text::has(t, v.platform->0@)
            &&& v.components is Some && 0 <= i < v.components->0@.len() ==> text::has(
                t,
                v.components->0@[i]@,
            )
        }),
{
    let p = identity_parts(v);
    let k: int = if v.platform is Some {
        1
    } else {
        0
    };
    if v.platform is Some {
        assert(p[0] == v.platform->0@);
        lemma_joined_has(p, " "@, 0);
    }
    if v.components is Some && 0 <= i < v.components->0@.len() {
        assert(p[k + i] == v.components->0@[i]@);
        lemma_joined_has(p, " "@, k + i);
    }
}

proof fn lemma_joined_has(p: Seq<Seq<char>>, sep: Seq<char>, i: int)
    requires
        0 <= i < p.len(),
    ensures
        text::has(text::join(p, sep), p[i]),
    decreases p.len(),
{
    let t = text::join(p, sep);
    if p.len() == 1 {
        assert(t.subrange(0, t.len() as int) =~= p[0]);
        assert(text::occurs_at(t, p[0], 0));
    } else if i == p.len() - 1 {
        let k = t.len() - p[i].len();
        assert(t.subrange(k, t.len() as int) =~= p[i]);
        assert(text::occurs_at(t, p[i], k));
    } else {
        let d = p.drop_last();
        lemma_joined_has(d, sep, i);
        let u = text::join(d, sep);
        let k = choose|k: int| text::occurs_at(u, d[i], k);
        assert(t.subrange(k, k + p[i].len()) =~= u.subrange(k, k + p[i].len()));
        assert(text::occurs_at(t, p[i], k));
    }
}

/// Each pod's network namespace has a path of its own, below the directory of them all.
pub proof fn law_pods_have_namespaces_of_their_own(pod: Seq<char>, other: Seq<char>)
    ensures
        netns_path_text(pod) == "/var/run/netns/"@ + "cni-"@ + pod,
        netns_path_text(pod) == netns_path_text(other) ==> pod == other,
{
    let a = "/var/run/netns/"@ + "cni-"@;
    assert(netns_path_text(pod) =~= a + pod);
    assert(netns_path_text(other) =~= a + other);
    assert((a + pod).skip(a.len() as int) =~= pod);
    assert((a + other).skip(a.len() as int) =~= other);
}

/// A namespace is there where the command made it or says that it exists, and not where the
/// command failed for another reason.
pub proof fn law_namespaces_are_made_or_there(o: CommandOutput)
    ensures
        o.success ==> has_netns(o),
        !o.success ==> has_netns(o) == text::has(text::lossy(o.stderr@), "File exists"@),
{
}

} // verus!
