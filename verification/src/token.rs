//! Service account tokens: what they claim, when they are written afresh, and whether a
//! container reads them from where they are written.

use crate::api;
use crate::api::{Pod, Secret, ServiceAccountTokenProjection};
use crate::container::copy_text;
use crate::downward;
use crate::names;
use crate::runtime::ContainerRuntime;
use crate::text;
use crate::volumes;
use crate::volumes::{StepView, VolumePlan, VolumeStep, WriteHow};
use core::time::Duration;
use vstd::prelude::*;
use vstd::string::*;
use vstd::utf8::*;

verus! {

/// Where a container finds its service account token.
pub const SA_TOKEN_MOUNT_DESTINATION: &'static str =
    "/var/run/secrets/kubernetes.io/serviceaccount";

/// The nanoseconds after which a token with the given lifetime, in seconds, is written
/// afresh: eight tenths of it.
pub open spec fn rotation_age(expiration_seconds: i64) -> int {
    if expiration_seconds > 0 {
        expiration_seconds * 800_000_000
    } else {
        0
    }
}

/// A token of the given age, in nanoseconds, is old. One whose age is not known is.
pub open spec fn is_old(age: Option<u128>, expiration_seconds: i64) -> bool {
    match age {
        Some(a) => a >= rotation_age(expiration_seconds),
        None => true,
    }
}

/// A token is written afresh once at least eight tenths of its lifetime have passed.
pub proof fn law_tokens_rotate_at_eight_tenths(age: u128, expiration_seconds: i64)
    requires
        expiration_seconds >= 0,
    ensures
        is_old(Some(age), expiration_seconds) <==> 5 * age >= 4 * expiration_seconds
            * 1_000_000_000,
{
}

/// A token that is to be written afresh stays so as it grows older, and would be so with
/// any shorter lifetime; one without a lifetime, or of which nothing is known, always is.
pub proof fn law_rotation_is_monotone(a: u128, b: u128, e: i64, f: i64)
    requires
        a <= b,
        f <= e,
    ensures
        is_old(None, e),
        is_old(Some(a), e) ==> is_old(Some(b), e),
        is_old(Some(a), e) ==> is_old(Some(a), f),
        e <= 0 ==> is_old(Some(a), e),
{
}

/// The nanoseconds of a span of time.
pub uninterp spec fn nanoseconds(d: Duration) -> u128;

/// `Duration::as_nanos` gives the total number of nanoseconds of a span of time.
pub assume_specification[ Duration::as_nanos ](d: &Duration) -> (r: u128)
    ensures
        r == nanoseconds(*d),
;

/// Whether a token of the given age, in nanoseconds, is written afresh.
pub fn token_is_old(age: Option<u128>, expiration_seconds: i64) -> (r: bool)
    ensures
        r == is_old(age, expiration_seconds),
{
    let after: u128 = if expiration_seconds > 0 {
        expiration_seconds as u128 * 800_000_000
    } else {
        0
    };
    match age {
        Some(a) => a >= after,
        None => true,
    }
}

/// Whether a projected token, by the age of its file, is written afresh before it
/// expires.
pub fn token_needs_rotation(token_age: Option<Duration>, expiration_seconds: i64) -> (r: bool)
    ensures
        r == is_old(
            match token_age {
                Some(d) => Some(nanoseconds(d)),
                None => None,
            },
            expiration_seconds,
        ),
{
    match token_age {
        Some(d) => token_is_old(Some(d.as_nanos()), expiration_seconds),
        None => token_is_old(None, expiration_seconds),
    }
}

/// A mount's source lies outside the directory that volumes are written under, where
/// that directory is known: it is neither the directory nor a path below it.
pub open spec fn is_stranded(source: Seq<char>, base: Seq<char>) -> bool {
    let b = text::trimmed_end(base, '/');
    let s = text::trimmed_end(source, '/');
    b.len() > 0 && s != b && !text::begins(s, b + "/"@)
}

/// Whether a running container's token mount points somewhere that is not written.
pub fn token_mount_is_stranded(mount_source: &str, volumes_base_path: &str) -> (r: bool)
    ensures
        r == is_stranded(mount_source@, volumes_base_path@),
{
    let base = text::trim_end_char(volumes_base_path, '/');
    if base.is_empty() {
        assert(base@.len() == 0);
        return false;
    }
    let source = text::trim_end_char(mount_source, '/');
    let inside = text::cat2(base, "/");
    !text::same(source, base) && !text::starts_with(source, inside.as_str())
}

proof fn lemma_trimmed_end_keeps(s: Seq<char>, head: Seq<char>, c: char)
    requires
        text::begins(s, head),
        head.len() > 0,
        head.last() != c,
    ensures
        text::begins(text::trimmed_end(s, c), head),
    decreases s.len(),
{
    if s.len() > 0 && s.last() == c {
        if s.len() == head.len() {
            assert(s.take(head.len() as int) == s);
            assert(false);
        }
        assert(s.drop_last().take(head.len() as int) == s.take(head.len() as int));
        lemma_trimmed_end_keeps(s.drop_last(), head, c);
    }
}

/// What is mounted from below the directory that volumes are written under is never
/// stranded, whether or not that directory is written with a slash at its end.
pub proof fn law_mounts_below_the_base_are_not_stranded(base: Seq<char>, below: Seq<char>)
    ensures
        !is_stranded(text::trimmed_end(base, '/') + "/"@ + below, base),
        !is_stranded(base, base),
{
    let b = text::trimmed_end(base, '/');
    reveal_strlit("/");
    if b.len() > 0 {
        let s = b + "/"@ + below;
        lemma_trimmed_end_last(base, '/');
        assert(s.take(b.len() as int) == b);
        lemma_trimmed_end_keeps(s, b, '/');
        let t = text::trimmed_end(s, '/');
        lemma_trimmed_end_prefix(s, '/');
        assert(t == s.take(t.len() as int));
        if t.len() > b.len() {
            assert(t.take(b.len() as int + 1) == b + "/"@);
        } else {
            assert(t.take(b.len() as int) == b);
            assert(t == b);
        }
    }
}

proof fn lemma_trimmed_end_last(s: Seq<char>, c: char)
    ensures
        text::trimmed_end(s, c).len() > 0 ==> text::trimmed_end(s, c).last() != c,
    decreases s.len(),
{
    if s.len() > 0 && s.last() == c {
        lemma_trimmed_end_last(s.drop_last(), c);
    }
}

proof fn lemma_trimmed_end_prefix(s: Seq<char>, c: char)
    ensures
        text::trimmed_end(s, c).len() <= s.len(),
        text::trimmed_end(s, c) == s.take(text::trimmed_end(s, c).len() as int),
    decreases s.len(),
{
    if s.len() > 0 && s.last() == c {
        lemma_trimmed_end_prefix(s.drop_last(), c);
        let n = text::trimmed_end(s, c).len() as int;
        assert(s.drop_last().take(n) == s.take(n));
    } else {
        assert(s.take(s.len() as int) == s);
    }
}

/// One mount of a running container.
#[derive(Clone, Debug, Default)]
pub struct MountPoint {
    pub destination: Option<String>,
    pub source: Option<String>,
}

/// The first of the first `n` mounts that is the token's, by where it lies.
pub open spec fn token_source(mounts: Seq<MountPoint>) -> Option<Seq<char>>
    decreases mounts.len(),
{
    if mounts.len() == 0 {
        None
    } else {
        let m = mounts.first();
        match (m.destination, m.source) {
            (Some(d), Some(s)) if d@ == SA_TOKEN_MOUNT_DESTINATION@ => Some(s@),
            _ => token_source(mounts.drop_first()),
        }
    }
}

/// A name with the identity of the object that bears it.
#[derive(Clone, Debug, Default)]
pub struct KubeRef {
    pub name: String,
    pub uid: String,
}

impl KubeRef {
    /// It refers to the named object.
    pub open spec fn is(self, name: Seq<char>, uid: Seq<char>) -> bool {
        self.name@ == name && self.uid@ == uid
    }
}

/// The objects that a token is bound to.
#[derive(Clone, Debug, Default)]
pub struct KubernetesClaims {
    pub namespace: String,
    pub svcacct: KubeRef,
    pub pod: Option<KubeRef>,
    pub node: Option<KubeRef>,
}

/// What a service account token claims.
#[derive(Clone, Debug, Default)]
pub struct ServiceAccountClaims {
    pub sub: String,
    pub namespace: String,
    pub uid: String,
    pub iat: i64,
    pub exp: i64,
    pub iss: String,
    pub aud: Vec<String>,
    pub kubernetes: Option<KubernetesClaims>,
    pub pod_name: Option<String>,
    pub pod_uid: Option<String>,
    pub node_name: Option<String>,
    pub node_uid: Option<String>,
}

/// The name of a pod's service account.
pub open spec fn account_of(pod: Pod) -> Seq<char> {
    match pod.spec {
        Some(s) => downward::text_or(s.service_account_name, "default"@),
        None => "default"@,
    }
}

/// The node that a pod is bound to.
pub open spec fn node_of(pod: Pod) -> Option<Seq<char>> {
    match pod.spec {
        Some(s) => text::opt_text(s.node_name),
        None => None,
    }
}

/// The claims of a token for a pod: the account and the pod it speaks for, the node they
/// are on, for whom it is meant, and from when until when it holds.
pub open spec fn claims_are(
    c: ServiceAccountClaims,
    pod: Pod,
    account_uid: Seq<char>,
    node_uid: Option<Seq<char>>,
    audience: Option<Seq<char>>,
    now: i64,
    lifetime: i64,
) -> bool {
    let namespace = api::namespace_of(pod);
    let account = account_of(pod);
    let node = node_of(pod);
    &&& c.sub@ == "system:serviceaccount:"@ + namespace + ":"@ + account
    &&& c.namespace@ == namespace
    &&& c.uid@ == account_uid
    &&& c.iat == now
    &&& c.exp == now + lifetime
    &&& c.iss@ == "https://kubernetes.default.svc.cluster.local"@
    &&& text::texts(c.aud@) == seq![
        match audience {
            Some(a) => a,
            None => "rusternetes"@,
        },
    ]
    &&& text::opt_text(c.pod_name) == Some(pod.metadata.name@)
    &&& text::opt_text(c.pod_uid) == Some(pod.metadata.uid@)
    &&& text::opt_text(c.node_name) == node
    &&& text::opt_text(c.node_uid) == node_uid
    &&& c.kubernetes matches Some(k)
    &&& k.namespace@ == namespace
    &&& k.svcacct.is(account, account_uid)
    &&& k.pod matches Some(p)
    &&& p.is(pod.metadata.name@, pod.metadata.uid@)
    &&& match node {
        None => k.node is None,
        Some(n) => k.node is Some && k.node->0.is(
            n,
            match node_uid {
                Some(u) => u,
                None => Seq::empty(),
            },
        ),
    }
}

/// The name of a pod's service account.
pub fn service_account_name(pod: &Pod) -> (r: &str)
    ensures
        r@ == account_of(*pod),
{
    match &pod.spec {
        Some(s) => downward::str_or(&s.service_account_name, "default"),
        None => "default",
    }
}

/// The claims of a token for a pod.
pub fn service_account_claims(
    pod: &Pod,
    account_uid: &str,
    node_uid: &Option<String>,
    audience: &Option<String>,
    now: i64,
    lifetime: i64,
) -> (r: ServiceAccountClaims)
    requires
        i64::MIN <= now + lifetime <= i64::MAX,
    ensures
        claims_are(
            r,
            *pod,
            account_uid@,
            text::opt_text(*node_uid),
            text::opt_text(*audience),
            now,
            lifetime,
        ),
{
    let namespace = pod.namespace();
    let account = service_account_name(pod);
    let node_name: Option<String> = match &pod.spec {
        Some(s) => copy_text(&s.node_name),
        None => None,
    };
    let node = match &node_name {
        Some(n) => Some(
            KubeRef {
                name: n.clone(),
                uid: match node_uid {
                    Some(u) => u.clone(),
                    None => String::new(),
                },
            },
        ),
        None => None,
    };
    let mut aud: Vec<String> = Vec::new();
    match audience {
        Some(a) => {
            aud.push(a.clone());
        },
        None => {
            aud.push("rusternetes".to_string());
        },
    }
    assert(text::texts(aud@) =~= seq![
        match text::opt_text(*audience) {
            Some(a) => a,
            None => "rusternetes"@,
        },
    ]);
    let kubernetes = KubernetesClaims {
        namespace: String::from_str(namespace),
        svcacct: KubeRef {
            name: String::from_str(account),
            uid: String::from_str(account_uid),
        },
        pod: Some(KubeRef { name: pod.metadata.name.clone(), uid: pod.metadata.uid.clone() }),
        node,
    };
    ServiceAccountClaims {
        sub: text::cat4("system:serviceaccount:", namespace, ":", account),
        namespace: String::from_str(namespace),
        uid: String::from_str(account_uid),
        iat: now,
        exp: now + lifetime,
        iss: "https://kubernetes.default.svc.cluster.local".to_string(),
        aud,
        kubernetes: Some(kubernetes),
        pod_name: Some(pod.metadata.name.clone()),
        pod_uid: Some(pod.metadata.uid.clone()),
        node_name,
        node_uid: copy_text(node_uid),
    }
}

/// How long a projected token holds.
pub open spec fn lifetime_of(t: ServiceAccountTokenProjection) -> i64 {
    match t.expiration_seconds {
        Some(e) => e,
        None => 3600,
    }
}

/// How long a projected token holds, in seconds.
pub fn token_lifetime(t: &ServiceAccountTokenProjection) -> (r: i64)
    ensures
        r == lifetime_of(*t),
{
    match t.expiration_seconds {
        Some(e) => e,
        None => 3600,
    }
}

/// The token that was signed, or what stands for one that could not be.
pub fn token_or_placeholder(signed: Option<String>) -> (r: String)
    ensures
        r@ == (match signed {
            Some(t) => t@,
            None => "eyJhbGciOiJSUzI1NiIsInR5cCI6IkpXVCJ9.placeholder"@,
        }),
{
    match signed {
        Some(t) => t,
        None => "eyJhbGciOiJSUzI1NiIsInR5cCI6IkpXVCJ9.placeholder".to_string(),
    }
}

/// The token that was signed, or the one that the account's secret holds, or none.
pub fn token_or_static(signed: Option<String>, found: &Option<Secret>) -> (r: String)
    ensures
        r@ == (match signed {
            Some(t) => t@,
            None => match *found {
                Some(s) => match api::opt_lookup_bytes(s.data, "token"@) {
                    Some(b) => text::lossy(b),
                    None => Seq::empty(),
                },
                None => Seq::empty(),
            },
        }),
{
    match signed {
        Some(t) => t,
        None => {
            if let Some(s) = found {
                if let Some(b) = api::opt_get_bytes(&s.data, "token") {
                    return text::lossy_text(b);
                }
            }
            String::new()
        },
    }
}

/// Where the cluster's CA certificate is read from: where the environment says, else
/// beside the volumes where it is there, else in the home directory.
pub open spec fn ca_source(
    base: Seq<char>,
    configured: Option<Seq<char>>,
    beside_volumes: bool,
    home: Option<Seq<char>>,
) -> Seq<char> {
    match configured {
        Some(p) => p,
        None => if beside_volumes {
            base + "/_certs/ca.crt"@
        } else {
            (match home {
                Some(h) => h,
                None => "/root"@,
            }) + "/.rusternetes/certs/ca.crt"@
        },
    }
}

impl ContainerRuntime {
    /// Where the CA certificate may lie beside the volumes.
    pub fn volumes_ca_cert(&self) -> (r: String)
        ensures
            r@ == self.volumes_base_path@ + "/_certs/ca.crt"@,
    {
        text::cat2(self.volumes_base_path.as_str(), "/_certs/ca.crt")
    }

    /// Where the cluster's CA certificate is read from.
    pub fn ca_cert_source(
        &self,
        configured: &Option<String>,
        beside_volumes: bool,
        home: &Option<String>,
    ) -> (r: String)
        ensures
            r@ == ca_source(
                self.volumes_base_path@,
                text::opt_text(*configured),
                beside_volumes,
                text::opt_text(*home),
            ),
    {
        match configured {
            Some(p) => p.clone(),
            None => {
                if beside_volumes {
                    self.volumes_ca_cert()
                } else {
                    text::cat2(downward::str_or(home, "/root"), "/.rusternetes/certs/ca.crt")
                }
            },
        }
    }

    /// The claims of the token that a projected volume asks for.
    pub fn mint_serviceaccount_token(
        &self,
        pod: &Pod,
        sa_token: &ServiceAccountTokenProjection,
        account_uid: &str,
        node_uid: &Option<String>,
        now: i64,
    ) -> (r: ServiceAccountClaims)
        requires
            i64::MIN <= now + lifetime_of(*sa_token) <= i64::MAX,
        ensures
            claims_are(
                r,
                *pod,
                account_uid@,
                text::opt_text(*node_uid),
                text::opt_text(sa_token.audience),
                now,
                lifetime_of(*sa_token),
            ),
    {
        service_account_claims(
            pod,
            account_uid,
            node_uid,
            &sa_token.audience,
            now,
            token_lifetime(sa_token),
        )
    }

    /// The steps that make a volume with a service account's token, namespace and CA
    /// certificate.
    pub fn create_serviceaccount_token_volume(&self, pod: &Pod, storage: bool, token: &str) -> (r:
        VolumePlan)
        ensures
            r.view_of() == (if !storage {
                volumes::refused("Storage not available for ServiceAccount token volumes"@)
            } else {
                let dir = names::pod_path_text(
                    self.volumes_base_path@,
                    pod.metadata.name@,
                    "serviceaccount-token"@,
                );
                volumes::PlanView {
                    steps: seq![
                        StepView::MakeDir(dir),
                        volumes::write_step(
                            dir,
                            "token"@,
                            encode_utf8(token@),
                            Some(0o600u32),
                            false,
                            WriteHow::Always,
                        ),
                        volumes::write_step(
                            dir,
                            "namespace"@,
                            encode_utf8(api::namespace_of(*pod)),
                            None,
                            false,
                            WriteHow::Always,
                        ),
                        StepView::PutCaCert(volumes::in_dir(dir, "ca.crt"@)),
                    ],
                    outcome: Ok(dir),
                }
            }),
    {
        if !storage {
            return volumes::refuse(
                "Storage not available for ServiceAccount token volumes".to_string(),
            );
        }
        let dir = names::pod_path(
            self.volumes_base_path.as_str(),
            pod.metadata.name.as_str(),
            "serviceaccount-token",
        );
        let mut steps = volumes::no_steps();
        volumes::push_step(&mut steps, VolumeStep::MakeDir(dir.clone()));
        volumes::push_write(
            &mut steps,
            dir.as_str(),
            "token",
            token.as_bytes_vec(),
            Some(0o600),
            false,
            WriteHow::Always,
        );
        volumes::push_write(
            &mut steps,
            dir.as_str(),
            "namespace",
            pod.namespace().as_bytes_vec(),
            None,
            false,
            WriteHow::Always,
        );
        let ca = text::cat3(dir.as_str(), "/", "ca.crt");
        volumes::push_step(&mut steps, VolumeStep::PutCaCert(ca));
        let ghost d = dir@;
        assert(volumes::steps_view(steps@) =~= seq![
            StepView::MakeDir(d),
            volumes::write_step(
                d,
                "token"@,
                encode_utf8(token@),
                Some(0o600u32),
                false,
                WriteHow::Always,
            ),
            volumes::write_step(
                d,
                "namespace"@,
                encode_utf8(api::namespace_of(*pod)),
                None,
                false,
                WriteHow::Always,
            ),
            StepView::PutCaCert(volumes::in_dir(d, "ca.crt"@)),
        ]);
        VolumePlan { steps, outcome: Ok(dir) }
    }

    /// The container whose mounts tell where a pod reads its token from.
    pub fn token_container(&self, pod: &Pod) -> (r: Option<String>)
        ensures
            text::opt_text(r) == (match pod.spec {
                Some(s) if s.containers@.len() > 0 => Some(
                    names::container_name_text(pod.metadata.name@, s.containers@[0].name@),
                ),
                _ => None,
            }),
    {
        match &pod.spec {
            Some(s) => {
                if s.containers.len() == 0 {
                    None
                } else {
                    Some(
                        names::container_name(
                            pod.metadata.name.as_str(),
                            s.containers[0].name.as_str(),
                        ),
                    )
                }
            },
            None => None,
        }
    }

    /// Where a pod reads its token from, if nothing is written there.
    pub fn warn_if_pod_volumes_stranded(&self, mounts: &Vec<MountPoint>) -> (r: Option<String>)
        ensures
            text::opt_text(r) == (match token_source(mounts@) {
                Some(s) if is_stranded(s, self.volumes_base_path@) => Some(s),
                _ => None,
            }),
    {
        let mut i: usize = 0;
        assert(mounts@.skip(0) == mounts@);
        while i < mounts.len()
            invariant
                i <= mounts@.len(),
                token_source(mounts@) == token_source(mounts@.skip(i as int)),
            decreases mounts@.len() - i,
        {
            assert(mounts@.skip(i as int).drop_first() == mounts@.skip(i as int + 1));
            assert(mounts@.skip(i as int).first() == mounts@[i as int]);
            if let Some(d) = &mounts[i].destination {
                if let Some(s) = &mounts[i].source {
                    if text::same(d.as_str(), SA_TOKEN_MOUNT_DESTINATION) {
                        return if token_mount_is_stranded(
                            s.as_str(),
                            self.volumes_base_path.as_str(),
                        ) {
                            Some(s.clone())
                        } else {
                            None
                        };
                    }
                }
            }
            i += 1;
        }
        None
    }
}

/// A token speaks for the pod's service account in the pod's namespace, names the pod and the
/// node that it is bound to, is meant for the one audience that was asked for, and runs out
/// exactly its lifetime after it was made.
pub proof fn law_tokens_speak_for_their_pod(
    c: ServiceAccountClaims,
    pod: Pod,
    account_uid: Seq<char>,
    node_uid: Option<Seq<char>>,
    audience: Option<Seq<char>>,
    now: i64,
    lifetime: i64,
)
    requires
        claims_are(c, pod, account_uid, node_uid, audience, now, lifetime),
    ensures
        ({
            let ns = match pod.metadata.namespace {
                Some(n) => n@,
                None => "default"@,
            };
            let account = if pod.spec is Some && pod.spec->0.service_account_name is Some {
                pod.spec->0.service_account_name->0@
            } else {
                "default"@
            };
            &&& c.sub@ == "system:serviceaccount:"@ + ns + ":"@ + account
            &&& c.namespace@ == ns
            &&& c.uid@ == account_uid
            &&& c.iat == now
            &&& c.exp - c.iat == lifetime
            &&& c.iss@ == "https://kubernetes.default.svc.cluster.local"@
            &&& c.aud@.len() == 1
            &&& audience is Some ==> c.aud@[0]@ == audience->0
            &&& audience is None ==> c.aud@[0]@ == "rusternetes"@
            &&& c.pod_name is Some && c.pod_name->0@ == pod.metadata.name@
            &&& c.pod_uid is Some && c.pod_uid->0@ == pod.metadata.uid@
            &&& text::opt_text(c.node_uid) == node_uid
            &&& c.kubernetes is Some
            &&& c.kubernetes->0.namespace@ == ns
            &&& c.kubernetes->0.svcacct.name@ == account
            &&& c.kubernetes->0.svcacct.uid@ == account_uid
            &&& c.kubernetes->0.pod is Some
            &&& c.kubernetes->0.pod->0.name@ == pod.metadata.name@
            &&& c.kubernetes->0.pod->0.uid@ == pod.metadata.uid@
            &&& if pod.spec is Some && pod.spec->0.node_name is Some {
                &&& c.node_name is Some && c.node_name->0@ == pod.spec->0.node_name->0@
                &&& c.kubernetes->0.node is Some
                &&& c.kubernetes->0.node->0.name@ == pod.spec->0.node_name->0@
                &&& node_uid is Some ==> c.kubernetes->0.node->0.uid@ == node_uid->0
                &&& node_uid is None ==> c.kubernetes->0.node->0.uid@.len() == 0
            } else {
                c.node_name is None && c.kubernetes->0.node is None
            }
        }),
{
    let one = match audience {
        Some(a) => a,
        None => "rusternetes"@,
    };
    assert(text::texts(c.aud@).len() == c.aud@.len());
    assert(text::texts(c.aud@)[0] == one);
    assert(text::texts(c.aud@)[0] == c.aud@[0]@);
}

/// A projected token holds as long as it was asked to, an hour where nothing was asked.
pub proof fn law_tokens_hold_as_long_as_asked(t: ServiceAccountTokenProjection)
    ensures
        t.expiration_seconds is Some ==> lifetime_of(t) == t.expiration_seconds->0,
        t.expiration_seconds is None ==> lifetime_of(t) == 60 * 60,
{
}

/// Where a pod reads its token from is the source of the first mount at the token's place
/// that has one, whatever else is mounted; where there is no such mount it reads none.
pub proof fn law_the_token_is_read_from_its_mount(mounts: Seq<MountPoint>, i: int)
    ensures
        0 <= i < mounts.len() && holds_token(mounts[i]) && (forall|j: int|
            0 <= j < i ==> !holds_token(#[trigger] mounts[j])) ==> token_source(mounts) == Some(
            mounts[i].source->0@,
        ),
        (forall|j: int| 0 <= j < mounts.len() ==> !holds_token(#[trigger] mounts[j]))
            ==> token_source(mounts) is None,
    decreases mounts.len(),
{
    if mounts.len() > 0 {
        let d = mounts.drop_first();
        law_the_token_is_read_from_its_mount(d, i - 1);
        assert(mounts[0] == mounts.first());
        if 0 < i < mounts.len() && holds_token(mounts[i]) && (forall|j: int|
            0 <= j < i ==> !holds_token(#[trigger] mounts[j])) {
            assert(!holds_token(mounts[0]));
            assert(d[i - 1] == mounts[i]);
            assert forall|j: int| 0 <= j < i - 1 implies !holds_token(#[trigger] d[j]) by {
                assert(d[j] == mounts[j + 1]);
            }
        }
        if forall|j: int| 0 <= j < mounts.len() ==> !holds_token(#[trigger] mounts[j]) {
            assert(!holds_token(mounts[0]));
            assert forall|j: int| 0 <= j < d.len() implies !holds_token(#[trigger] d[j]) by {
                assert(d[j] == mounts[j + 1]);
            }
        }
    }
}

/// The mount is at the token's place and has a source.
pub open spec fn holds_token(m: MountPoint) -> bool {
    m.destination is Some && m.destination->0@ == "/var/run/secrets/kubernetes.io/serviceaccount"@
        && m.source is Some
}

/// What is mounted from anywhere but the directory that volumes are written under is
/// stranded; where that directory is not known nothing is.
pub proof fn law_mounts_elsewhere_are_stranded(source: Seq<char>, base: Seq<char>)
    requires
        source.len() > 0 ==> source.last() != '/',
        base.len() > 0 ==> base.last() != '/',
    ensures
        is_stranded(source, base) == (base.len() > 0 && source != base && !text::begins(
            source,
            base + "/"@,
        )),
        is_stranded(source.push('/'), base) == is_stranded(source, base),
        is_stranded(source, base.push('/')) == is_stranded(source, base),
{
    text::law_trailing_characters_are_taken_off(source, '/');
    text::law_trailing_characters_are_taken_off(base, '/');
}

/// The CA certificate is read from where the environment says before all else, and from
/// beside the volumes, where it is there, before the home directory.
pub proof fn law_the_certificate_is_looked_for_in_turn(
    base: Seq<char>,
    p: Seq<char>,
    beside: bool,
    home: Option<Seq<char>>,
)
    ensures
        ca_source(base, Some(p), beside, home) == p,
        ca_source(base, None, true, home) == base + "/_certs/ca.crt"@,
        home is Some ==> ca_source(base, None, false, home) == home->0
            + "/.rusternetes/certs/ca.crt"@,
        ca_source(base, None, false, None) == "/root"@ + "/.rusternetes/certs/ca.crt"@,
{
}

} // verus!
