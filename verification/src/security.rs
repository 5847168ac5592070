//! What a container may do: the daemon's security options, its user, its capabilities.

use crate::api::{Container, Pod, PodSecurityContext, SecurityContext};
use crate::number;
use crate::text;
use vstd::prelude::*;
use vstd::string::*;

verus! {

/// A container may not gain privileges: it says so.
pub open spec fn forbids_new_privileges(c: Option<SecurityContext>) -> bool {
    c matches Some(sc) && sc.allow_privilege_escalation == Some(false)
}

/// The kind of seccomp profile: the container's own, or else its pod's.
pub open spec fn seccomp_type(c: Option<SecurityContext>, p: Option<PodSecurityContext>) -> Option<
    Seq<char>,
> {
    match c {
        Some(sc) if sc.seccomp_profile is Some => Some(sc.seccomp_profile->0.type_@),
        _ => match p {
            Some(sc) if sc.seccomp_profile is Some => Some(sc.seccomp_profile->0.type_@),
            _ => None,
        },
    }
}

/// The daemon's security options.
pub open spec fn security_options(
    c: Option<SecurityContext>,
    p: Option<PodSecurityContext>,
) -> Seq<Seq<char>> {
    (if forbids_new_privileges(c) {
        seq!["no-new-privileges"@]
    } else {
        Seq::empty()
    }) + (if seccomp_type(c, p) == Some("Unconfined"@) {
        seq!["seccomp=unconfined"@]
    } else {
        Seq::empty()
    })
}

/// The value behind an optional reference.
pub open spec fn deref_opt<T>(o: Option<&T>) -> Option<T> {
    match o {
        Some(x) => Some(*x),
        None => None,
    }
}

/// The daemon's security options of a container, `None` where there are none.
pub fn security_opts_for(
    container_sc: Option<&SecurityContext>,
    pod_sc: Option<&PodSecurityContext>,
) -> (r: Option<Vec<String>>)
    ensures
        ({
            let opts = security_options(deref_opt(container_sc), deref_opt(pod_sc));
            match r {
                Some(v) => opts.len() > 0 && text::texts(v@) == opts,
                None => opts.len() == 0,
            }
        }),
{
    let own: Option<bool> = match container_sc {
        Some(sc) => sc.allow_privilege_escalation,
        None => None,
    };
    let forbid: bool = match own {
        Some(b) => !b,
        None => false,
    };
    let from_container: Option<&str> = match container_sc {
        Some(sc) => match &sc.seccomp_profile {
            Some(p) => Some(p.type_.as_str()),
            None => None,
        },
        None => None,
    };
    let profile: Option<&str> = match from_container {
        Some(t) => Some(t),
        None => match pod_sc {
            Some(sc) => match &sc.seccomp_profile {
                Some(p) => Some(p.type_.as_str()),
                None => None,
            },
            None => None,
        },
    };
    let unconfined: bool = match profile {
        Some(t) => text::same(t, "Unconfined"),
        None => false,
    };
    let ghost opts = security_options(deref_opt(container_sc), deref_opt(pod_sc));
    let mut v: Vec<String> = Vec::new();
    if forbid {
        v.push(String::from_str("no-new-privileges"));
    }
    if unconfined {
        v.push(String::from_str("seccomp=unconfined"));
    }
    assert(text::texts(v@) =~= opts);
    if v.len() == 0 {
        None
    } else {
        Some(v)
    }
}

/// The pod's own security context.
pub open spec fn pod_context(pod: Pod) -> Option<PodSecurityContext> {
    match pod.spec {
        Some(s) => s.security_context,
        None => None,
    }
}

/// The user id that a container runs under, where one is set.
pub open spec fn user_id(pod: Pod, c: Container) -> Option<i64> {
    match c.security_context {
        Some(sc) if sc.run_as_user is Some => sc.run_as_user,
        _ => match pod_context(pod) {
            Some(sc) => sc.run_as_user,
            None => None,
        },
    }
}

/// The group id that a container runs under, where one is set.
pub open spec fn group_id(pod: Pod, c: Container) -> Option<i64> {
    match c.security_context {
        Some(sc) if sc.run_as_group is Some => sc.run_as_group,
        _ => match pod_context(pod) {
            Some(sc) => sc.run_as_group,
            None => None,
        },
    }
}

/// User and group in the daemon's form: `uid`, `uid:gid`, or `0:gid` for a group alone.
pub open spec fn user_text(pod: Pod, c: Container) -> Option<Seq<char>> {
    match (user_id(pod, c), group_id(pod, c)) {
        (Some(u), Some(g)) => Some(number::decimal(u as int) + ":"@ + number::decimal(g as int)),
        (Some(u), None) => Some(number::decimal(u as int)),
        (None, Some(g)) => Some("0:"@ + number::decimal(g as int)),
        (None, None) => None,
    }
}

/// The pod's own security context.
pub fn context_of(pod: &Pod) -> (r: Option<&PodSecurityContext>)
    ensures
        deref_opt(r) == pod_context(*pod),
{
    match &pod.spec {
        Some(s) => match &s.security_context {
            Some(sc) => Some(sc),
            None => None,
        },
        None => None,
    }
}

/// User and group that a container runs under, in the daemon's form.
pub fn run_as_user(pod: &Pod, c: &Container) -> (r: Option<String>)
    ensures
        text::opt_text(r) == user_text(*pod, *c),
{
    let pod_sc = context_of(pod);
    let own: (Option<i64>, Option<i64>) = match &c.security_context {
        Some(sc) => (sc.run_as_user, sc.run_as_group),
        None => (None, None),
    };
    let pods: (Option<i64>, Option<i64>) = match pod_sc {
        Some(sc) => (sc.run_as_user, sc.run_as_group),
        None => (None, None),
    };
    let user: Option<i64> = match own.0 {
        Some(u) => Some(u),
        None => pods.0,
    };
    let group: Option<i64> = match own.1 {
        Some(g) => Some(g),
        None => pods.1,
    };
    match (user, group) {
        (Some(u), Some(g)) => {
            let a = number::show_i64(u);
            let b = number::show_i64(g);
            Some(text::cat3(a.as_str(), ":", b.as_str()))
        },
        (Some(u), None) => Some(number::show_i64(u)),
        (None, Some(g)) => {
            let b = number::show_i64(g);
            Some(text::cat2("0:", b.as_str()))
        },
        (None, None) => None,
    }
}

/// A container may gain no privileges if and only if it says so itself. It is free of the
/// kernel's call filter if and only if its own profile says so, or, where it has none, its
/// pod's; the daemon is told nothing else.
pub proof fn law_security_options_say_what_is_asked(
    c: Option<SecurityContext>,
    p: Option<PodSecurityContext>,
)
    ensures
        ({
            let opts = security_options(c, p);
            let own = c is Some && c->0.seccomp_profile is Some;
            let free = if own {
                c->0.seccomp_profile->0.type_@ == "Unconfined"@
            } else {
                p is Some && p->0.seccomp_profile is Some && p->0.seccomp_profile->0.type_@
                    == "Unconfined"@
            };
            &&& opts.contains("no-new-privileges"@) <==> c is Some
                && c->0.allow_privilege_escalation == Some(false)
            &&& opts.contains("seccomp=unconfined"@) <==> free
            &&& forall|i: int|
                0 <= i < opts.len() ==> (#[trigger] opts[i]) == "no-new-privileges"@ || opts[i]
                    == "seccomp=unconfined"@
        }),
{
    reveal_strlit("no-new-privileges");
    reveal_strlit("seccomp=unconfined");
    assert("no-new-privileges"@.len() != "seccomp=unconfined"@.len());
    let opts = security_options(c, p);
    let privs = forbids_new_privileges(c);
    let free = seccomp_type(c, p) == Some("Unconfined"@);
    if privs {
        assert(opts[0] == "no-new-privileges"@);
        if free {
            assert(opts[1] == "seccomp=unconfined"@);
        }
    } else if free {
        assert(opts[0] == "seccomp=unconfined"@);
    }
}

/// A container runs as the user and the group that it names, or else those that its pod names,
/// each for itself. A group without a user goes with the user 0.
pub proof fn law_containers_run_as_asked(pod: Pod, c: Container)
    ensures
        ({
            let own_user = c.security_context is Some && c.security_context->0.run_as_user is Some;
            let own_group = c.security_context is Some && c.security_context->0.run_as_group is Some;
            let sc = match pod.spec {
                Some(s) => s.security_context,
                None => None,
            };
            let user = if own_user {
                c.security_context->0.run_as_user
            } else if sc is Some {
                sc->0.run_as_user
            } else {
                None
            };
            let group = if own_group {
                c.security_context->0.run_as_group
            } else if sc is Some {
                sc->0.run_as_group
            } else {
                None
            };
            let t = user_text(pod, c);
            &&& user is None && group is None ==> t is None
            &&& user is Some ==> t is Some && text::begins(t->0, number::decimal(user->0 as int))
            &&& user is Some && group is None ==> t->0 == number::decimal(user->0 as int)
            &&& group is Some ==> t is Some && text::ends(
                t->0,
                ":"@ + number::decimal(group->0 as int),
            )
            &&& user is None && group is Some ==> t->0 == "0:"@ + number::decimal(group->0 as int)
            &&& user is Some && group is Some ==> t->0 == number::decimal(user->0 as int) + ":"@
                + number::decimal(group->0 as int)
        }),
{
    let t = user_text(pod, c);
    if let Some(u) = user_id(pod, c) {
        let d = number::decimal(u as int);
        assert(t->0.take(d.len() as int) =~= d);
    }
    if let Some(g) = group_id(pod, c) {
        let tail = ":"@ + number::decimal(g as int);
        reveal_strlit(":");
        reveal_strlit("0:");
        assert("0:"@ =~= seq!['0'] + ":"@);
        assert(t->0.skip(t->0.len() - tail.len()) =~= tail);
    }
}

} // verus!
