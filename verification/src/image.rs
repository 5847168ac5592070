//! Images: their full names, and when they are pulled.

use crate::runtime::ContainerRuntime;
use crate::text;
use vstd::prelude::*;
use vstd::string::*;

verus! {

/// An image's name with the registry that it comes from: Docker's, unless its first part
/// names one.
pub open spec fn normalized(image: Seq<char>) -> Seq<char> {
    let first = image.take(text::cut(image, '/'));
    if !image.contains('/') {
        "docker.io/library/"@ + image
    } else if first.contains('.') || first.contains(':') {
        image
    } else {
        "docker.io/"@ + image
    }
}

/// To complete a complete name changes nothing.
pub proof fn law_full_names_stay(image: Seq<char>)
    ensures
        normalized(normalized(image)) == normalized(image),
{
    let n = normalized(image);
    reveal_strlit("docker.io/library/");
    reveal_strlit("docker.io/");
    let first = image.take(text::cut(image, '/'));
    if image.contains('/') && (first.contains('.') || first.contains(':')) {
    } else {
        assert(n[6] == '.' && n[9] == '/');
        assert(forall|j: int| 0 <= j < 9 ==> n[j] != '/');
        text::lemma_cut_bounds(n, '/');
        text::lemma_cut_is(n, '/', 9);
        assert(n.contains('/'));
        let f = n.take(9);
        assert(f[6] == '.');
        assert(f.contains('.'));
    }
}

/// What is asked next to have an image on the node.
#[derive(Clone, Copy, Debug, PartialEq, Eq, Structural)]
pub enum ImageAsk {
    /// Whether the daemon has it, by its name as given or its full name.
    Exists,
    /// To pull it by its full name.
    PullFull,
    /// To pull it by its name as given.
    PullAsGiven,
    /// Nothing any more.
    Done,
    /// Nothing any more: it could not be pulled.
    Failed,
}

/// The policy by which an image is pulled, `IfNotPresent` where none is given.
pub open spec fn policy_text(p: Option<&str>) -> Seq<char> {
    match p {
        Some(x) => x@,
        None => "IfNotPresent"@,
    }
}

/// The image is pulled, by the policy.
pub open spec fn pulls(policy: Seq<char>, exists_here: bool) -> bool {
    if policy == "Always"@ {
        true
    } else if policy == "Never"@ {
        false
    } else {
        !exists_here
    }
}

/// The image is known to be on the node, by its name as given or its full name.
pub open spec fn is_cached(cache: Seq<Seq<char>>, image: Seq<char>) -> bool {
    cache.contains(image) || cache.contains(normalized(image))
}

/// The images known to be on the node, with this one, by both of its names.
pub open spec fn with_image(cache: Seq<Seq<char>>, image: Seq<char>) -> Seq<Seq<char>> {
    text::with_text(text::with_text(cache, image), normalized(image))
}

/// What is asked first.
pub open spec fn first_ask(cache: Seq<Seq<char>>, image: Seq<char>, policy: Seq<char>) -> ImageAsk {
    if is_cached(cache, image) && policy != "Always"@ {
        ImageAsk::Done
    } else {
        ImageAsk::Exists
    }
}

/// What is asked next, given the answer to what was asked, and the images that are known
/// to be on the node by then.
pub open spec fn next_ask(
    cache: Seq<Seq<char>>,
    image: Seq<char>,
    policy: Seq<char>,
    ask: ImageAsk,
    yes: bool,
) -> (ImageAsk, Seq<Seq<char>>) {
    match ask {
        ImageAsk::Exists => (
            if pulls(policy, yes) {
                ImageAsk::PullFull
            } else {
                ImageAsk::Done
            },
            if yes {
                with_image(cache, image)
            } else {
                cache
            },
        ),
        ImageAsk::PullFull => if yes {
            (ImageAsk::Done, with_image(cache, image))
        } else if normalized(image) != image {
            (ImageAsk::PullAsGiven, cache)
        } else {
            (ImageAsk::Failed, cache)
        },
        ImageAsk::PullAsGiven => if yes {
            (ImageAsk::Done, with_image(cache, image))
        } else {
            (ImageAsk::Failed, cache)
        },
        ImageAsk::Done => (ImageAsk::Done, cache),
        ImageAsk::Failed => (ImageAsk::Failed, cache),
    }
}

/// How many questions may still follow about an image.
pub open spec fn questions_left(ask: ImageAsk) -> nat {
    match ask {
        ImageAsk::Exists => 3,
        ImageAsk::PullFull => 2,
        ImageAsk::PullAsGiven => 1,
        ImageAsk::Done | ImageAsk::Failed => 0,
    }
}

/// Having an image on the node comes to an end, whatever the answers are, and knows no
/// fewer images than before.
pub proof fn law_images_are_settled(
    cache: Seq<Seq<char>>,
    image: Seq<char>,
    policy: Seq<char>,
    ask: ImageAsk,
    yes: bool,
)
    ensures
        questions_left(ask) > 0 ==> questions_left(next_ask(cache, image, policy, ask, yes).0)
            < questions_left(ask),
        questions_left(ask) == 0 ==> next_ask(cache, image, policy, ask, yes) == (ask, cache),
        forall|x: Seq<char>| #[trigger]
            cache.contains(x) ==> next_ask(cache, image, policy, ask, yes).1.contains(x),
{
    assert forall|x: Seq<char>| #[trigger] cache.contains(x) implies next_ask(
        cache,
        image,
        policy,
        ask,
        yes,
    ).1.contains(x) by {
        let a = text::with_text(cache, image);
        lemma_with_text_keeps(cache, image, x);
        lemma_with_text_keeps(a, normalized(image), x);
    }
}

proof fn lemma_with_text_keeps(list: Seq<Seq<char>>, added: Seq<char>, x: Seq<char>)
    requires
        list.contains(x),
    ensures
        text::with_text(list, added).contains(x),
{
    let k = choose|k: int| 0 <= k < list.len() && list[k] == x;
    assert(list.push(added)[k] == x);
}

/// An image that must never be pulled never is, and one that must always be pulled is
/// pulled whatever is known of it.
pub proof fn law_policies_are_kept(cache: Seq<Seq<char>>, image: Seq<char>, yes: bool)
    ensures
        next_ask(cache, image, "Never"@, ImageAsk::Exists, yes).0 == ImageAsk::Done,
        first_ask(cache, image, "Always"@) == ImageAsk::Exists,
        next_ask(cache, image, "Always"@, ImageAsk::Exists, yes).0 == ImageAsk::PullFull,
        next_ask(cache, image, "IfNotPresent"@, ImageAsk::Exists, yes).0 == (if yes {
            ImageAsk::Done
        } else {
            ImageAsk::PullFull
        }),
{
    reveal_strlit("Never");
    reveal_strlit("Always");
    reveal_strlit("IfNotPresent");
    assert("Never"@.len() == 5 && "Always"@.len() == 6 && "IfNotPresent"@.len() == 12);
}

/// Once an image has been found or pulled, its policy does not ask for it again, unless
/// it is always to be pulled.
pub proof fn law_known_images_are_not_asked_for_again(
    cache: Seq<Seq<char>>,
    image: Seq<char>,
    policy: Seq<char>,
)
    requires
        policy != "Always"@,
    ensures
        first_ask(with_image(cache, image), image, policy) == ImageAsk::Done,
{
    let a = text::with_text(cache, image);
    let b = text::with_text(a, normalized(image));
    if !a.contains(normalized(image)) {
        assert(b[b.len() - 1] == normalized(image));
    }
    assert(b.contains(normalized(image)));
}

impl ContainerRuntime {
    /// An image's name with the registry that it comes from.
    pub fn normalize_image_name(&self, image: &str) -> (r: String)
        ensures
            r@ == normalized(image@),
    {
        if text::contains_char(image, '/') {
            let first = text::before_first(image, '/');
            if text::contains_char(first, '.') || text::contains_char(first, ':') {
                String::from_str(image)
            } else {
                text::cat2("docker.io/", image)
            }
        } else {
            text::cat2("docker.io/library/", image)
        }
    }

    /// Whether a pull went well, by the errors that were reported: the last one counts.
    pub fn pull_image_with_retry(&self, errors: &Vec<String>) -> (r: Result<(), String>)
        ensures
            match r {
                Ok(_) => errors@.len() == 0,
                Err(e) => errors@.len() > 0 && e@ == "Image pull failed: "@ + errors@.last()@,
            },
    {
        if errors.len() == 0 {
            Ok(())
        } else {
            Err(text::cat2("Image pull failed: ", errors[errors.len() - 1].as_str()))
        }
    }

    /// Whether an image is pulled.
    pub fn should_pull(&self, policy: Option<&str>, exists_here: bool) -> (r: bool)
        ensures
            r == pulls(policy_text(policy), exists_here),
    {
        let p: &str = match policy {
            Some(x) => x,
            None => "IfNotPresent",
        };
        if text::same(p, "Always") {
            true
        } else if text::same(p, "Never") {
            false
        } else {
            !exists_here
        }
    }

    /// What is asked first to have an image on the node.
    pub fn first_image_ask(&self, image: &str, policy: Option<&str>) -> (r: ImageAsk)
        ensures
            r == first_ask(text::texts(self.image_cache@), image@, policy_text(policy)),
    {
        let p: &str = match policy {
            Some(x) => x,
            None => "IfNotPresent",
        };
        let full = self.normalize_image_name(image);
        let cached = text::list_has(&self.image_cache, image) || text::list_has(
            &self.image_cache,
            full.as_str(),
        );
        if cached && !text::same(p, "Always") {
            ImageAsk::Done
        } else {
            ImageAsk::Exists
        }
    }

    /// Takes in the answer to what was asked, and says what is asked next. An image that
    /// is found or pulled is known from then on.
    pub fn ensure_image(
        &mut self,
        image: &str,
        policy: Option<&str>,
        ask: ImageAsk,
        yes: bool,
    ) -> (r: ImageAsk)
        ensures
            (r, text::texts(final(self).image_cache@)) == next_ask(
                text::texts(old(self).image_cache@),
                image@,
                policy_text(policy),
                ask,
                yes,
            ),
            final(self).probe_states == old(self).probe_states,
            final(self).volumes_base_path == old(self).volumes_base_path,
            final(self).cluster_dns == old(self).cluster_dns,
            final(self).cluster_domain == old(self).cluster_domain,
            final(self).network == old(self).network,
            final(self).use_cni == old(self).use_cni,
            final(self).supports_uts_container_mode == old(self).supports_uts_container_mode,
            final(self).kubernetes_service_host == old(self).kubernetes_service_host,
    {
        let full = self.normalize_image_name(image);
        let settled = match ask {
            ImageAsk::Done | ImageAsk::Failed => true,
            _ => false,
        };
        if settled {
            return ask;
        }
        if yes {
            text::add_text(&mut self.image_cache, image);
            text::add_text(&mut self.image_cache, full.as_str());
        }
        match ask {
            ImageAsk::Exists => {
                if self.should_pull(policy, yes) {
                    ImageAsk::PullFull
                } else {
                    ImageAsk::Done
                }
            },
            ImageAsk::PullFull => {
                if yes {
                    ImageAsk::Done
                } else if !text::same(full.as_str(), image) {
                    ImageAsk::PullAsGiven
                } else {
                    ImageAsk::Failed
                }
            },
            _ => {
                if yes {
                    ImageAsk::Done
                } else {
                    ImageAsk::Failed
                }
            },
        }
    }
}

/// A name without a slash is one of Docker's own library; one whose first part has a dot or a
/// colon names its registry and stays; any other is Docker's.
pub proof fn law_images_come_from_docker_unless_named(a: Seq<char>, b: Seq<char>)
    requires
        !a.contains('/'),
    ensures
        normalized(a) == "docker.io/library/"@ + a,
        a.contains('.') || a.contains(':') ==> normalized(a + seq!['/'] + b) == a + seq!['/'] + b,
        !a.contains('.') && !a.contains(':') ==> normalized(a + seq!['/'] + b) == "docker.io/"@ + (a
            + seq!['/'] + b),
{
    let s = a + seq!['/'] + b;
    let k = a.len() as int;
    assert(s[k] == '/');
    assert(s.contains('/'));
    assert forall|i: int| 0 <= i < k implies (#[trigger] s[i]) != '/' by {
        assert(s[i] == a[i]);
        if a[i] == '/' {
            assert(a.contains('/'));
        }
    }
    text::lemma_cut_is(s, '/', k);
    assert(s.take(k) =~= a);
}

/// An image is had on the node only once it is known, found where that is enough, or pulled; it
/// cannot be had only where pulling it failed under both of its names; and what was neither
/// found nor pulled is not taken to be there.
pub proof fn law_images_are_had_for_a_reason(
    cache: Seq<Seq<char>>,
    image: Seq<char>,
    policy: Seq<char>,
    ask: ImageAsk,
    yes: bool,
)
    ensures
        first_ask(cache, image, policy) == ImageAsk::Done <==> policy != "Always"@ && (cache.contains(
            image,
        ) || cache.contains(normalized(image))),
        first_ask(cache, image, policy) != ImageAsk::Done ==> first_ask(cache, image, policy)
            == ImageAsk::Exists,
        ({
            let (next, known) = next_ask(cache, image, policy, ask, yes);
            &&& !yes ==> known == cache
            &&& yes && ask != ImageAsk::Done && ask != ImageAsk::Failed ==> known.contains(image)
                && known.contains(normalized(image))
            &&& ask == ImageAsk::PullFull && yes ==> next == ImageAsk::Done
            &&& ask == ImageAsk::PullFull && !yes && normalized(image) != image ==> next
                == ImageAsk::PullAsGiven
            &&& ask == ImageAsk::PullFull && !yes && normalized(image) == image ==> next
                == ImageAsk::Failed
            &&& ask == ImageAsk::PullAsGiven ==> next == (if yes {
                ImageAsk::Done
            } else {
                ImageAsk::Failed
            })
            &&& ask == ImageAsk::Exists && next == ImageAsk::Done ==> yes || policy == "Never"@
            &&& ask == ImageAsk::Exists && policy != "Always"@ && yes ==> next == ImageAsk::Done
        }),
{
    lemma_with_image(cache, image);
}

proof fn lemma_with_image(cache: Seq<Seq<char>>, image: Seq<char>)
    ensures
        with_image(cache, image).contains(image),
        with_image(cache, image).contains(normalized(image)),
{
    let a = text::with_text(cache, image);
    assert(a.contains(image)) by {
        if !cache.contains(image) {
            assert(a[cache.len() as int] == image);
        }
    }
    let b = text::with_text(a, normalized(image));
    if !a.contains(normalized(image)) {
        assert(b[a.len() as int] == normalized(image));
        let k = choose|k: int| 0 <= k < a.len() && a[k] == image;
        assert(b[k] == image);
    }
}

/// The policy decides over pulling: `Always` pulls an image that is there too, `Never` pulls
/// none, and any other pulls exactly what is not there. No policy is `IfNotPresent`.
pub proof fn law_policies_decide_over_pulling(
    cache: Seq<Seq<char>>,
    image: Seq<char>,
    policy: Seq<char>,
    here: bool,
)
    ensures
        policy == "Always"@ ==> pulls(policy, here) && next_ask(
            cache,
            image,
            policy,
            ImageAsk::Exists,
            here,
        ).0 == ImageAsk::PullFull,
        policy == "Never"@ ==> !pulls(policy, here) && next_ask(
            cache,
            image,
            policy,
            ImageAsk::Exists,
            here,
        ).0 == ImageAsk::Done,
        policy != "Always"@ && policy != "Never"@ ==> pulls(policy, here) == !here && next_ask(
            cache,
            image,
            policy,
            ImageAsk::Exists,
            here,
        ).0 == (if here {
            ImageAsk::Done
        } else {
            ImageAsk::PullFull
        }),
        policy_text(None) == "IfNotPresent"@,
{
    reveal_strlit("Always");
    reveal_strlit("Never");
    assert("Always"@.len() == 6 && "Never"@.len() == 5);
}

} // verus!
