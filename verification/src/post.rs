//! Post notifications and their resolution to relay identities.

use vstd::prelude::*;

use crate::actor::{Actor, ActorKind, ActorView, KindView};

verus! {

/// One hashtag attached to a post.
pub struct Tag {
    pub name: String,
}

/// One incoming post notification.  A missing `url` marks a reshare, which
/// is never relayed; `uri` is the canonical activity identifier; `tags`
/// holds the hashtag names in their original order.
pub struct Post {
    pub url: Option<String>,
    pub uri: String,
    pub tags: Option<Vec<Tag>>,
}

/// Spec-level value of a `Post`.  An absent tag list and an empty one are
/// the same notification.
pub struct PostView {
    pub url: Option<Seq<char>>,
    pub uri: Seq<char>,
    pub tags: Seq<Seq<char>>,
}

impl View for Post {
    type V = PostView;

    open spec fn view(&self) -> PostView {
        PostView {
            url: match self.url {
                Some(u) => Some(u@),
                None => None,
            },
            uri: self.uri@,
            tags: match self.tags {
                Some(ts) => ts@.map_values(|t: Tag| t.name@),
                None => Seq::empty(),
            },
        }
    }
}

/// The registrable domain of a URL, if the URL parses and its host is a
/// domain name.
pub uninterp spec fn domain_of(url: Seq<char>) -> Option<Seq<char>>;

/// What lowercasing a string returns.
pub uninterp spec fn lower_of(s: Seq<char>) -> Seq<char>;

/// The host a post resolves to: the lowercased registrable domain of its
/// `url`.
pub open spec fn host_of(url: Seq<char>) -> Option<Seq<char>> {
    match domain_of(url) {
        Some(d) => Some(lower_of(d)),
        None => None,
    }
}

/// Relies on `reqwest::Url::parse` and `url::Url::domain`: parses the URL
/// and hands back its host, when that host is a domain name rather than an
/// IP address; a malformed URL yields nothing.
#[verifier::external_body]
fn url_domain(url: &str) -> (r: Option<String>)
    ensures
        match r {
            Some(d) => domain_of(url@) == Some(d@),
            None => domain_of(url@) is None,
        },
{
    reqwest::Url::parse(url).ok().and_then(|u| u.domain().map(|d| d.to_string()))
}

/// Relies on `str::to_lowercase`: the result depends on the characters
/// alone.
#[verifier::external_body]
fn lowercase(s: &str) -> (r: String)
    ensures
        r@ == lower_of(s@),
{
    s.to_lowercase()
}

/// The relay identity kinds one post resolves to: the instance relay for
/// its host first (when the host can be extracted), then one hashtag relay
/// per tag, in tag order, without deduplication.  A post without a `url`
/// is a reshare and resolves to nothing.
pub open spec fn target_kinds_of(p: PostView) -> Seq<KindView> {
    match p.url {
        None => Seq::<KindView>::empty(),
        Some(u) => {
            let instance = match host_of(u) {
                Some(h) => seq![KindView::Instance(h)],
                None => Seq::<KindView>::empty(),
            };
            instance + p.tags.map_values(|t: Seq<char>| KindView::Hashtag(t))
        },
    }
}

/// A notification without a `url` is a reshare: it resolves to no relay
/// identity at all, so no delivery is ever attempted for it.
pub proof fn lemma_reshare_resolves_to_nothing(p: PostView)
    requires
        p.url is None,
    ensures
        target_kinds_of(p) == Seq::<KindView>::empty(),
{
}

impl Post {
    /// The lowercased registrable domain of the post's `url`, if any.
    pub fn host(&self) -> (r: Option<String>)
        ensures
            match self@.url {
                None => r is None,
                Some(u) => match r {
                    Some(h) => host_of(u) == Some(h@),
                    None => host_of(u) is None,
                },
            },
    {
        match &self.url {
            None => None,
            Some(u) => match url_domain(u.as_str()) {
                None => None,
                Some(d) => Some(lowercase(d.as_str())),
            },
        }
    }

    /// The tag names of the post, in their original order.
    pub fn tags(&self) -> (r: Vec<String>)
        ensures
            r@.map_values(|s: String| s@) == self@.tags,
    {
        match &self.tags {
            None => {
                let r: Vec<String> = Vec::new();
                proof {
                    assert(r@.map_values(|s: String| s@) =~= self@.tags);
                }
                r
            },
            Some(tags) => {
                let mut r: Vec<String> = Vec::new();
                let n = tags.len();
                for i in 0..n
                    invariant
                        n == tags@.len(),
                        r@.len() == i,
                        forall|j: int| 0 <= j < i ==> r@[j]@ == tags@[j].name@,
                {
                    r.push(tags[i].name.clone());
                }
                proof {
                    assert(r@.map_values(|s: String| s@) =~= self@.tags);
                }
                r
            },
        }
    }

    /// The relay identity kinds this post resolves to.
    pub fn relay_target_kinds(&self) -> (r: Vec<ActorKind>)
        ensures
            r@.map_values(|k: ActorKind| k@) == target_kinds_of(self@),
    {
        let mut r: Vec<ActorKind> = Vec::new();
        if self.url.is_none() {
            proof {
                assert(r@.map_values(|k: ActorKind| k@) =~= target_kinds_of(self@));
            }
            return r;
        }
        let ghost target: Seq<KindView> = target_kinds_of(self@);
        match self.host() {
            Some(h) => r.push(ActorKind::InstanceRelay(h)),
            None => (),
        }
        let ghost ilen: int = r@.len() as int;
        proof {
            assert(forall|j: int| 0 <= j < ilen ==> r@[j]@ == target[j]);
        }
        let tags = self.tags();
        let n = tags.len();
        proof {
            assert(target.len() == ilen + n);
        }
        for i in 0..n
            invariant
                n == tags@.len(),
                tags@.map_values(|s: String| s@) == self@.tags,
                target == target_kinds_of(self@),
                target.len() == ilen + n,
                r@.len() == ilen + i,
                forall|j: int| 0 <= j < ilen + i ==> r@[j]@ == target[j],
        {
            proof {
                assert(tags@.map_values(|s: String| s@)[i as int] == tags@[i as int]@);
                assert(target[ilen + i] == KindView::Hashtag(tags@[i as int]@));
            }
            r.push(ActorKind::from_tag(tags[i].as_str()));
        }
        proof {
            assert(r@.map_values(|k: ActorKind| k@) =~= target_kinds_of(self@));
        }
        r
    }

    /// The relay identities this post resolves to, under the given relay
    /// hostname.
    pub fn relay_targets(&self, hostname: &str) -> (r: Vec<Actor>)
        ensures
            r@.map_values(|a: Actor| a@) == target_kinds_of(self@).map_values(
                (|k: KindView| ActorView { host: hostname@, kind: k }),
            ),
    {
        let kinds = self.relay_target_kinds();
        let mut r: Vec<Actor> = Vec::new();
        let n = kinds.len();
        for i in 0..n
            invariant
                n == kinds@.len(),
                kinds@.map_values(|k: ActorKind| k@) == target_kinds_of(self@),
                r@.len() == i,
                forall|j: int| 0 <= j < i ==> r@[j]@ == (ActorView {
                    host: hostname@,
                    kind: kinds@[j]@,
                }),
        {
            let kind = kinds[i].duplicate();
            r.push(Actor { host: hostname.to_owned(), kind });
        }
        proof {
            assert(forall|j: int|
                0 <= j < target_kinds_of(self@).len() ==> target_kinds_of(self@)[j] == kinds@[j]@);
            assert(r@.map_values(|a: Actor| a@) =~= target_kinds_of(self@).map_values(
                (|k: KindView| ActorView { host: hostname@, kind: k }),
            ));
        }
        r
    }
}

} // verus!
