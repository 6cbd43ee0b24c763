//! Relay identities: the virtual recipients a post is announced to.
//!
//! An identity stands either for "everyone relaying for instance X" or for
//! "everyone relaying for hashtag Y".  Each identity derives a stable URI
//! under the relay's own hostname and a signing-key identifier from that
//! URI.

use vstd::prelude::*;

verus! {

/// Spec-level value of an `ActorKind`.
pub enum KindView {
    Instance(Seq<char>),
    Hashtag(Seq<char>),
}

/// A relay identity: everyone relaying for an instance, or for a hashtag.
pub enum ActorKind {
    InstanceRelay(String),
    HashtagRelay(String),
}

impl View for ActorKind {
    type V = KindView;

    open spec fn view(&self) -> KindView {
        match self {
            ActorKind::InstanceRelay(h) => KindView::Instance(h@),
            ActorKind::HashtagRelay(t) => KindView::Hashtag(t@),
        }
    }
}

impl ActorKind {
    /// The identity that relays for a hashtag of this name.
    pub fn from_tag(tag: &str) -> (r: ActorKind)
        ensures
            r@ == KindView::Hashtag(tag@),
    {
        ActorKind::HashtagRelay(tag.to_owned())
    }

    /// A copy of this kind with the same value.
    pub fn duplicate(&self) -> (r: ActorKind)
        ensures
            r@ == self@,
    {
        match self {
            ActorKind::InstanceRelay(h) => ActorKind::InstanceRelay(h.clone()),
            ActorKind::HashtagRelay(t) => ActorKind::HashtagRelay(t.clone()),
        }
    }

    /// Two kinds are the same target iff both the variant and the value
    /// match.
    pub fn same_kind(&self, other: &ActorKind) -> (r: bool)
        ensures
            r == (self@ == other@),
    {
        match (self, other) {
            (ActorKind::InstanceRelay(a), ActorKind::InstanceRelay(b)) => a.eq(b),
            (ActorKind::HashtagRelay(a), ActorKind::HashtagRelay(b)) => a.eq(b),
            _ => false,
        }
    }
}

/// Spec-level value of an `Actor`.
pub struct ActorView {
    pub host: Seq<char>,
    pub kind: KindView,
}

/// A relay identity under a concrete relay hostname.
pub struct Actor {
    pub host: String,
    pub kind: ActorKind,
}

impl View for Actor {
    type V = ActorView;

    open spec fn view(&self) -> ActorView {
        ActorView { host: self.host@, kind: self.kind@ }
    }
}

/// The canonical URI of a relay identity:
/// `https://<relay host>/<variant>/<value>`.
pub open spec fn uri_of(a: ActorView) -> Seq<char> {
    match a.kind {
        KindView::Instance(h) => "https://"@ + a.host + "/instance/"@ + h,
        KindView::Hashtag(t) => "https://"@ + a.host + "/tag/"@ + t,
    }
}

/// The signing-key identifier derived from the identity's URI.
pub open spec fn key_id_of(a: ActorView) -> Seq<char> {
    uri_of(a) + "#key"@
}

impl Actor {
    /// A copy of this identity with the same value.
    pub fn duplicate(&self) -> (r: Actor)
        ensures
            r@ == self@,
    {
        Actor { host: self.host.clone(), kind: self.kind.duplicate() }
    }

    /// Two identities are the same target iff host and kind match.
    pub fn same_actor(&self, other: &Actor) -> (r: bool)
        ensures
            r == (self@ == other@),
    {
        self.host.eq(&other.host) && self.kind.same_kind(&other.kind)
    }

    /// The canonical URI of this identity.
    pub fn uri(&self) -> (r: String)
        ensures
            r@ == uri_of(self@),
    {
        let mut s = String::new();
        s.append("https://");
        s.append(self.host.as_str());
        match &self.kind {
            ActorKind::InstanceRelay(h) => {
                s.append("/instance/");
                s.append(h.as_str());
            },
            ActorKind::HashtagRelay(t) => {
                s.append("/tag/");
                s.append(t.as_str());
            },
        }
        proof {
            assert(s@ =~= uri_of(self@));
        }
        s
    }

    /// The signing-key identifier of this identity.
    pub fn key_id(&self) -> (r: String)
        ensures
            r@ == key_id_of(self@),
    {
        let s = self.uri();
        s.concat("#key")
    }
}

} // verus!
