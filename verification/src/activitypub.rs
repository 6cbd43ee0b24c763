//! The ActivityPub document shapes the relay exposes: actor documents and
//! generic activities.
//!
//! These are plain data carriers.  The JSON-LD context is held as its
//! canonical string form; the serialization itself lives with the HTTP
//! layer around the library.

use vstd::prelude::*;

verus! {

/// An actor document's public key entry.
pub struct ActorPublicKey {
    pub id: String,
    pub owner: Option<String>,
    pub pem: String,
}

/// An icon or similar attached media document.
pub struct Media {
    pub media_type: String,
    pub content_type: String,
    pub url: String,
}

/// An ActivityPub actor document.
pub struct Actor {
    pub jsonld_context: String,
    pub actor_type: String,
    pub id: String,
    pub name: Option<String>,
    pub icon: Option<Media>,
    pub inbox: String,
    pub outbox: String,
    pub public_key: ActorPublicKey,
    pub preferred_username: Option<String>,
}

/// An ActivityPub activity with an object of type `O`.
pub struct Action<O> {
    pub jsonld_context: String,
    pub action_type: String,
    pub id: String,
    pub actor: String,
    pub to: Option<Vec<String>>,
    pub object: Option<O>,
}

} // verus!
