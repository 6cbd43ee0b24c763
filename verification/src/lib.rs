//! Fanout dispatch and delivery engine for a federation relay.
//!
//! One incoming post notification is resolved to a set of relay
//! identities, each identity is expanded to its follower inboxes, and one
//! delivery job is produced per distinct inbox.  Delivery to each inbox is
//! modelled by a per-inbox worker with a bounded, lossy mailbox and a
//! failure-aware backoff gate.

pub mod activitypub;
pub mod actor;
pub mod announce;
pub mod fanout;
pub mod outcome;
pub mod post;
pub mod worker;
