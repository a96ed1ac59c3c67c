//! Verified core of a desktop-automation runtime: bounded runtime invalidation
//! events, the semantic application-profile cache, short-lived observation views and
//! the compact agent API's request rules.
use vstd::prelude::*;

pub mod batch;
pub mod catalog;
pub mod compact;
pub mod find_profile;
pub mod fuzzy;
pub mod grouping;
pub mod model;
pub mod profile;
pub mod protocol;
pub mod refs;
pub mod revalidate;
pub mod runtime_event_diff;
pub mod runtime_events;
pub mod selector;
pub mod skills;
pub mod text;
pub mod view_delta;
pub mod view_json;
pub mod view_state;
pub mod view_store;

verus! {
}
