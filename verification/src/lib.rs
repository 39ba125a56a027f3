//! Identifier allocation and resolution for emote records.
//!
//! The crate covers four pieces and proves their contracts: the base-62
//! encoder over a fixed alphanumeric alphabet (`base62`), the composition
//! of namespaced current-format identifiers and the classifier that tells
//! current-format from legacy-format strings (`ids`), the record types and
//! the rules that derive a record from a provider's or the legacy
//! service's answer (`emote`, `errors`), and an in-memory document store
//! with the atomic per-namespace counter and the legacy-migration
//! protocol (`registry`).

use vstd::prelude::*;

pub mod base62;
pub mod emote;
pub mod errors;
pub mod ids;
pub mod registry;

pub use base62::base62_decode;
pub use base62::base62_encode;
pub use emote::BTTVEmote;
pub use emote::Emote;
pub use emote::EmoteAddData;
pub use emote::EmoteIdCounter;
pub use emote::EmoteProvider;
pub use emote::EmoteProviderData;
pub use emote::LegacyEmote;
pub use emote::LegacyGlobalId;
pub use errors::ApiError;
pub use errors::DatabaseError;
pub use errors::ErrorBody;
pub use ids::IdClass;
pub use ids::SEPARATOR;
pub use ids::classify;
pub use ids::id_from_prior;
pub use ids::make_id;
pub use ids::namespace_of;
pub use ids::validate_id;
pub use ids::validate_legacy_id;
pub use registry::EmoteLookup;
pub use registry::Registry;

verus! {

/// Relies on `String::push` from std: appends the given character to the
/// end of the string, changing nothing else.
pub assume_specification[ String::push ](s: &mut String, ch: char)
    ensures
        final(s)@ == old(s)@.push(ch),
;

} // verus!
