//! The emote record and the records it is derived from.
//!
//! An `Emote` is the canonical resource: its `_id` is a current-format
//! identifier, immutable once created. A record is created either from a
//! provider fetch (`from_provider`) or by migrating a legacy record
//! (`from_legacy_record`); a migrated record carries the legacy identifier
//! in `legacy_id` as a secondary lookup key.

use vstd::prelude::*;
use vstd::string::StringExecFns;

verus! {

/// Where an emote's image data originates.
#[derive(Clone, Copy, Debug, PartialEq, Eq, Structural)]
pub enum EmoteProvider {
    BTTV,
}

/// A provider tag together with the provider-native identifier.
#[derive(Clone, Debug)]
pub struct EmoteProviderData {
    pub provider: EmoteProvider,
    pub id: String,
}

/// The canonical emote record.
#[derive(Clone, Debug)]
pub struct Emote {
    pub _id: String,
    pub provider: EmoteProviderData,
    pub image_type: String,
    pub animated: bool,
    pub banned: bool,
    pub legacy_id: Option<String>,
}

/// The nested identifier object of a legacy record.
#[derive(Clone, Debug)]
#[allow(non_snake_case)]
pub struct LegacyGlobalId {
    pub emoteName: String,
    pub emoteId: String,
}

/// A record fetched from the legacy service; read-only from this system's
/// perspective, copied once into a new `Emote` on migration.
#[derive(Clone, Debug)]
#[allow(non_snake_case)]
pub struct LegacyEmote {
    pub globalId: LegacyGlobalId,
    pub bttvId: String,
    pub name: String,
    pub imageType: String,
    pub banned: bool,
}

/// One per-namespace counter row: `_id` is the namespace, `counter` the
/// number of allocations made under it so far.
#[derive(Clone, Debug)]
pub struct EmoteIdCounter {
    pub _id: String,
    pub counter: u64,
}

/// The request payload for adding an emote by provider-native id.
#[derive(Clone, Debug)]
pub struct EmoteAddData {
    pub provider: EmoteProvider,
    pub id: String,
}

/// The metadata the BTTV provider returns for an emote.
#[derive(Clone, Debug)]
#[allow(non_snake_case)]
pub struct BTTVEmote {
    pub id: String,
    pub code: String,
    pub imageType: String,
    pub animated: bool,
}

impl EmoteAddData {
    /// The provider endpoint that serves this emote's metadata.
    pub fn emote_url(&self) -> (r: String)
        ensures
            r@ == "https://api.betterttv.net/3/emotes/"@ + self.id@,
    {
        match self.provider {
            EmoteProvider::BTTV => String::from_str("https://api.betterttv.net/3/emotes/").concat(
                self.id.as_str(),
            ),
        }
    }
}

impl Emote {
    /// A field-for-field copy of the record.
    pub fn duplicate(&self) -> (r: Emote)
        ensures
            r == *self,
    {
        Emote {
            _id: self._id.clone(),
            provider: EmoteProviderData { provider: self.provider.provider, id: self.provider.id.clone() },
            image_type: self.image_type.clone(),
            animated: self.animated,
            banned: self.banned,
            legacy_id: match &self.legacy_id {
                Some(l) => Some(l.clone()),
                None => None,
            },
        }
    }

    /// The migrated record for a legacy emote. Every field is a function
    /// of the fetched legacy record and the freshly allocated identifier
    /// alone, so the record is usable whether or not it is later
    /// persisted: `animated` holds exactly when the legacy image type is
    /// the literal `gif`, the provider is BTTV with the legacy record's
    /// native id, and `legacy_id` links back to the input.
    pub fn from_legacy_record(legacy: &LegacyEmote, new_id: String, legacy_id: &str) -> (r: Emote)
        ensures
            r._id@ == new_id@,
            r.provider.provider == EmoteProvider::BTTV,
            r.provider.id@ == legacy.bttvId@,
            r.image_type@ == legacy.imageType@,
            r.animated == (legacy.imageType@ == "gif"@),
            r.banned == legacy.banned,
            r.legacy_id matches Some(l) && l@ == legacy_id@,
    {
        let gif = String::from_str("gif");
        Emote {
            _id: new_id,
            provider: EmoteProviderData { provider: EmoteProvider::BTTV, id: legacy.bttvId.clone() },
            image_type: legacy.imageType.clone(),
            animated: legacy.imageType == gif,
            banned: legacy.banned,
            legacy_id: Some(legacy_id.to_owned()),
        }
    }

    /// The record for an emote added through the provider-fetch path: the
    /// provider data comes from the request, the image metadata from the
    /// provider's answer, the moderation flag starts cleared, and no
    /// legacy identifier is attached.
    pub fn from_provider(data: &EmoteAddData, fetched: &BTTVEmote, new_id: String) -> (r: Emote)
        ensures
            r._id@ == new_id@,
            r.provider.provider == data.provider,
            r.provider.id@ == data.id@,
            r.image_type@ == fetched.imageType@,
            r.animated == fetched.animated,
            r.banned == false,
            r.legacy_id is None,
    {
        Emote {
            _id: new_id,
            provider: EmoteProviderData { provider: data.provider, id: data.id.clone() },
            image_type: fetched.imageType.clone(),
            animated: fetched.animated,
            banned: false,
            legacy_id: None,
        }
    }
}

} // verus!
