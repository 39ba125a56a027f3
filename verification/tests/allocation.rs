use emotechat_backend::base62_encode;
use emotechat_backend::classify;
use emotechat_backend::namespace_of;
use emotechat_backend::BTTVEmote;
use emotechat_backend::Emote;
use emotechat_backend::EmoteAddData;
use emotechat_backend::EmoteProvider;
use emotechat_backend::IdClass;
use emotechat_backend::Registry;

const SEP: char = '\u{00B7}';

#[test]
fn fresh_counter_yields_consecutive_encodings() {
    let mut reg = Registry::new();
    let n = 64usize;
    let mut ids = Vec::new();
    for _ in 0..n {
        ids.push(Emote::generate_id(&mut reg, "monka").unwrap());
    }
    let mut seen = std::collections::HashSet::new();
    for (k, id) in ids.iter().enumerate() {
        assert_eq!(*id, format!("monka{}{}", SEP, base62_encode(k as u64)));
        assert!(seen.insert(id.clone()), "duplicate identifier {}", id);
    }
}

#[test]
fn counter_store_returns_pre_increment_value() {
    let mut reg = Registry::new();
    assert_eq!(reg.increment_and_get("monka"), 0);
    assert_eq!(reg.increment_and_get("monka"), 1);
    assert_eq!(reg.increment_and_get("monka"), 2);
}

#[test]
fn namespaces_count_independently() {
    let mut reg = Registry::new();
    assert_eq!(reg.increment_and_get("monka"), 0);
    assert_eq!(reg.increment_and_get("pepe"), 0);
    assert_eq!(reg.increment_and_get("monka"), 1);
    assert_eq!(reg.increment_and_get("pepe"), 1);
}

#[test]
fn allocated_id_classifies_as_current_and_splits_back() {
    let mut reg = Registry::new();
    let id = Emote::generate_id(&mut reg, "monka").unwrap();
    assert_eq!(classify(&id), IdClass::Current);
    assert_eq!(namespace_of(&id), Some("monka".to_string()));
}

#[test]
fn id_from_prior_counter_row() {
    // An absent counter row encodes as zero; an existing row encodes its
    // pre-increment value.
    assert_eq!(
        emotechat_backend::id_from_prior("monka", None),
        format!("monka{}a", SEP)
    );
    assert_eq!(
        emotechat_backend::id_from_prior("monka", Some(5)),
        format!("monka{}f", SEP)
    );
    assert_eq!(
        emotechat_backend::make_id("monka", 62),
        format!("monka{}ba", SEP)
    );
}

#[test]
fn emote_url_names_the_provider_endpoint() {
    let data = EmoteAddData {
        provider: EmoteProvider::BTTV,
        id: "5f5f4b7b".to_string(),
    };
    assert_eq!(data.emote_url(), "https://api.betterttv.net/3/emotes/5f5f4b7b");
}

#[test]
fn adding_an_emote_allocates_under_its_code() {
    let mut reg = Registry::new();
    let data = EmoteAddData {
        provider: EmoteProvider::BTTV,
        id: "5f5f4b7b".to_string(),
    };
    let fetched = BTTVEmote {
        id: "5f5f4b7b".to_string(),
        code: "monkaW".to_string(),
        imageType: "gif".to_string(),
        animated: true,
    };
    let emote = Emote::add_from_provider(&mut reg, &data, &fetched);
    assert_eq!(emote._id, format!("monkaW{}a", SEP));
    assert_eq!(emote.provider.id, "5f5f4b7b");
    assert!(emote.animated);
    assert!(!emote.banned);
    assert!(emote.legacy_id.is_none());
    assert_eq!(reg.emote_count(), 1);

    let again = Emote::add_from_provider(&mut reg, &data, &fetched);
    assert_eq!(again._id, emote._id, "an existing record wins over a new allocation");
    assert_eq!(reg.emote_count(), 1, "no second record for the same provider data");
}
