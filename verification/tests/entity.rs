use botbridge::protocol::entity::{BotCapabilities, BotCapability, EntityAvatar, EntityId};

#[test]
fn capabilities_start_empty() {
    let caps = BotCapabilities::new();
    assert!(!caps.has_capability(&BotCapability::TextInput));
    assert!(!caps.has_capability(&BotCapability::FunctionCalling));
    assert_eq!(caps.iter().len(), 0);
}

#[test]
fn all_capabilities_has_everything() {
    let caps = BotCapabilities::all();
    assert!(caps.has_capability(&BotCapability::TextInput));
    assert!(caps.has_capability(&BotCapability::TextOutput));
    assert!(caps.has_capability(&BotCapability::Realtime));
    assert!(caps.has_capability(&BotCapability::AttachmentInput));
    assert!(caps.has_capability(&BotCapability::AttachmentOutput));
    assert!(caps.has_capability(&BotCapability::FunctionCalling));
    assert_eq!(caps.iter().len(), 6);
}

#[test]
fn with_capability_adds_one() {
    let caps = BotCapabilities::new().with_capability(BotCapability::Realtime);
    assert!(caps.has_capability(&BotCapability::Realtime));
    assert!(!caps.has_capability(&BotCapability::TextInput));
}

#[test]
fn add_capabilities_adds_many() {
    let mut caps = BotCapabilities::new();
    caps.add_capabilities(&[BotCapability::TextInput, BotCapability::TextOutput]);
    assert!(caps.has_capability(&BotCapability::TextInput));
    assert!(caps.has_capability(&BotCapability::TextOutput));
    assert!(!caps.has_capability(&BotCapability::Realtime));

    let more = caps.with_capabilities(&[BotCapability::Realtime]);
    assert!(more.has_capability(&BotCapability::Realtime));
    assert!(more.has_capability(&BotCapability::TextInput));
}

#[test]
fn adding_twice_keeps_one() {
    let mut caps = BotCapabilities::new();
    caps.add_capability(BotCapability::TextInput);
    caps.add_capability(BotCapability::TextInput);
    assert_eq!(caps.iter(), vec![BotCapability::TextInput]);
}

#[test]
fn avatar_from_first_grapheme() {
    // Only the first grapheme is kept, so the wrapper must not hand the
    // whole text back.
    assert_eq!(
        EntityAvatar::from_first_grapheme("hello"),
        Some(EntityAvatar::Text("h".to_string()))
    );
    assert_eq!(EntityAvatar::from_first_grapheme(""), None);
}

#[test]
fn avatar_from_combining_grapheme() {
    // 'e' followed by a combining acute accent is one grapheme of two
    // characters.
    let s = "e\u{301}xyz";
    assert_eq!(
        EntityAvatar::from_first_grapheme(s),
        Some(EntityAvatar::Text("e\u{301}".to_string()))
    );
}

#[test]
fn entity_id_default_is_app() {
    assert_eq!(EntityId::default(), EntityId::App);
}
