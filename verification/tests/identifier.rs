use botbridge::protocol::entity::BotId;

#[test]
fn decode_legacy_framing() {
    let id = BotId::decode("9;qwen:0.5b@http://localhost:11434/v1");
    assert_eq!(id.as_str(), "qwen:0.5b");
}

#[test]
fn decode_bare_form() {
    let id = BotId::decode("gpt-4o");
    assert_eq!(id.as_str(), "gpt-4o");
}

#[test]
fn encode_is_always_bare() {
    // Writing out an id decoded from the legacy framing yields the bare
    // canonical form, never the framing back.
    let id = BotId::decode("9;qwen:0.5b@http://localhost:11434/v1");
    assert_eq!(id.id(), "qwen:0.5b");
    let round = BotId::new(id.as_str());
    assert_eq!(round.as_str(), "qwen:0.5b");
}

#[test]
fn decode_without_separator_keeps_raw() {
    assert_eq!(BotId::decode("no separator here").as_str(), "no separator here");
}

#[test]
fn decode_non_numeric_length_keeps_raw() {
    assert_eq!(BotId::decode("x;abc@p").as_str(), "x;abc@p");
}

#[test]
fn decode_out_of_bounds_length_keeps_raw() {
    // The id would need 9 bytes but only 2 follow the separator.
    assert_eq!(BotId::decode("9;ab").as_str(), "9;ab");
}

#[test]
fn decode_length_without_separator_byte_keeps_raw() {
    // The length matches the remainder exactly, leaving no byte for the
    // discarded separator: the legacy framing does not apply.
    assert_eq!(BotId::decode("2;ab").as_str(), "2;ab");
}

#[test]
fn decode_with_exactly_one_trailing_byte() {
    // One byte follows the id, the position the `@` separator holds.
    assert_eq!(BotId::decode("2;ab@").as_str(), "ab");
}

#[test]
fn decode_accepts_plus_prefixed_length() {
    assert_eq!(BotId::decode("+2;ab@p").as_str(), "ab");
}

#[test]
fn decode_overflowing_length_keeps_raw() {
    let raw = "99999999999999999999999;a@b";
    assert_eq!(BotId::decode(raw).as_str(), raw);
}

#[test]
fn decode_empty_string() {
    assert_eq!(BotId::decode("").as_str(), "");
}

#[test]
fn decode_counts_bytes_not_characters() {
    // 'é' takes two bytes, so a length of 2 covers it alone.
    assert_eq!(BotId::decode("2;\u{e9}x@p").as_str(), "\u{e9}");
}

#[test]
fn decode_cut_inside_character_keeps_raw() {
    // A length of 1 would cut inside the two-byte 'é': the framing does not
    // apply and the raw string is the id.
    let raw = "1;\u{e9}@p";
    assert_eq!(BotId::decode(raw).as_str(), raw);
}

#[test]
fn decode_uses_first_separator_only() {
    // Everything after the id's bytes is a discarded provider tag, even if
    // it holds more separators.
    assert_eq!(BotId::decode("3;a;b@x;y").as_str(), "a;b");
}
