use renarrator::layout_map::{forward_key, map_key, Key, MappedKey};

#[test]
fn letters_are_lowercase_and_dual() {
    assert_eq!(
        map_key(Key::KeyF),
        MappedKey::Letter { en: 'f', ru: Some('а') }
    );
    assert_eq!(
        map_key(Key::KeyQ),
        MappedKey::Letter { en: 'q', ru: Some('й') }
    );
}

#[test]
fn ru_letter_on_punctuation_key() {
    // «б» lives on the physical comma key.
    assert_eq!(
        map_key(Key::Comma),
        MappedKey::Letter { en: ',', ru: Some('б') }
    );
    assert_eq!(
        map_key(Key::Dot),
        MappedKey::Letter { en: '.', ru: Some('ю') }
    );
}

#[test]
fn reset_keys() {
    for k in [Key::Return, Key::Backspace, Key::Tab, Key::Escape, Key::Slash] {
        assert_eq!(map_key(k), MappedKey::Reset, "{k:?} must reset");
    }
}

#[test]
fn digits_are_letters_in_both_layouts() {
    for (k, d) in [(Key::Num0, '0'), (Key::Num5, '5'), (Key::Num9, '9')] {
        assert_eq!(map_key(k), MappedKey::Letter { en: d, ru: Some(d) });
    }
}

#[test]
fn space_is_separator_not_reset() {
    assert_eq!(map_key(Key::Space), MappedKey::Space);
}

#[test]
fn modifiers_are_ignored() {
    for k in [Key::ShiftLeft, Key::ControlRight, Key::Alt, Key::F5, Key::UpArrow] {
        assert_eq!(map_key(k), MappedKey::Ignore, "{k:?} must be ignored");
    }
}

#[test]
fn all_letter_keys_are_lower_case_in_both_layouts() {
    let keys = [
        Key::KeyQ, Key::KeyW, Key::KeyE, Key::KeyR, Key::KeyT, Key::KeyY, Key::KeyU, Key::KeyI,
        Key::KeyO, Key::KeyP, Key::KeyA, Key::KeyS, Key::KeyD, Key::KeyF, Key::KeyG, Key::KeyH,
        Key::KeyJ, Key::KeyK, Key::KeyL, Key::KeyZ, Key::KeyX, Key::KeyC, Key::KeyV, Key::KeyB,
        Key::KeyN, Key::KeyM, Key::SemiColon, Key::Quote, Key::LeftBracket, Key::RightBracket,
        Key::Comma, Key::Dot, Key::BackQuote,
    ];
    for k in keys {
        match map_key(k) {
            MappedKey::Letter { en, ru: Some(ru) } => {
                assert!(!en.is_uppercase(), "{k:?}");
                assert!(ru.is_lowercase(), "{k:?}");
            }
            other => panic!("{k:?} mapped to {other:?}"),
        }
    }
}

#[test]
fn remaining_reset_and_ignored_keys() {
    for k in [Key::Minus, Key::Equal, Key::BackSlash] {
        assert_eq!(map_key(k), MappedKey::Reset);
    }
    for k in [Key::Kp5, Key::KpMinus, Key::IntlBackslash, Key::Unknown(7), Key::CapsLock] {
        assert_eq!(map_key(k), MappedKey::Ignore);
    }
    assert_eq!(map_key(Key::BackQuote), MappedKey::Letter { en: '`', ru: Some('ё') });
    assert_eq!(map_key(Key::KeyM), MappedKey::Letter { en: 'm', ru: Some('ь') });
}

#[test]
fn hook_forwards_only_unpaused_meaningful_keys() {
    let f = map_key(Key::KeyF);
    assert_eq!(forward_key(false, f), Some(f));
    assert_eq!(forward_key(true, f), None);
    assert_eq!(forward_key(false, map_key(Key::ShiftLeft)), None);
    assert_eq!(forward_key(false, MappedKey::Space), Some(MappedKey::Space));
    assert_eq!(forward_key(true, MappedKey::Reset), None);
}

#[test]
fn every_letter_key_carries_a_word_character() {
    for k in [Key::KeyQ, Key::Comma, Key::Dot, Key::SemiColon, Key::Quote, Key::LeftBracket,
        Key::RightBracket, Key::BackQuote, Key::Num3]
    {
        match map_key(k) {
            MappedKey::Letter { en, ru } => {
                assert!(en.is_alphanumeric() || ru.is_some_and(|c| c.is_alphanumeric()), "{k:?}");
                assert!(ru.unwrap().is_alphanumeric());
            }
            other => panic!("{k:?} mapped to {other:?}"),
        }
    }
}
