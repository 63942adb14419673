//! Physical keys and the characters they carry in the two base layouts.
//!
//! A physical key has the same identity whatever layout the operating system
//! currently uses, so each key is mapped to the pair of characters it types in
//! the QWERTY (EN) and ЙЦУКЕН (RU) layouts. Both characters are lower case,
//! which makes detection case-insensitive.

use vstd::prelude::*;

use crate::text::alphanumeric;

verus! {

/// A physical key of the keyboard, identified independently of the active
/// layout (the same set of keys that the keyboard hook reports).
#[derive(PartialEq, Eq, Structural, Clone, Copy, Debug)]
pub enum Key {
    Alt,
    AltGr,
    Backspace,
    CapsLock,
    ControlLeft,
    ControlRight,
    Delete,
    DownArrow,
    End,
    Escape,
    F1,
    F10,
    F11,
    F12,
    F2,
    F3,
    F4,
    F5,
    F6,
    F7,
    F8,
    F9,
    Home,
    LeftArrow,
    MetaLeft,
    MetaRight,
    PageDown,
    PageUp,
    Return,
    RightArrow,
    ShiftLeft,
    ShiftRight,
    Space,
    Tab,
    UpArrow,
    PrintScreen,
    ScrollLock,
    Pause,
    NumLock,
    BackQuote,
    Num1,
    Num2,
    Num3,
    Num4,
    Num5,
    Num6,
    Num7,
    Num8,
    Num9,
    Num0,
    Minus,
    Equal,
    KeyQ,
    KeyW,
    KeyE,
    KeyR,
    KeyT,
    KeyY,
    KeyU,
    KeyI,
    KeyO,
    KeyP,
    LeftBracket,
    RightBracket,
    KeyA,
    KeyS,
    KeyD,
    KeyF,
    KeyG,
    KeyH,
    KeyJ,
    KeyK,
    KeyL,
    SemiColon,
    Quote,
    BackSlash,
    IntlBackslash,
    KeyZ,
    KeyX,
    KeyC,
    KeyV,
    KeyB,
    KeyN,
    KeyM,
    Comma,
    Dot,
    Slash,
    Insert,
    KpReturn,
    KpMinus,
    KpPlus,
    KpMultiply,
    KpDivide,
    Kp0,
    Kp1,
    Kp2,
    Kp3,
    Kp4,
    Kp5,
    Kp6,
    Kp7,
    Kp8,
    Kp9,
    KpDelete,
    Function,
    Unknown(u32),
}

/// What one physical key press means to the input buffers.
#[derive(PartialEq, Eq, Structural, Clone, Copy, Debug)]
pub enum MappedKey {
    /// The key carries a letter or digit in at least one layout: `en` is the
    /// QWERTY character, `ru` the ЙЦУКЕН one when the key has one.
    Letter { en: char, ru: Option<char> },
    /// The space bar: a word separator inside phrases, not a reset.
    Space,
    /// A key that empties the buffers at once: Enter, Backspace, Tab, Escape
    /// and punctuation that is not a letter in either layout.
    Reset,
    /// A key that does not touch the buffers (modifiers, arrows, F-keys, ...).
    Ignore,
}

/// The lower-case character a key types in the QWERTY layout, for the keys
/// that take part in words (letters, letter-bearing punctuation, top-row digits).
pub open spec fn qwerty_char(key: Key) -> Option<char> {
    match key {
        Key::KeyQ => Some('q'),
        Key::KeyW => Some('w'),
        Key::KeyE => Some('e'),
        Key::KeyR => Some('r'),
        Key::KeyT => Some('t'),
        Key::KeyY => Some('y'),
        Key::KeyU => Some('u'),
        Key::KeyI => Some('i'),
        Key::KeyO => Some('o'),
        Key::KeyP => Some('p'),
        Key::KeyA => Some('a'),
        Key::KeyS => Some('s'),
        Key::KeyD => Some('d'),
        Key::KeyF => Some('f'),
        Key::KeyG => Some('g'),
        Key::KeyH => Some('h'),
        Key::KeyJ => Some('j'),
        Key::KeyK => Some('k'),
        Key::KeyL => Some('l'),
        Key::KeyZ => Some('z'),
        Key::KeyX => Some('x'),
        Key::KeyC => Some('c'),
        Key::KeyV => Some('v'),
        Key::KeyB => Some('b'),
        Key::KeyN => Some('n'),
        Key::KeyM => Some('m'),
        Key::SemiColon => Some(';'),
        Key::Quote => Some('\''),
        Key::LeftBracket => Some('['),
        Key::RightBracket => Some(']'),
        Key::Comma => Some(','),
        Key::Dot => Some('.'),
        Key::BackQuote => Some('`'),
        Key::Num0 => Some('0'),
        Key::Num1 => Some('1'),
        Key::Num2 => Some('2'),
        Key::Num3 => Some('3'),
        Key::Num4 => Some('4'),
        Key::Num5 => Some('5'),
        Key::Num6 => Some('6'),
        Key::Num7 => Some('7'),
        Key::Num8 => Some('8'),
        Key::Num9 => Some('9'),
        _ => None,
    }
}

/// The lower-case character a key types in the ЙЦУКЕН layout, for the same keys.
pub open spec fn jcuken_char(key: Key) -> Option<char> {
    match key {
        Key::KeyQ => Some('й'),
        Key::KeyW => Some('ц'),
        Key::KeyE => Some('у'),
        Key::KeyR => Some('к'),
        Key::KeyT => Some('е'),
        Key::KeyY => Some('н'),
        Key::KeyU => Some('г'),
        Key::KeyI => Some('ш'),
        Key::KeyO => Some('щ'),
        Key::KeyP => Some('з'),
        Key::KeyA => Some('ф'),
        Key::KeyS => Some('ы'),
        Key::KeyD => Some('в'),
        Key::KeyF => Some('а'),
        Key::KeyG => Some('п'),
        Key::KeyH => Some('р'),
        Key::KeyJ => Some('о'),
        Key::KeyK => Some('л'),
        Key::KeyL => Some('д'),
        Key::KeyZ => Some('я'),
        Key::KeyX => Some('ч'),
        Key::KeyC => Some('с'),
        Key::KeyV => Some('м'),
        Key::KeyB => Some('и'),
        Key::KeyN => Some('т'),
        Key::KeyM => Some('ь'),
        Key::SemiColon => Some('ж'),
        Key::Quote => Some('э'),
        Key::LeftBracket => Some('х'),
        Key::RightBracket => Some('ъ'),
        Key::Comma => Some('б'),
        Key::Dot => Some('ю'),
        Key::BackQuote => Some('ё'),
        Key::Num0 => Some('0'),
        Key::Num1 => Some('1'),
        Key::Num2 => Some('2'),
        Key::Num3 => Some('3'),
        Key::Num4 => Some('4'),
        Key::Num5 => Some('5'),
        Key::Num6 => Some('6'),
        Key::Num7 => Some('7'),
        Key::Num8 => Some('8'),
        Key::Num9 => Some('9'),
        _ => None,
    }
}

/// Keys that reset the buffers: Enter, Backspace, Tab, Escape and the
/// punctuation keys that are punctuation in both layouts.
pub open spec fn is_reset_key(key: Key) -> bool {
    match key {
        Key::Return | Key::Backspace | Key::Tab | Key::Escape | Key::Slash | Key::Minus
        | Key::Equal | Key::BackSlash => true,
        _ => false,
    }
}

/// Maps a physical key to its meaning for the buffers.
pub fn map_key(key: Key) -> (mapped: MappedKey)
    ensures
        match mapped {
            MappedKey::Letter { en, ru } => qwerty_char(key) == Some(en) && ru == jcuken_char(key),
            MappedKey::Space => key == Key::Space,
            MappedKey::Reset => is_reset_key(key),
            MappedKey::Ignore => qwerty_char(key) is None && key != Key::Space && !is_reset_key(key),
        },
{

    match key {
        // Letter row: QWERTY and ЙЦУКЕН.
        Key::KeyQ => MappedKey::Letter { en: 'q', ru: Some('й') },
        Key::KeyW => MappedKey::Letter { en: 'w', ru: Some('ц') },
        Key::KeyE => MappedKey::Letter { en: 'e', ru: Some('у') },
        Key::KeyR => MappedKey::Letter { en: 'r', ru: Some('к') },
        Key::KeyT => MappedKey::Letter { en: 't', ru: Some('е') },
        Key::KeyY => MappedKey::Letter { en: 'y', ru: Some('н') },
        Key::KeyU => MappedKey::Letter { en: 'u', ru: Some('г') },
        Key::KeyI => MappedKey::Letter { en: 'i', ru: Some('ш') },
        Key::KeyO => MappedKey::Letter { en: 'o', ru: Some('щ') },
        Key::KeyP => MappedKey::Letter { en: 'p', ru: Some('з') },
        Key::KeyA => MappedKey::Letter { en: 'a', ru: Some('ф') },
        Key::KeyS => MappedKey::Letter { en: 's', ru: Some('ы') },
        Key::KeyD => MappedKey::Letter { en: 'd', ru: Some('в') },
        Key::KeyF => MappedKey::Letter { en: 'f', ru: Some('а') },
        Key::KeyG => MappedKey::Letter { en: 'g', ru: Some('п') },
        Key::KeyH => MappedKey::Letter { en: 'h', ru: Some('р') },
        Key::KeyJ => MappedKey::Letter { en: 'j', ru: Some('о') },
        Key::KeyK => MappedKey::Letter { en: 'k', ru: Some('л') },
        Key::KeyL => MappedKey::Letter { en: 'l', ru: Some('д') },
        Key::KeyZ => MappedKey::Letter { en: 'z', ru: Some('я') },
        Key::KeyX => MappedKey::Letter { en: 'x', ru: Some('ч') },
        Key::KeyC => MappedKey::Letter { en: 'c', ru: Some('с') },
        Key::KeyV => MappedKey::Letter { en: 'v', ru: Some('м') },
        Key::KeyB => MappedKey::Letter { en: 'b', ru: Some('и') },
        Key::KeyN => MappedKey::Letter { en: 'n', ru: Some('т') },
        Key::KeyM => MappedKey::Letter { en: 'm', ru: Some('ь') },
        Key::SemiColon => MappedKey::Letter { en: ';', ru: Some('ж') },
        Key::Quote => MappedKey::Letter { en: '\'', ru: Some('э') },
        Key::LeftBracket => MappedKey::Letter { en: '[', ru: Some('х') },
        Key::RightBracket => MappedKey::Letter { en: ']', ru: Some('ъ') },
        Key::Comma => MappedKey::Letter { en: ',', ru: Some('б') },
        Key::Dot => MappedKey::Letter { en: '.', ru: Some('ю') },
        Key::BackQuote => MappedKey::Letter { en: '`', ru: Some('ё') },
        // Top-row digits (without Shift) are word characters in both layouts.
        Key::Num0 => MappedKey::Letter { en: '0', ru: Some('0') },
        Key::Num1 => MappedKey::Letter { en: '1', ru: Some('1') },
        Key::Num2 => MappedKey::Letter { en: '2', ru: Some('2') },
        Key::Num3 => MappedKey::Letter { en: '3', ru: Some('3') },
        Key::Num4 => MappedKey::Letter { en: '4', ru: Some('4') },
        Key::Num5 => MappedKey::Letter { en: '5', ru: Some('5') },
        Key::Num6 => MappedKey::Letter { en: '6', ru: Some('6') },
        Key::Num7 => MappedKey::Letter { en: '7', ru: Some('7') },
        Key::Num8 => MappedKey::Letter { en: '8', ru: Some('8') },
        Key::Num9 => MappedKey::Letter { en: '9', ru: Some('9') },
        Key::Space => MappedKey::Space,
        Key::Return
        | Key::Backspace
        | Key::Tab
        | Key::Escape
        | Key::Slash
        | Key::Minus
        | Key::Equal
        | Key::BackSlash => MappedKey::Reset,
        _ => MappedKey::Ignore,
    }
}

/// Law: both layouts give lower-case characters only, so detection does not
/// depend on Shift or Caps Lock.
pub proof fn law_layouts_lower_case(key: Key)
    ensures
        qwerty_char(key) matches Some(c) ==> !('A' <= c <= 'Z'),
        jcuken_char(key) matches Some(c) ==> !('А' <= c <= 'Я') && c != 'Ё',
{
}

/// Law: a key carries a word character in QWERTY exactly when it carries one
/// in ЙЦУКЕН, so every `Letter` has both; the top-row digits are the same
/// character in both layouts.
pub proof fn law_layouts_dual(key: Key)
    ensures
        qwerty_char(key) is Some <==> jcuken_char(key) is Some,
        qwerty_char(key) matches Some(c) ==> ('0' <= c <= '9' ==> jcuken_char(key) == Some(c)),
{
}

/// Law: the space bar is a separator, not a reset, and no key is both a
/// reset key and a word key.
pub proof fn law_key_classes_disjoint(key: Key)
    ensures
        is_reset_key(key) ==> qwerty_char(key) is None && key != Key::Space,
        key == Key::Space ==> qwerty_char(key) is None && !is_reset_key(key),
{
}


/// Law: every word key carries a letter or digit: its ЙЦУКЕН character always
/// is one, its QWERTY character is one except on the seven punctuation keys
/// that are Russian letters (there the QWERTY character is punctuation and
/// stays out of the EN buffer).
pub proof fn law_word_keys_carry_letters(key: Key)
    ensures
        jcuken_char(key) matches Some(r) ==> alphanumeric(r),
        qwerty_char(key) matches Some(c) ==> (alphanumeric(c) <==> !(key == Key::Comma || key
            == Key::Dot || key == Key::SemiColon || key == Key::Quote || key == Key::LeftBracket
            || key == Key::RightBracket || key == Key::BackQuote)),
{
}


/// What the keyboard hook passes on to the engine for a key press: nothing
/// while detection is paused, nothing for keys that do not touch the
/// buffers, otherwise the mapped key.
pub fn forward_key(paused: bool, mapped: MappedKey) -> (r: Option<MappedKey>)
    ensures
        r == if paused || mapped == MappedKey::Ignore {
            None
        } else {
            Some(mapped)
        },
{
    if paused {
        return None;
    }
    match mapped {
        MappedKey::Ignore => None,
        _ => Some(mapped),
    }
}


/// The rows of the main keyboard block, left to right: the digit row (from
/// the key left of `1`), the upper, home and lower letter rows.
pub open spec fn keyboard_rows() -> Seq<Seq<Key>> {
    seq![
        seq![Key::BackQuote, Key::Num1, Key::Num2, Key::Num3, Key::Num4, Key::Num5, Key::Num6, Key::Num7, Key::Num8, Key::Num9, Key::Num0],
        seq![Key::KeyQ, Key::KeyW, Key::KeyE, Key::KeyR, Key::KeyT, Key::KeyY, Key::KeyU, Key::KeyI, Key::KeyO, Key::KeyP, Key::LeftBracket, Key::RightBracket],
        seq![Key::KeyA, Key::KeyS, Key::KeyD, Key::KeyF, Key::KeyG, Key::KeyH, Key::KeyJ, Key::KeyK, Key::KeyL, Key::SemiColon, Key::Quote],
        seq![Key::KeyZ, Key::KeyX, Key::KeyC, Key::KeyV, Key::KeyB, Key::KeyN, Key::KeyM, Key::Comma, Key::Dot],
    ]
}

/// The standard QWERTY layout, row by row, unshifted.
pub open spec fn qwerty_rows() -> Seq<Seq<char>> {
    seq![
        seq!['`', '1', '2', '3', '4', '5', '6', '7', '8', '9', '0'],
        seq!['q', 'w', 'e', 'r', 't', 'y', 'u', 'i', 'o', 'p', '[', ']'],
        seq!['a', 's', 'd', 'f', 'g', 'h', 'j', 'k', 'l', ';', '\''],
        seq!['z', 'x', 'c', 'v', 'b', 'n', 'm', ',', '.'],
    ]
}

/// The standard Russian ЙЦУКЕН layout, row by row, unshifted.
pub open spec fn jcuken_rows() -> Seq<Seq<char>> {
    seq![
        seq!['ё', '1', '2', '3', '4', '5', '6', '7', '8', '9', '0'],
        seq!['й', 'ц', 'у', 'к', 'е', 'н', 'г', 'ш', 'щ', 'з', 'х', 'ъ'],
        seq!['ф', 'ы', 'в', 'а', 'п', 'р', 'о', 'л', 'д', 'ж', 'э'],
        seq!['я', 'ч', 'с', 'м', 'и', 'т', 'ь', 'б', 'ю'],
    ]
}

/// Law: each key of the four rows types the character at the same place in
/// the standard QWERTY layout and in the standard ЙЦУКЕН layout, so the RU
/// buffer receives what a Russian typist sees on the keycaps.
pub proof fn law_standard_layouts(r: int, i: int)
    requires
        0 <= r < 4,
        0 <= i < keyboard_rows()[r].len(),
    ensures
        qwerty_rows()[r].len() == keyboard_rows()[r].len(),
        jcuken_rows()[r].len() == keyboard_rows()[r].len(),
        qwerty_char(keyboard_rows()[r][i]) == Some(qwerty_rows()[r][i]),
        jcuken_char(keyboard_rows()[r][i]) == Some(jcuken_rows()[r][i]),
{
    if r == 0 { if i == 0 {} else if i == 1 {} else if i == 2 {} else if i == 3 {} else if i == 4 {} else if i == 5 {} else if i == 6 {} else if i == 7 {} else if i == 8 {} else if i == 9 {} else if i == 10 {} } else if r == 1 { if i == 0 {} else if i == 1 {} else if i == 2 {} else if i == 3 {} else if i == 4 {} else if i == 5 {} else if i == 6 {} else if i == 7 {} else if i == 8 {} else if i == 9 {} else if i == 10 {} else if i == 11 {} } else if r == 2 { if i == 0 {} else if i == 1 {} else if i == 2 {} else if i == 3 {} else if i == 4 {} else if i == 5 {} else if i == 6 {} else if i == 7 {} else if i == 8 {} else if i == 9 {} else if i == 10 {} } else if r == 3 { if i == 0 {} else if i == 1 {} else if i == 2 {} else if i == 3 {} else if i == 4 {} else if i == 5 {} else if i == 6 {} else if i == 7 {} else if i == 8 {} }
}

} // verus!
