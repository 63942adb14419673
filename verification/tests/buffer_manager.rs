use renarrator::buffer_manager::{BufferManager, DEFAULT_TIMEOUT, MAX_BUFFER_LEN};
use renarrator::layout_map::{map_key, Key, MappedKey};

/// The timeout used by the scenarios, in milliseconds.
const T: u64 = 2000;

fn manager(words: &[(&str, &[&str])]) -> BufferManager {
    let mut m = BufferManager::new(T);
    let owned: Vec<(String, Vec<String>)> = words
        .iter()
        .map(|(id, ws)| (id.to_string(), ws.iter().map(|w| w.to_string()).collect()))
        .collect();
    m.set_triggers(&owned);
    m
}

fn letter(en: char, ru: Option<char>) -> MappedKey {
    MappedKey::Letter { en, ru }
}

fn bufs(m: &BufferManager) -> (String, String) {
    m.buffers()
}

fn type_en(m: &mut BufferManager, text: &str, t0: u64) -> Option<String> {
    let mut out = None;
    for (i, c) in text.chars().enumerate() {
        out = m.handle_key(&letter(c, None), t0 + 100 * i as u64);
    }
    out
}

/// Types a string in which a space is a real `MappedKey::Space` (for phrases).
fn type_phrase(m: &mut BufferManager, text: &str, t0: u64) -> Option<String> {
    let mut out = None;
    for (i, c) in text.chars().enumerate() {
        let key = if c == ' ' { MappedKey::Space } else { letter(c, None) };
        out = m.handle_key(&key, t0 + 100 * i as u64);
    }
    out
}

fn press_space(m: &mut BufferManager, at: u64) -> Option<String> {
    m.handle_key(&MappedKey::Space, at)
}

#[test]
fn detects_en_word_once_and_clears() {
    let t0 = 0u64;
    let mut m = manager(&[("trg", &["banan"])]);
    assert_eq!(type_en(&mut m, "banan", t0), Some("trg".into()));
    // The buffers are empty: no second firing without typing again.
    assert_eq!(bufs(&m), (String::new(), String::new()));
    assert_eq!(m.handle_key(&letter('a', None), t0 + T), None);
}

#[test]
fn detects_ru_word_by_physical_keys() {
    let t0 = 0u64;
    // «банан» physically: Comma(б) F(а) Y(н) F(а) Y(н)
    let mut m = manager(&[("trg", &["банан"])]);
    let keys = [Key::Comma, Key::KeyF, Key::KeyY, Key::KeyF, Key::KeyY];
    let mut hit = None;
    for (i, k) in keys.iter().enumerate() {
        hit = m.handle_key(&map_key(*k), t0 + 80 * i as u64);
    }
    assert_eq!(hit, Some("trg".into()));
}

#[test]
fn timeout_clears_buffer() {
    let t0 = 0u64;
    let mut m = manager(&[("trg", &["banan"])]);
    type_en(&mut m, "ban", t0);
    assert_eq!(bufs(&m).0, "ban");
    // A 2.5 s pause: the next key starts from empty buffers.
    let t1 = t0 + 2500;
    assert_eq!(m.handle_key(&letter('a', None), t1), None);
    assert_eq!(bufs(&m).0, "a");
}

#[test]
fn reset_keys_clear_instantly() {
    let t0 = 0u64;
    let mut m = manager(&[("trg", &["banan"])]);
    type_en(&mut m, "bana", t0);
    assert_eq!(m.handle_key(&MappedKey::Reset, t0 + 400), None);
    assert_eq!(bufs(&m), (String::new(), String::new()));
    // After the reset "nan" does not complete "banan".
    type_en(&mut m, "nan", t0 + 500);
    assert_eq!(bufs(&m).0, "nan");
}

#[test]
fn suffix_match_inside_longer_input() {
    let t0 = 0u64;
    let mut m = manager(&[("trg", &["banan"])]);
    assert_eq!(type_en(&mut m, "xxbanan", t0), Some("trg".into()));
}

#[test]
fn longest_word_wins() {
    let t0 = 0u64;
    let mut m = manager(&[("short", &["анан"]), ("long", &["банан"])]);
    let keys = [Key::Comma, Key::KeyF, Key::KeyY, Key::KeyF, Key::KeyY];
    let mut hit = None;
    for (i, k) in keys.iter().enumerate() {
        hit = m.handle_key(&map_key(*k), t0 + 80 * i as u64);
    }
    assert_eq!(hit, Some("long".into()));
}

#[test]
fn no_match_for_partial_word() {
    let t0 = 0u64;
    let mut m = manager(&[("trg", &["banana"])]);
    assert_eq!(type_en(&mut m, "banan", t0), None);
}

#[test]
fn ignore_keys_do_not_touch_buffer_or_timer() {
    let t0 = 0u64;
    let mut m = manager(&[("trg", &["ban"])]);
    type_en(&mut m, "ba", t0);
    // Ignore between letters neither resets nor extends the buffer's life.
    m.handle_key(&MappedKey::Ignore, t0 + 300);
    // 2.2 s after the last letter: the timeout has struck, "ban" is not built.
    let hit = m.handle_key(&letter('n', None), t0 + 2200);
    assert_eq!(hit, None);
    assert_eq!(bufs(&m).0, "n");
}

#[test]
fn phrase_fires_on_last_letter_without_trailing_space() {
    let t0 = 0u64;
    let mut m = manager(&[("trg", &["banana apple"])]);
    // The phrase fires on its last letter: no trailing space needed.
    assert_eq!(type_phrase(&mut m, "banana apple", t0), Some("trg".into()));
    // Buffers emptied: no second firing.
    assert_eq!(bufs(&m), (String::new(), String::new()));
}

#[test]
fn phrase_ru_fires_on_last_letter() {
    let t0 = 0u64;
    // «банан яблоко» physically; the space is MappedKey::Space.
    let mut m = manager(&[("trg", &["банан яблоко"])]);
    // б а н а н
    let w1 = [Key::Comma, Key::KeyF, Key::KeyY, Key::KeyF, Key::KeyY];
    for (i, k) in w1.iter().enumerate() {
        m.handle_key(&map_key(*k), t0 + 80 * i as u64);
    }
    m.handle_key(&MappedKey::Space, t0 + 500);
    // я б л о к о: the phrase fires on the last «о».
    let w2 = [
        Key::KeyZ,  // я
        Key::Comma, // б
        Key::KeyK,  // л
        Key::KeyJ,  // о
        Key::KeyR,  // к
        Key::KeyJ,  // о
    ];
    let last = w2.len() - 1;
    for (i, k) in w2.iter().enumerate() {
        let hit = m.handle_key(&map_key(*k), t0 + 600 + 80 * i as u64);
        if i < last {
            assert_eq!(hit, None, "premature firing on letter {i}");
        } else {
            assert_eq!(hit, Some("trg".into()), "the phrase must fire on its last letter");
        }
    }
}

#[test]
fn phrase_suffix_inside_longer_input() {
    let t0 = 0u64;
    let mut m = manager(&[("trg", &["banana apple"])]);
    // Suffix match: fires on the last letter.
    assert_eq!(type_phrase(&mut m, "xxbanana apple", t0), Some("trg".into()));
}

#[test]
fn single_space_after_word_does_not_commit_phrase() {
    let t0 = 0u64;
    let mut m = manager(&[("trg", &["banana apple"])]);
    // Only the first word and a space: not yet the phrase.
    assert_eq!(type_phrase(&mut m, "banana ", t0), None);
    // The buffer holds "banana " (the space as a separator).
    assert_eq!(bufs(&m).0, "banana ");
}

#[test]
fn space_respects_timeout() {
    let t0 = 0u64;
    let mut m = manager(&[("trg", &["banana apple"])]);
    type_phrase(&mut m, "banana ", t0);
    // A 3 s pause: the buffer is dropped; the space starts from scratch.
    assert_eq!(press_space(&mut m, t0 + 3000), None);
    assert_eq!(bufs(&m).0, "");
}

#[test]
fn single_words_still_work_when_phrases_present() {
    let t0 = 0u64;
    // A word and a phrase of different triggers.
    let mut m = manager(&[("w", &["boom"]), ("p", &["red alert"])]);
    assert_eq!(type_en(&mut m, "boom", t0), Some("w".into()));
    assert_eq!(type_phrase(&mut m, "red alert", t0 + 600), Some("p".into()));
}

#[test]
fn digits_trigger_word() {
    let t0 = 0u64;
    let mut m = manager(&[("trg", &["123"])]);
    assert_eq!(type_en(&mut m, "123", t0), Some("trg".into()));
}

#[test]
fn digits_mixed_with_letters() {
    let t0 = 0u64;
    let mut m = manager(&[("trg", &["abc123"])]);
    assert_eq!(type_en(&mut m, "abc123", t0), Some("trg".into()));
}

#[test]
fn digits_in_phrase() {
    let t0 = 0u64;
    let mut m = manager(&[("trg", &["phase 2 fire"])]);
    assert_eq!(type_phrase(&mut m, "phase 2 fire", t0), Some("trg".into()));
}

// ---- further scenarios ----

#[test]
fn default_timeout_is_two_seconds() {
    assert_eq!(DEFAULT_TIMEOUT, 2000);
    let mut m = BufferManager::new(DEFAULT_TIMEOUT);
    m.set_triggers(&[("x".to_string(), vec!["ab".to_string()])]);
    m.handle_key(&letter('a', None), 0);
    // Exactly the timeout is not a pause "longer than" it.
    assert_eq!(m.handle_key(&letter('b', None), 2000), Some("x".into()));
    m.handle_key(&letter('a', None), 5000);
    assert_eq!(m.handle_key(&letter('b', None), 7001), None);
}

#[test]
fn punctuation_stays_out_of_the_en_buffer() {
    let mut m = manager(&[("trg", &["zzz"])]);
    // The comma key: ',' is not a letter, «б» is.
    m.handle_key(&map_key(Key::Comma), 0);
    assert_eq!(bufs(&m), (String::new(), "б".to_string()));
    m.handle_key(&map_key(Key::KeyF), 10);
    assert_eq!(bufs(&m), ("f".to_string(), "ба".to_string()));
}

#[test]
fn space_without_phrases_drops_the_word() {
    let mut m = manager(&[("trg", &["banan"])]);
    type_en(&mut m, "ban", 0);
    assert_eq!(press_space(&mut m, 400), None);
    assert_eq!(bufs(&m), (String::new(), String::new()));
    assert_eq!(type_en(&mut m, "an", 500), None);
}

#[test]
fn repeated_spaces_add_one_separator() {
    let mut m = manager(&[("trg", &["red alert"])]);
    type_phrase(&mut m, "red   ", 0);
    assert_eq!(bufs(&m).0, "red ");
    // A space on empty buffers adds nothing.
    let mut m = manager(&[("trg", &["red alert"])]);
    press_space(&mut m, 0);
    assert_eq!(bufs(&m).0, "");
    assert_eq!(type_phrase(&mut m, "red  alert", 100), Some("trg".into()));
}

#[test]
fn trigger_texts_are_normalised() {
    let mut m = manager(&[("trg", &["  red \t alert  "]), ("blank", &["   ", ""])]);
    assert_eq!(type_phrase(&mut m, "red alert", 0), Some("trg".into()));
    assert_eq!(type_phrase(&mut m, "   ", 2000), None);
}

#[test]
fn buffer_keeps_the_newest_characters() {
    let mut m = manager(&[("trg", &["end"])]);
    let long: String = std::iter::repeat('x').take(100).collect();
    type_en(&mut m, &long, 0);
    let en = bufs(&m).0;
    assert_eq!(en.chars().count(), MAX_BUFFER_LEN);
    assert_eq!(type_en(&mut m, "end", 10_000), Some("trg".into()));
}

#[test]
fn longest_counts_bytes_and_first_wins_ties() {
    // Same byte length ("abcd" and "cd" differ; "bcd" vs "cd"): longer wins.
    let mut m = manager(&[("cd", &["cd"]), ("bcd", &["bcd"])]);
    assert_eq!(type_en(&mut m, "abcd", 0), Some("bcd".into()));
    // Equal lengths: the first configured wins.
    let mut m = manager(&[("one", &["xy"]), ("two", &["xy"])]);
    assert_eq!(type_en(&mut m, "xy", 0), Some("one".into()));
}

#[test]
fn reload_clears_buffers() {
    let mut m = manager(&[("trg", &["banan"])]);
    type_en(&mut m, "bana", 0);
    m.set_triggers(&[("other".to_string(), vec!["n".to_string()])]);
    assert_eq!(bufs(&m), (String::new(), String::new()));
    m.clear();
    assert_eq!(m.handle_key(&letter('n', None), 500), Some("other".into()));
}

#[test]
fn trigger_texts_are_lower_cased() {
    let mut m = manager(&[("trg", &["Banan", "Red  Alert"])]);
    assert_eq!(type_en(&mut m, "banan", 0), Some("trg".into()));
    assert_eq!(type_phrase(&mut m, "red alert", 1000), Some("trg".into()));
    let mut m = manager(&[("ru", &["БАНАН"])]);
    let keys = [Key::Comma, Key::KeyF, Key::KeyY, Key::KeyF, Key::KeyY];
    let mut hit = None;
    for (i, k) in keys.iter().enumerate() {
        hit = m.handle_key(&map_key(*k), 80 * i as u64);
    }
    assert_eq!(hit, Some("ru".into()));
}

#[test]
fn buffers_hold_only_word_characters_and_single_spaces() {
    // A letter key whose character is not a letter or digit leaves the buffer alone.
    let mut m = manager(&[("trg", &["zz"])]);
    m.handle_key(&letter(' ', Some(',')), 0);
    assert_eq!(bufs(&m), (String::new(), String::new()));
    // Without phrases a space never enters a buffer.
    m.handle_key(&letter('a', None), 10);
    m.handle_key(&MappedKey::Space, 20);
    assert_eq!(bufs(&m).0, "");
}
