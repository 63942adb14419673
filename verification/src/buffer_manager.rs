//! The input buffers and the trigger-word detector.
//!
//! Rules:
//! * Letters arrive already in lower case (see `layout_map`) and trigger texts
//!   are lower-cased when loaded, so detection is case-insensitive.
//! * A pause between key presses longer than the timeout empties the buffers.
//! * Enter / Backspace / Tab / Escape / pure punctuation empty the buffers.
//! * Top-row digits are word characters, like letters.
//! * A single word fires as soon as the buffer ends with it.
//! * A phrase "word word" fires as soon as the buffer ends with it as well; the
//!   space inside the phrase goes into the buffer as a word separator.
//! * After a trigger fires the buffers are emptied, so it cannot fire twice.
//!
//! Two buffers: a physical key gives an EN and/or a RU character, and each
//! character enters its buffer only if it is a letter or digit there (the comma
//! key, RU «б», enters the RU buffer without polluting the EN one).
//!
//! Times are milliseconds on a monotonic clock, supplied by the caller.

use vstd::prelude::*;

use crate::layout_map::MappedKey;
use crate::text::{
    alphanumeric, is_alphanumeric, is_spaced_text, law_normalize_is_spaced, lower_case, normalize,
    normalize_text, to_lower_case, utf8_byte_len, utf8_len,
};

verus! {

/// The input timeout of the specification: 2.0 seconds, in milliseconds.
pub const DEFAULT_TIMEOUT: u64 = 2000;

/// Upper bound on the length of a buffer, in characters (the longest trigger
/// texts are much shorter).
pub const MAX_BUFFER_LEN: usize = 64;

/// One trigger text, with the id of the rule it fires and its UTF-8 length.
struct TriggerEntry {
    id: String,
    target: Vec<char>,
    bytes: u128,
}

/// Detects trigger words and phrases in the stream of key presses.
pub struct BufferManager {
    en_buf: Vec<char>,
    ru_buf: Vec<char>,
    last_key_at: Option<u64>,
    timeout: u64,
    /// Single words `(trigger id, word)`: they fire as a suffix of a buffer.
    words: Vec<TriggerEntry>,
    /// Phrases of two or more words `(trigger id, phrase with single spaces)`.
    phrases: Vec<TriggerEntry>,
    /// Whether there are phrases at all: decides what the space bar does.
    has_phrases: bool,
}

/// The abstract state of a [`BufferManager`].
pub struct ManagerState {
    /// The EN (QWERTY) buffer.
    pub en: Seq<char>,
    /// The RU (ЙЦУКЕН) buffer.
    pub ru: Seq<char>,
    /// The time of the last letter or space, if it still counts.
    pub last_key_at: Option<u64>,
    /// The pause after which the buffers are emptied, in milliseconds.
    pub timeout: u64,
    /// Single-word triggers `(id, word)`, in configuration order.
    pub words: Seq<(Seq<char>, Seq<char>)>,
    /// Phrase triggers `(id, phrase)`, in configuration order.
    pub phrases: Seq<(Seq<char>, Seq<char>)>,
}

/// `Some(s@)` for `Some(s)`.
pub open spec fn opt_view(o: Option<String>) -> Option<Seq<char>> {
    match o {
        Some(s) => Some(s@),
        None => None,
    }
}

/// `b` with `c` appended, keeping only the last `MAX_BUFFER_LEN` characters.
pub open spec fn push_capped_spec(b: Seq<char>, c: char) -> Seq<char> {
    let p = b.push(c);
    if p.len() > MAX_BUFFER_LEN {
        p.subrange(p.len() - MAX_BUFFER_LEN, p.len() as int)
    } else {
        p
    }
}

/// `b` with `c` appended if `c` is a letter or digit.
pub open spec fn push_word_char(b: Seq<char>, c: char) -> Seq<char> {
    if alphanumeric(c) {
        push_capped_spec(b, c)
    } else {
        b
    }
}

/// `b` with a separating space appended, unless it is empty or already ends
/// with a space.
pub open spec fn push_separator(b: Seq<char>) -> Seq<char> {
    if b.len() > 0 && b.last() != ' ' {
        push_capped_spec(b, ' ')
    } else {
        b
    }
}

/// Whether `s` ends with `t`.
pub open spec fn ends_with(s: Seq<char>, t: Seq<char>) -> bool {
    t.len() <= s.len() && s.subrange(s.len() - t.len(), s.len() as int) == t
}

/// Whether one of the buffers ends with `t`.
pub open spec fn hits(en: Seq<char>, ru: Seq<char>, t: Seq<char>) -> bool {
    ends_with(en, t) || ends_with(ru, t)
}

/// Entry `i` of `es` is hit, no hit entry is longer (in UTF-8 bytes), and
/// every hit entry before it is strictly shorter: the first longest hit.
pub open spec fn is_longest_hit(
    en: Seq<char>,
    ru: Seq<char>,
    es: Seq<(Seq<char>, Seq<char>)>,
    i: int,
) -> bool {
    &&& 0 <= i < es.len()
    &&& hits(en, ru, es[i].1)
    &&& forall|j: int|
        0 <= j < es.len() && #[trigger] hits(en, ru, es[j].1) ==> utf8_len(es[j].1) <= utf8_len(
            es[i].1,
        ) && (j < i ==> utf8_len(es[j].1) < utf8_len(es[i].1))
}

/// The id of the first longest entry of `es` that a buffer ends with, if any
/// ("бананы" is not taken over by "анан").
pub open spec fn longest_hit(en: Seq<char>, ru: Seq<char>, es: Seq<(Seq<char>, Seq<char>)>) -> Option<
    Seq<char>,
> {
    if exists|i: int| is_longest_hit(en, ru, es, i) {
        Some(es[choose|i: int| is_longest_hit(en, ru, es, i)].0)
    } else {
        None
    }
}

impl ManagerState {
    /// The same state with both buffers empty.
    pub open spec fn cleared(self) -> ManagerState {
        ManagerState { en: seq![], ru: seq![], ..self }
    }

    /// All trigger texts in the order they are tried: words, then phrases.
    pub open spec fn entries(self) -> Seq<(Seq<char>, Seq<char>)> {
        self.words + self.phrases
    }

    /// The pause since the last counted key exceeds the timeout at `now`
    /// (a clock that went backwards counts as no pause).
    pub open spec fn timed_out(self, now: u64) -> bool {
        self.last_key_at matches Some(t) && now - t > self.timeout
    }

    /// The state that a key pressed at `now` finds: emptied after a pause.
    pub open spec fn after_pause(self, now: u64) -> ManagerState {
        if self.timed_out(now) {
            self.cleared()
        } else {
            self
        }
    }

    /// Checks the buffers for a trigger; on a hit the buffers are emptied and
    /// the id is returned.
    pub open spec fn fire(self) -> (ManagerState, Option<Seq<char>>) {
        match longest_hit(self.en, self.ru, self.entries()) {
            Some(id) => (self.cleared(), Some(id)),
            None => (self, None),
        }
    }

    /// The buffers after a key carrying `en` (QWERTY) and `ru` (ЙЦУКЕН) at
    /// `now`, before the check for a trigger: each character that is a letter
    /// or digit enters its buffer.
    pub open spec fn after_letter(self, en: char, ru: Option<char>, now: u64) -> ManagerState {
        let t = self.after_pause(now);
        ManagerState {
            en: push_word_char(t.en, en),
            ru: match ru {
                Some(r) => push_word_char(t.ru, r),
                None => t.ru,
            },
            last_key_at: Some(now),
            ..t
        }
    }

    /// The buffers after the space bar at `now`: with phrases configured each
    /// non-empty buffer gets one separating space; without phrases they are
    /// emptied.
    pub open spec fn after_space(self, now: u64) -> ManagerState {
        let t = self.after_pause(now);
        if self.phrases.len() > 0 {
            ManagerState {
                en: push_separator(t.en),
                ru: push_separator(t.ru),
                last_key_at: Some(now),
                ..t
            }
        } else {
            ManagerState { last_key_at: Some(now), ..t.cleared() }
        }
    }

    /// The state after the key `key` pressed at `now`, and the trigger it fires.
    pub open spec fn step(self, key: MappedKey, now: u64) -> (ManagerState, Option<Seq<char>>) {
        match key {
            MappedKey::Letter { en, ru } => self.after_letter(en, ru, now).fire(),
            MappedKey::Space => if self.phrases.len() > 0 {
                self.after_space(now).fire()
            } else {
                (self.after_space(now), None)
            },
            MappedKey::Reset => (ManagerState { last_key_at: None, ..self.cleared() }, None),
            MappedKey::Ignore => (self, None),
        }
    }
}

/// `(id, target)` of each entry.
spec fn entries_view(v: Seq<TriggerEntry>) -> Seq<(Seq<char>, Seq<char>)> {
    v.map_values(|e: TriggerEntry| (e.id@, e.target@))
}

/// Every entry records the UTF-8 length of its text.
closed spec fn lengths_recorded(v: Seq<TriggerEntry>) -> bool {
    forall|i: int| 0 <= i < v.len() ==> #[trigger] v[i].bytes == utf8_len(v[i].target@)
}

/// The entries `(id, normalize(lower_case(w)))` of one rule, for its texts `ws`
/// that are not blank after normalisation and are phrases (contain a space) exactly
/// when `phrase` holds.
pub open spec fn rule_entries(id: Seq<char>, ws: Seq<String>, phrase: bool) -> Seq<
    (Seq<char>, Seq<char>),
>
    decreases ws.len(),
{
    if ws.len() == 0 {
        seq![]
    } else {
        let init = rule_entries(id, ws.drop_last(), phrase);
        let n = normalize(lower_case(ws.last()@));
        if n.len() > 0 && n.contains(' ') == phrase {
            init.push((id, n))
        } else {
            init
        }
    }
}

/// The entries of all rules `(id, texts)`, in order.
pub open spec fn trigger_entries(ts: Seq<(String, Vec<String>)>, phrase: bool) -> Seq<
    (Seq<char>, Seq<char>),
>
    decreases ts.len(),
{
    if ts.len() == 0 {
        seq![]
    } else {
        trigger_entries(ts.drop_last(), phrase) + rule_entries(ts.last().0@, ts.last().1@, phrase)
    }
}


/// No entry among the first `k` of `es` is hit.
spec fn no_hit_before(en: Seq<char>, ru: Seq<char>, es: Seq<(Seq<char>, Seq<char>)>, k: int) -> bool {
    forall|j: int| 0 <= j < k ==> !#[trigger] hits(en, ru, es[j].1)
}

/// Entry `b` is the first longest hit among the first `k` entries of `es`.
spec fn best_before(
    en: Seq<char>,
    ru: Seq<char>,
    es: Seq<(Seq<char>, Seq<char>)>,
    k: int,
    b: int,
) -> bool {
    &&& 0 <= b < k
    &&& hits(en, ru, es[b].1)
    &&& forall|j: int|
        0 <= j < k && #[trigger] hits(en, ru, es[j].1) ==> utf8_len(es[j].1) <= utf8_len(es[b].1)
            && (j < b ==> utf8_len(es[j].1) < utf8_len(es[b].1))
}

/// There is at most one first longest hit.
proof fn lemma_longest_hit_unique(
    en: Seq<char>,
    ru: Seq<char>,
    es: Seq<(Seq<char>, Seq<char>)>,
    i: int,
    k: int,
)
    requires
        is_longest_hit(en, ru, es, i),
        is_longest_hit(en, ru, es, k),
    ensures
        i == k,
{
    assert(hits(en, ru, es[i].1));
    assert(hits(en, ru, es[k].1));
}

/// The first longest hit, when it is entry `b`, gives `b`'s id.
proof fn lemma_longest_hit_is(en: Seq<char>, ru: Seq<char>, es: Seq<(Seq<char>, Seq<char>)>, b: int)
    requires
        is_longest_hit(en, ru, es, b),
    ensures
        longest_hit(en, ru, es) == Some(es[b].0),
{
    let c = choose|i: int| is_longest_hit(en, ru, es, i);
    lemma_longest_hit_unique(en, ru, es, b, c);
}

/// Without any hit there is no longest hit.
proof fn lemma_no_hit_none(en: Seq<char>, ru: Seq<char>, es: Seq<(Seq<char>, Seq<char>)>)
    requires
        no_hit_before(en, ru, es, es.len() as int),
    ensures
        longest_hit(en, ru, es) is None,
{
    assert forall|i: int| !is_longest_hit(en, ru, es, i) by {
        if 0 <= i < es.len() {
            assert(!hits(en, ru, es[i].1));
        }
    }
}

/// The entry that one step of the search looks at next, and how the search
/// state moves on past it.
proof fn lemma_search_step(
    en: Seq<char>,
    ru: Seq<char>,
    es: Seq<(Seq<char>, Seq<char>)>,
    k: int,
    found: bool,
    b: int,
    take: bool,
)
    requires
        0 <= k < es.len(),
        !found ==> no_hit_before(en, ru, es, k),
        found ==> best_before(en, ru, es, k, b),
        take == (hits(en, ru, es[k].1) && (!found || utf8_len(es[k].1) > utf8_len(es[b].1))),
    ensures
        take ==> best_before(en, ru, es, k + 1, k),
        !take && !found ==> no_hit_before(en, ru, es, k + 1),
        !take && found ==> best_before(en, ru, es, k + 1, b),
{
    if take {
        assert forall|j: int|
            0 <= j < k + 1 && #[trigger] hits(en, ru, es[j].1) implies utf8_len(es[j].1)
            <= utf8_len(es[k].1) && (j < k ==> utf8_len(es[j].1) < utf8_len(es[k].1)) by {
            if j < k {
                assert(found);
            }
        }
    }
}

/// Searching the first `k` entries finds either no hit or their first longest hit.
proof fn lemma_search_prefix(en: Seq<char>, ru: Seq<char>, es: Seq<(Seq<char>, Seq<char>)>, k: int) -> (r: (
    bool,
    int,
))
    requires
        0 <= k <= es.len(),
    ensures
        !r.0 ==> no_hit_before(en, ru, es, k),
        r.0 ==> best_before(en, ru, es, k, r.1),
    decreases k,
{
    if k == 0 {
        (false, 0)
    } else {
        let (found, b) = lemma_search_prefix(en, ru, es, k - 1);
        let take = hits(en, ru, es[k - 1].1) && (!found || utf8_len(es[k - 1].1) > utf8_len(
            es[b].1,
        ));
        lemma_search_step(en, ru, es, k - 1, found, b, take);
        if take {
            (true, k - 1)
        } else {
            (found, b)
        }
    }
}

/// Law: checking the buffers fires exactly when one of them ends with a
/// trigger text; it then reports the id of the first longest such text and
/// empties both buffers, so the same input cannot fire twice.
pub proof fn law_fire_on_suffix(s: ManagerState)
    ensures
        s.fire().1 is Some <==> exists|i: int|
            0 <= i < s.entries().len() && #[trigger] hits(s.en, s.ru, s.entries()[i].1),
        s.fire().1 matches Some(id) ==> exists|i: int|
            #[trigger] is_longest_hit(s.en, s.ru, s.entries(), i) && s.entries()[i].0 == id,
        s.fire().1 is Some ==> s.fire().0 == s.cleared(),
        s.fire().1 is None ==> s.fire().0 == s,
{
    let es = s.entries();
    let (found, b) = lemma_search_prefix(s.en, s.ru, es, es.len() as int);
    if found {
        lemma_longest_hit_is(s.en, s.ru, es, b);
        assert(hits(s.en, s.ru, es[b].1));
    } else {
        lemma_no_hit_none(s.en, s.ru, es);
        assert forall|i: int| 0 <= i < es.len() implies !#[trigger] hits(s.en, s.ru, es[i].1) by {}
    }
}

/// Law: a letter that completes a word or phrase fires at once, with no
/// trailing space needed, and the buffers are left empty.
pub proof fn law_letter_completing_trigger_fires(s: ManagerState, en: char, ru: Option<char>, now: u64, i: int)
    requires
        0 <= i < s.entries().len(),
        hits(s.after_letter(en, ru, now).en, s.after_letter(en, ru, now).ru, s.entries()[i].1),
    ensures
        s.step(MappedKey::Letter { en, ru }, now).1 is Some,
        s.step(MappedKey::Letter { en, ru }, now).0.en.len() == 0,
        s.step(MappedKey::Letter { en, ru }, now).0.ru.len() == 0,
{
    let t = s.after_letter(en, ru, now);
    assert(t.entries() == s.entries());
    law_fire_on_suffix(t);
}

/// Law: whatever key fires a trigger, both buffers are empty afterwards.
pub proof fn law_fired_trigger_clears_buffers(s: ManagerState, key: MappedKey, now: u64)
    ensures
        s.step(key, now).1 is Some ==> s.step(key, now).0.en.len() == 0 && s.step(key, now).0.ru.len()
            == 0,
{
    match key {
        MappedKey::Letter { en, ru } => law_fire_on_suffix(s.after_letter(en, ru, now)),
        MappedKey::Space => law_fire_on_suffix(s.after_space(now)),
        _ => {},
    }
}

/// Law: keys that the buffers ignore change nothing, the pause timer included.
pub proof fn law_ignore_changes_nothing(s: ManagerState, now: u64)
    ensures
        s.step(MappedKey::Ignore, now) == (s, None::<Seq<char>>),
{
}

/// Law: a reset key empties both buffers at once, forgets the time of the
/// last key and fires nothing.
pub proof fn law_reset_clears(s: ManagerState, now: u64)
    ensures
        s.step(MappedKey::Reset, now).0.en.len() == 0,
        s.step(MappedKey::Reset, now).0.ru.len() == 0,
        s.step(MappedKey::Reset, now).0.last_key_at is None,
        s.step(MappedKey::Reset, now).1 is None,
{
}

/// Law: after a pause longer than the timeout, a letter or space acts as if
/// nothing had been typed before it.
pub proof fn law_pause_forgets_input(s: ManagerState, key: MappedKey, now: u64)
    requires
        s.timed_out(now),
        key is Letter || key is Space,
    ensures
        s.step(key, now) == s.cleared().step(key, now),
{
    assert(s.cleared().after_pause(now) == s.cleared());
    assert(s.after_pause(now) == s.cleared());
}

/// Law: without phrases the space bar drops the pending word and fires nothing.
pub proof fn law_space_without_phrases_clears(s: ManagerState, now: u64)
    requires
        s.phrases.len() == 0,
    ensures
        s.step(MappedKey::Space, now).0.en.len() == 0,
        s.step(MappedKey::Space, now).0.ru.len() == 0,
        s.step(MappedKey::Space, now).1 is None,
{
}

/// Law: typing never changes the configured triggers or the timeout, and
/// the buffers stay within `MAX_BUFFER_LEN` characters.
pub proof fn law_typing_keeps_configuration(s: ManagerState, key: MappedKey, now: u64)
    requires
        s.en.len() <= MAX_BUFFER_LEN,
        s.ru.len() <= MAX_BUFFER_LEN,
    ensures
        s.step(key, now).0.words == s.words,
        s.step(key, now).0.phrases == s.phrases,
        s.step(key, now).0.timeout == s.timeout,
        s.step(key, now).0.en.len() <= MAX_BUFFER_LEN,
        s.step(key, now).0.ru.len() <= MAX_BUFFER_LEN,
{
}

/// A configured trigger text as `set_triggers` stores it: non-empty, a phrase
/// (holding a space) exactly when `phrase`, normalised, with the id of one of
/// the rules of `ts`.
pub open spec fn is_configured_entry(
    ts: Seq<(String, Vec<String>)>,
    phrase: bool,
    e: (Seq<char>, Seq<char>),
) -> bool {
    &&& e.1.len() > 0
    &&& e.1.contains(' ') == phrase
    &&& is_spaced_text(e.1)
    &&& exists|r: int| 0 <= r < ts.len() && e.0 == #[trigger] ts[r].0@
}

/// The entries of one rule have its id and the shape of configured texts.
proof fn lemma_rule_entries(id: Seq<char>, ws: Seq<String>, phrase: bool)
    ensures
        forall|i: int|
            0 <= i < rule_entries(id, ws, phrase).len() ==> {
                let e = #[trigger] rule_entries(id, ws, phrase)[i];
                &&& e.0 == id
                &&& e.1.len() > 0
                &&& e.1.contains(' ') == phrase
                &&& is_spaced_text(e.1)
            },
    decreases ws.len(),
{
    if ws.len() > 0 {
        lemma_rule_entries(id, ws.drop_last(), phrase);
        law_normalize_is_spaced(lower_case(ws.last()@));
        let init = rule_entries(id, ws.drop_last(), phrase);
        assert forall|i: int| 0 <= i < rule_entries(id, ws, phrase).len() implies {
            let e = #[trigger] rule_entries(id, ws, phrase)[i];
            &&& e.0 == id
            &&& e.1.len() > 0
            &&& e.1.contains(' ') == phrase
            &&& is_spaced_text(e.1)
        } by {
            if i < init.len() {
                assert(rule_entries(id, ws, phrase)[i] == init[i]);
            }
        }
    }
}

/// Law: `set_triggers` stores as words only non-empty texts without spaces
/// and as phrases only texts with a space, all with normalised whitespace and
/// the id of a configured rule.
pub proof fn law_configured_entries(ts: Seq<(String, Vec<String>)>, phrase: bool)
    ensures
        forall|i: int|
            0 <= i < trigger_entries(ts, phrase).len() ==> is_configured_entry(
                ts,
                phrase,
                #[trigger] trigger_entries(ts, phrase)[i],
            ),
    decreases ts.len(),
{
    if ts.len() > 0 {
        let init = ts.drop_last();
        law_configured_entries(init, phrase);
        let last = ts.last();
        lemma_rule_entries(last.0@, last.1@, phrase);
        let a = trigger_entries(init, phrase);
        let b = rule_entries(last.0@, last.1@, phrase);
        assert forall|i: int| 0 <= i < trigger_entries(ts, phrase).len() implies is_configured_entry(
            ts,
            phrase,
            #[trigger] trigger_entries(ts, phrase)[i],
        ) by {
            let e = trigger_entries(ts, phrase)[i];
            if i < a.len() {
                assert(e == a[i]);
                assert(is_configured_entry(init, phrase, a[i]));
                let r = choose|r: int| 0 <= r < init.len() && a[i].0 == #[trigger] init[r].0@;
                assert(ts[r] == init[r]);
            } else {
                assert(e == b[i - a.len()]);
                assert(ts[ts.len() - 1] == last);
            }
        }
    }
}

/// A buffer as the manager keeps it: at most `MAX_BUFFER_LEN` characters,
/// each a letter or digit, or (only when phrases are configured) a single
/// separating space never followed by another.
pub open spec fn clean_buffer(b: Seq<char>, spaces_allowed: bool) -> bool {
    &&& b.len() <= MAX_BUFFER_LEN
    &&& forall|k: int|
        0 <= k < b.len() ==> if #[trigger] b[k] == ' ' {
            spaces_allowed && (k + 1 < b.len() ==> b[k + 1] != ' ')
        } else {
            alphanumeric(b[k])
        }
}

/// Appending a letter or digit, or a space after a non-space when spaces are
/// allowed, keeps a buffer clean.
proof fn lemma_clean_push(b: Seq<char>, c: char, sa: bool)
    requires
        clean_buffer(b, sa),
        c != ' ' ==> alphanumeric(c),
        c == ' ' ==> sa && b.len() > 0 && b.last() != ' ',
    ensures
        clean_buffer(push_capped_spec(b, c), sa),
{
    let p = b.push(c);
    assert forall|k: int| 0 <= k < p.len() implies if #[trigger] p[k] == ' ' {
        sa && (k + 1 < p.len() ==> p[k + 1] != ' ')
    } else {
        alphanumeric(p[k])
    } by {
        if k < b.len() {
            assert(p[k] == b[k]);
            if k + 1 < b.len() {
                assert(p[k + 1] == b[k + 1]);
            }
        }
    }
    if p.len() > MAX_BUFFER_LEN {
        let off = p.len() - MAX_BUFFER_LEN;
        let q = p.subrange(off, p.len() as int);
        assert forall|k: int| 0 <= k < q.len() implies if #[trigger] q[k] == ' ' {
            sa && (k + 1 < q.len() ==> q[k + 1] != ' ')
        } else {
            alphanumeric(q[k])
        } by {
            assert(q[k] == p[k + off]);
            if k + 1 < q.len() {
                assert(q[k + 1] == p[k + 1 + off]);
            }
            if p[k + off] == ' ' {
            }
        }
    }
}

impl ManagerState {
    /// Both buffers are clean, with spaces allowed only when phrases are
    /// configured.
    pub open spec fn buffers_clean(self) -> bool {
        clean_buffer(self.en, self.phrases.len() > 0) && clean_buffer(self.ru, self.phrases.len() > 0)
    }
}

/// Law: every key keeps the buffers clean, so across any sequence of calls
/// the buffers hold at most `MAX_BUFFER_LEN` characters, only letters, digits
/// and single spaces, and spaces only when phrases are configured.
pub proof fn law_buffers_stay_clean(s: ManagerState, key: MappedKey, now: u64)
    requires
        s.buffers_clean(),
    ensures
        s.step(key, now).0.buffers_clean(),
{
    let sa = s.phrases.len() > 0;
    assert(clean_buffer(seq![], sa));
    assert(!alphanumeric(' '));
    let t = s.after_pause(now);
    assert(clean_buffer(t.en, sa) && clean_buffer(t.ru, sa));
    match key {
        MappedKey::Letter { en, ru } => {
            if alphanumeric(en) {
                lemma_clean_push(t.en, en, sa);
            }
            match ru {
                Some(r) => {
                    if alphanumeric(r) {
                        lemma_clean_push(t.ru, r, sa);
                    }
                },
                None => {},
            }
            law_fire_on_suffix(s.after_letter(en, ru, now));
        },
        MappedKey::Space => {
            if sa {
                if t.en.len() > 0 && t.en.last() != ' ' {
                    lemma_clean_push(t.en, ' ', sa);
                }
                if t.ru.len() > 0 && t.ru.last() != ' ' {
                    lemma_clean_push(t.ru, ' ', sa);
                }
                law_fire_on_suffix(s.after_space(now));
            }
        },
        _ => {},
    }
}

/// Searches `list`, entries `base ..` of `es`, for the first longest hit,
/// continuing from the best entry `best` (entry `b` of `es`) found before.
fn scan_entries<'a>(
    list: &'a Vec<TriggerEntry>,
    en_buf: &Vec<char>,
    ru_buf: &Vec<char>,
    best: Option<&'a TriggerEntry>,
    Ghost(es): Ghost<Seq<(Seq<char>, Seq<char>)>>,
    Ghost(base): Ghost<int>,
    Ghost(b): Ghost<int>,
) -> (res: (Option<&'a TriggerEntry>, Ghost<int>))
    requires
        lengths_recorded(list@),
        0 <= base,
        base + list.len() <= es.len(),
        es.subrange(base, base + list.len()) == entries_view(list@),
        best is None ==> no_hit_before(en_buf@, ru_buf@, es, base),
        best matches Some(e) ==> best_before(en_buf@, ru_buf@, es, base, b) && es[b] == (
            e.id@,
            e.target@,
        ) && e.bytes == utf8_len(e.target@),
    ensures
        res.0 is None ==> no_hit_before(en_buf@, ru_buf@, es, base + list.len()),
        res.0 matches Some(e) ==> best_before(en_buf@, ru_buf@, es, base + list.len(), res.1@)
            && es[res.1@] == (e.id@, e.target@) && e.bytes == utf8_len(e.target@),
{
    let ghost en = en_buf@;
    let ghost ru = ru_buf@;
    let mut best = best;
    let ghost mut b = b;
    let mut k: usize = 0;
    while k < list.len()
        invariant
            lengths_recorded(list@),
            0 <= base,
            base + list.len() <= es.len(),
            es.subrange(base, base + list.len()) == entries_view(list@),
            en == en_buf@,
            ru == ru_buf@,
            k <= list.len(),
            best is None ==> no_hit_before(en, ru, es, base + k),
            best matches Some(e) ==> best_before(en, ru, es, base + k, b) && es[b] == (
                e.id@,
                e.target@,
            ) && e.bytes == utf8_len(e.target@),
        decreases list.len() - k,
    {
        let e = &list[k];
        assert(es[base + k] == es.subrange(base, base + list.len())[k as int]);
        assert(e.bytes == utf8_len(e.target@));
        let hit = ends_with_chars(en_buf, &e.target) || ends_with_chars(ru_buf, &e.target);
        let take = hit && match best {
            None => true,
            Some(cur) => e.bytes > cur.bytes,
        };
        proof {
            lemma_search_step(en, ru, es, base + k, best is Some, b, take);
        }
        if take {
            best = Some(e);
            proof {
                b = base + k;
            }
        }
        k = k + 1;
    }
    (best, Ghost(b))
}

/// Law (pause rule, letters): a letter or digit key always restarts the pause
/// timer at its own time. When it fires nothing, its character is appended to
/// the EN buffer as typed so far if the pause since the last counted key is at
/// most the manager's own timeout, and starts an empty buffer after a longer
/// pause; a character that is not a letter or digit leaves the (possibly
/// emptied) buffer as it was.
pub proof fn law_letter_timing(s: ManagerState, en: char, ru: Option<char>, now: u64)
    ensures
        s.step(MappedKey::Letter { en, ru }, now).0.last_key_at == Some(now),
        s.step(MappedKey::Letter { en, ru }, now).0.timeout == s.timeout,
        ({
            let r = s.step(MappedKey::Letter { en, ru }, now);
            let paused = s.last_key_at matches Some(t) && now - t > s.timeout;
            r.1 is None ==> {
                &&& paused && alphanumeric(en) ==> r.0.en == seq![en]
                &&& paused && !alphanumeric(en) ==> r.0.en == Seq::<char>::empty()
                &&& !paused && alphanumeric(en) && s.en.len() < MAX_BUFFER_LEN ==> r.0.en
                    == s.en.push(en)
                &&& !paused && !alphanumeric(en) ==> r.0.en == s.en
            }
        }),
{
    let t = s.after_letter(en, ru, now);
    assert(push_capped_spec(Seq::<char>::empty(), en) =~= seq![en]);
}

/// Law (pause rule, space): the space bar always restarts the pause timer at
/// its own time, phrases configured or not. After a pause longer than the
/// manager's own timeout the buffers are empty afterwards; within the timeout
/// and with phrases configured, a space that fires nothing appends one
/// separator to an EN buffer that holds text not ending in a space.
pub proof fn law_space_timing(s: ManagerState, now: u64)
    ensures
        s.step(MappedKey::Space, now).0.last_key_at == Some(now),
        s.step(MappedKey::Space, now).0.timeout == s.timeout,
        ({
            let r = s.step(MappedKey::Space, now);
            let paused = s.last_key_at matches Some(t) && now - t > s.timeout;
            &&& paused ==> r.0.en.len() == 0 && r.0.ru.len() == 0
            &&& !paused && s.phrases.len() > 0 && r.1 is None && s.en.len() > 0 && s.en.last()
                != ' ' && s.en.len() < MAX_BUFFER_LEN ==> r.0.en == s.en.push(' ')
            &&& !paused && s.phrases.len() > 0 && r.1 is None && (s.en.len() == 0 || s.en.last()
                == ' ') ==> r.0.en == s.en
        }),
{
    if s.phrases.len() > 0 {
        law_fire_on_suffix(s.after_space(now));
    }
}

/// The number of texts of the rules `ts` that are not blank once lower-cased
/// and normalised.
pub open spec fn nonblank_text_count(ts: Seq<(String, Vec<String>)>) -> nat
    decreases ts.len(),
{
    if ts.len() == 0 {
        0
    } else {
        nonblank_text_count(ts.drop_last()) + nonblank_count(ts.last().1@)
    }
}

/// The number of texts of `ws` that are not blank once lower-cased and normalised.
pub open spec fn nonblank_count(ws: Seq<String>) -> nat
    decreases ws.len(),
{
    if ws.len() == 0 {
        0
    } else {
        nonblank_count(ws.drop_last()) + if normalize(lower_case(ws.last()@)).len() > 0 {
            1nat
        } else {
            0nat
        }
    }
}

/// Each non-blank text of a rule yields exactly one entry, as a word or as a
/// phrase, and each of them is there.
proof fn lemma_rule_entries_complete(id: Seq<char>, ws: Seq<String>, j: int)
    ensures
        rule_entries(id, ws, false).len() + rule_entries(id, ws, true).len() == nonblank_count(ws),
        0 <= j < ws.len() && normalize(lower_case(ws[j]@)).len() > 0 ==> rule_entries(
            id,
            ws,
            normalize(lower_case(ws[j]@)).contains(' '),
        ).contains((id, normalize(lower_case(ws[j]@)))),
    decreases ws.len(),
{
    if ws.len() > 0 {
        lemma_rule_entries_complete(id, ws.drop_last(), j);
        let n = normalize(lower_case(ws[j]@));
        if 0 <= j < ws.len() && n.len() > 0 {
            let init = rule_entries(id, ws.drop_last(), n.contains(' '));
            if j == ws.len() - 1 {
                assert(rule_entries(id, ws, n.contains(' ')) == init.push((id, n)));
                assert(rule_entries(id, ws, n.contains(' '))[init.len() as int] == (id, n));
            } else {
                assert(ws.drop_last()[j] == ws[j]);
                let k = choose|k: int| 0 <= k < init.len() && init[k] == (id, n);
                assert(rule_entries(id, ws, n.contains(' '))[k] == (id, n));
            }
        }
    }
}

/// Law (completeness of the dictionary): every text of every rule that is
/// not blank once lower-cased and normalised is stored, with its rule's id,
/// as a word when it has no space and as a phrase when it has one; and the
/// words and phrases together are exactly as many as those texts.
pub proof fn law_every_text_is_configured(ts: Seq<(String, Vec<String>)>, i: int, j: int)
    ensures
        trigger_entries(ts, false).len() + trigger_entries(ts, true).len() == nonblank_text_count(ts),
        0 <= i < ts.len() && 0 <= j < ts[i].1@.len() && normalize(lower_case(ts[i].1@[j]@)).len()
            > 0 ==> trigger_entries(ts, normalize(lower_case(ts[i].1@[j]@)).contains(' ')).contains(
            (ts[i].0@, normalize(lower_case(ts[i].1@[j]@))),
        ),
    decreases ts.len(),
{
    if ts.len() > 0 {
        let init = ts.drop_last();
        let last = ts.last();
        law_every_text_is_configured(init, i, j);
        lemma_rule_entries_complete(last.0@, last.1@, j);
        if 0 <= i < ts.len() && 0 <= j < ts[i].1@.len() && normalize(lower_case(ts[i].1@[j]@)).len()
            > 0 {
            let n = normalize(lower_case(ts[i].1@[j]@));
            let ph = n.contains(' ');
            let a = trigger_entries(init, ph);
            let b = rule_entries(last.0@, last.1@, ph);
            assert(trigger_entries(ts, ph) == a + b);
            if i == ts.len() - 1 {
                let k = choose|k: int| 0 <= k < b.len() && b[k] == (ts[i].0@, n);
                assert((a + b)[a.len() + k] == b[k]);
            } else {
                assert(init[i] == ts[i]);
                let k = choose|k: int| 0 <= k < a.len() && a[k] == (ts[i].0@, n);
                assert((a + b)[k] == a[k]);
            }
        }
    }
}

/// Appends `c` to `buf`, keeping at most `MAX_BUFFER_LEN` characters (the oldest go).
fn push_capped(buf: &mut Vec<char>, c: char)
    ensures
        final(buf)@ == push_capped_spec(old(buf)@, c),
{
    buf.push(c);
    let len = buf.len();
    if len > MAX_BUFFER_LEN {
        let tail = buf.split_off(len - MAX_BUFFER_LEN);
        *buf = tail;
    }
}

/// Whether `s` ends with `t`.
fn ends_with_chars(s: &Vec<char>, t: &Vec<char>) -> (r: bool)
    ensures
        r == ends_with(s@, t@),
{
    if t.len() > s.len() {
        return false;
    }
    let off = s.len() - t.len();
    let mut k: usize = 0;
    while k < t.len()
        invariant
            off + t.len() == s.len(),
            k <= t.len(),
            forall|m: int| 0 <= m < k ==> s@[off + m] == t@[m],
        decreases t.len() - k,
    {
        if s[off + k] != t[k] {
            assert(s@.subrange(off as int, s.len() as int)[k as int] != t@[k as int]);
            return false;
        }
        k = k + 1;
    }
    assert(s@.subrange(off as int, s.len() as int) =~= t@);
    true
}

/// Whether `v` holds a space.
fn contains_space(v: &Vec<char>) -> (r: bool)
    ensures
        r == v@.contains(' '),
{
    let mut k: usize = 0;
    while k < v.len()
        invariant
            k <= v.len(),
            forall|m: int| 0 <= m < k ==> v@[m] != ' ',
        decreases v.len() - k,
    {
        if v[k] == ' ' {
            return true;
        }
        k = k + 1;
    }
    false
}

/// `String::push`: appends `c` to the string.
#[verifier::external_body]
fn string_push(s: &mut String, c: char)
    ensures
        final(s)@ == old(s)@.push(c),
{
    s.push(c);
}

/// The characters of `v` as a string.
fn chars_to_string(v: &Vec<char>) -> (s: String)
    ensures
        s@ == v@,
{
    let mut s = String::new();
    let mut k: usize = 0;
    while k < v.len()
        invariant
            k <= v.len(),
            s@ == v@.take(k as int),
        decreases v.len() - k,
    {
        string_push(&mut s, v[k]);
        assert(v@.take(k + 1) =~= v@.take(k as int).push(v@[k as int]));
        k = k + 1;
    }
    assert(v@.take(v.len() as int) =~= v@);
    s
}

impl View for BufferManager {
    type V = ManagerState;

    closed spec fn view(&self) -> ManagerState {
        ManagerState {
            en: self.en_buf@,
            ru: self.ru_buf@,
            last_key_at: self.last_key_at,
            timeout: self.timeout,
            words: entries_view(self.words@),
            phrases: entries_view(self.phrases@),
        }
    }
}

impl BufferManager {
    /// The manager's internal invariant: clean buffers within their bound,
    /// the phrase flag up to date, the recorded text lengths right.
    #[verifier::type_invariant]
    spec fn inv(&self) -> bool {
        &&& clean_buffer(self.en_buf@, self.has_phrases)
        &&& clean_buffer(self.ru_buf@, self.has_phrases)
        &&& self.has_phrases == (self.phrases.len() > 0)
        &&& lengths_recorded(self.words@)
        &&& lengths_recorded(self.phrases@)
    }

    /// A manager with empty buffers, no triggers and the given pause timeout
    /// (milliseconds).
    pub fn new(timeout: u64) -> (m: Self)
        ensures
            m@ == (ManagerState {
                en: seq![],
                ru: seq![],
                last_key_at: None,
                timeout,
                words: seq![],
                phrases: seq![],
            }),
            m@.buffers_clean(),
    {
        let m = BufferManager {
            en_buf: Vec::new(),
            ru_buf: Vec::new(),
            last_key_at: None,
            timeout,
            words: Vec::new(),
            phrases: Vec::new(),
            has_phrases: false,
        };
        assert(entries_view(m.words@) =~= seq![]);
        assert(entries_view(m.phrases@) =~= seq![]);
        m
    }

    /// The trigger id of the first longest word or phrase (words tried first,
    /// lengths in UTF-8 bytes) that one of the buffers ends with.
    fn find_match(&self) -> (r: Option<String>)
        ensures
            opt_view(r) == longest_hit(self@.en, self@.ru, self@.entries()),
    {
        proof {
            use_type_invariant(self);
        }
        let ghost es = self@.entries();
        assert(es.subrange(0, self.words.len() as int) =~= entries_view(self.words@));
        assert(es.subrange(self.words.len() as int, es.len() as int) =~= entries_view(
            self.phrases@,
        ));
        let (best, Ghost(b)) = scan_entries(
            &self.words,
            &self.en_buf,
            &self.ru_buf,
            None,
            Ghost(es),
            Ghost(0),
            Ghost(0),
        );
        let (best, Ghost(b)) = scan_entries(
            &self.phrases,
            &self.en_buf,
            &self.ru_buf,
            best,
            Ghost(es),
            Ghost(self.words.len() as int),
            Ghost(b),
        );
        match best {
            Some(e) => {
                proof {
                    lemma_longest_hit_is(self@.en, self@.ru, es, b);
                }
                Some(e.id.clone())
            },
            None => {
                proof {
                    lemma_no_hit_none(self@.en, self@.ru, es);
                }
                None
            },
        }
    }

    /// Empties the buffers if the pause since the last counted key, at `now`,
    /// is longer than the timeout.
    fn expire(&mut self, now: u64)
        ensures
            final(self)@ == old(self)@.after_pause(now),
    {
        let timed_out = match self.last_key_at {
            Some(t) => now > t && now - t > self.timeout,
            None => false,
        };
        if timed_out {
            self.clear();
        }
    }

    /// Empties the buffers and returns the id if a trigger is hit.
    fn fire(&mut self) -> (r: Option<String>)
        ensures
            (final(self)@, opt_view(r)) == old(self)@.fire(),
    {
        let m = self.find_match();
        if m.is_some() {
            self.clear();
        }
        m
    }

    /// Appends `c` to the EN buffer (capped).
    fn push_en(&mut self, c: char)
        requires
            c != ' ' ==> alphanumeric(c),
            c == ' ' ==> old(self).has_phrases && old(self).en_buf@.len() > 0
                && old(self).en_buf@.last() != ' ',
        ensures
            final(self)@ == (ManagerState { en: push_capped_spec(old(self)@.en, c), ..old(self)@ }),
            final(self).has_phrases == old(self).has_phrases,
            final(self).ru_buf == old(self).ru_buf,
    {
        proof {
            use_type_invariant(&*self);
            lemma_clean_push(self.en_buf@, c, self.has_phrases);
        }
        let mut b: Vec<char> = Vec::new();
        std::mem::swap(&mut b, &mut self.en_buf);
        push_capped(&mut b, c);
        self.en_buf = b;
    }

    /// Appends `c` to the RU buffer (capped).
    fn push_ru(&mut self, c: char)
        requires
            c != ' ' ==> alphanumeric(c),
            c == ' ' ==> old(self).has_phrases && old(self).ru_buf@.len() > 0
                && old(self).ru_buf@.last() != ' ',
        ensures
            final(self)@ == (ManagerState { ru: push_capped_spec(old(self)@.ru, c), ..old(self)@ }),
    {
        proof {
            use_type_invariant(&*self);
            lemma_clean_push(self.ru_buf@, c, self.has_phrases);
        }
        let mut b: Vec<char> = Vec::new();
        std::mem::swap(&mut b, &mut self.ru_buf);
        push_capped(&mut b, c);
        self.ru_buf = b;
    }

    /// Handles one key press at time `now` (milliseconds); returns the id of
    /// the trigger it completes, if any.
    pub fn handle_key(&mut self, key: &MappedKey, now: u64) -> (fired: Option<String>)
        ensures
            (final(self)@, opt_view(fired)) == old(self)@.step(*key, now),
            final(self)@.buffers_clean(),
    {
        proof {
            use_type_invariant(&*self);
            law_buffers_stay_clean(self@, *key, now);
        }
        match key {
            MappedKey::Letter { en, ru } => {
                // A pause longer than the timeout drops what was typed before.
                self.expire(now);
                proof {
                    use_type_invariant(&*self);
                }
                self.last_key_at = Some(now);
                if is_alphanumeric(*en) {
                    self.push_en(*en);
                }
                if let Some(r) = ru {
                    if is_alphanumeric(*r) {
                        self.push_ru(*r);
                    }
                }
                // Words and phrases fire on the last letter, with no
                // trailing space needed.
                self.fire()
            },
            MappedKey::Space => {
                // The timeout applies to the space too, so a phrase cannot
                // be stretched over minutes.
                self.expire(now);
                proof {
                    use_type_invariant(&*self);
                }
                self.last_key_at = Some(now);
                if self.has_phrases {
                    // The space separates the words of a phrase: it goes into
                    // the buffer so that the tail can grow into a match.
                    if self.en_buf.len() > 0 && self.en_buf[self.en_buf.len() - 1] != ' ' {
                        self.push_en(' ');
                    }
                    if self.ru_buf.len() > 0 && self.ru_buf[self.ru_buf.len() - 1] != ' ' {
                        self.push_ru(' ');
                    }
                    self.fire()
                } else {
                    // Without phrases a space just drops the pending word.
                    self.clear();
                    None
                }
            },
            MappedKey::Reset => {
                self.clear();
                proof {
                    use_type_invariant(&*self);
                }
                self.last_key_at = None;
                None
            },
            MappedKey::Ignore => None,
        }
    }

    /// Loads the dictionary: `triggers` holds `(trigger id, texts)`. Each text
    /// is brought to lower case and normalised (whitespace runs become single
    /// spaces, none at the ends); blank texts are dropped, texts with a space
    /// are phrases (two or more words), the others single words. The buffers
    /// are emptied.
    pub fn set_triggers(&mut self, triggers: &[(String, Vec<String>)])
        ensures
            final(self)@ == (ManagerState {
                words: trigger_entries(triggers@, false),
                phrases: trigger_entries(triggers@, true),
                ..old(self)@.cleared()
            }),
            final(self)@.buffers_clean(),
    {
        let mut words: Vec<TriggerEntry> = Vec::new();
        let mut phrases: Vec<TriggerEntry> = Vec::new();
        let mut i: usize = 0;
        assert(entries_view(words@) =~= seq![]);
        assert(entries_view(phrases@) =~= seq![]);
        while i < triggers.len()
            invariant
                i <= triggers.len(),
                lengths_recorded(words@),
                lengths_recorded(phrases@),
                entries_view(words@) == trigger_entries(triggers@.take(i as int), false),
                entries_view(phrases@) == trigger_entries(triggers@.take(i as int), true),
            decreases triggers.len() - i,
        {
            let id = &triggers[i].0;
            let texts = &triggers[i].1;
            let ghost wbase = entries_view(words@);
            let ghost pbase = entries_view(phrases@);
            let mut j: usize = 0;
            while j < texts.len()
                invariant
                    j <= texts.len(),
                    *id == triggers@[i as int].0,
                    *texts == triggers@[i as int].1,
                    lengths_recorded(words@),
                    lengths_recorded(phrases@),
                    entries_view(words@) == wbase + rule_entries(id@, texts@.take(j as int), false),
                    entries_view(phrases@) == pbase + rule_entries(id@, texts@.take(j as int), true),
                decreases texts.len() - j,
            {
                let lowered = to_lower_case(texts[j].as_str());
                let norm = normalize_text(lowered.as_str());
                let ghost ws = texts@.take(j + 1);
                assert(ws.drop_last() =~= texts@.take(j as int));
                assert(ws.last() == texts@[j as int]);
                if norm.len() > 0 {
                    let bytes = utf8_byte_len(&norm);
                    let entry = TriggerEntry { id: id.clone(), target: norm, bytes };
                    if contains_space(&entry.target) {
                        let ghost before = phrases@;
                        phrases.push(entry);
                        assert(entries_view(phrases@) =~= entries_view(before).push(
                            (id@, entry.target@),
                        ));
                        assert(lengths_recorded(phrases@)) by {
                            assert(forall|m: int| 0 <= m < before.len() ==> phrases@[m] == before[m]);
                        }
                    } else {
                        let ghost before = words@;
                        words.push(entry);
                        assert(entries_view(words@) =~= entries_view(before).push(
                            (id@, entry.target@),
                        ));
                        assert(lengths_recorded(words@)) by {
                            assert(forall|m: int| 0 <= m < before.len() ==> words@[m] == before[m]);
                        }
                    }
                }
                j = j + 1;
            }
            proof {
                let ts = triggers@.take(i + 1);
                assert(ts.drop_last() =~= triggers@.take(i as int));
                assert(texts@.take(texts.len() as int) =~= texts@);
            }
            i = i + 1;
        }
        assert(triggers@.take(triggers.len() as int) =~= triggers@);
        let has_phrases = phrases.len() > 0;
        *self = BufferManager {
            en_buf: Vec::new(),
            ru_buf: Vec::new(),
            last_key_at: self.last_key_at,
            timeout: self.timeout,
            words,
            phrases,
            has_phrases,
        };
    }

    /// The contents of the two buffers, EN and RU.
    pub fn buffers(&self) -> (r: (String, String))
        ensures
            r.0@ == self@.en,
            r.1@ == self@.ru,
    {
        (chars_to_string(&self.en_buf), chars_to_string(&self.ru_buf))
    }

    /// Empties both buffers.
    pub fn clear(&mut self)
        ensures
            final(self)@ == old(self)@.cleared(),
            final(self)@.buffers_clean(),
    {
        proof {
            use_type_invariant(&*self);
        }
        self.en_buf = Vec::new();
        self.ru_buf = Vec::new();
        proof {
            use_type_invariant(&*self);
        }
    }
}

} // verus!
