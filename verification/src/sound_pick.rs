//! Weighted random choice of the sound a trigger plays.
//!
//! The probability of sound `i` is `weight_i / Σ weights`: a roll drawn
//! uniformly from `0..Σ weights` selects the sound whose slice of that range
//! (of length `weight_i`, laid out in list order) contains it.

use vstd::prelude::*;

use rand::rngs::SmallRng;
use rand::Rng;
use vstd::set_lib::{lemma_int_range, set_int_range};

verus! {

/// The random number generator that drives the choice.
#[verifier::external_type_specification]
#[verifier::external_body]
pub struct ExSmallRng(SmallRng);

/// One sound a trigger may play: the audio file and its relative weight.
pub struct SoundOption {
    pub path: String,
    pub weight: u32,
}

/// The sum of the weights of the first `i` sounds.
pub open spec fn prefix_weight(s: Seq<SoundOption>, i: int) -> nat
    decreases i,
{
    if i <= 0 {
        0
    } else {
        prefix_weight(s, i - 1) + s[i - 1].weight as nat
    }
}

/// The sum of all weights.
pub open spec fn total_weight(s: Seq<SoundOption>) -> nat {
    prefix_weight(s, s.len() as int)
}

/// Sound `i` owns the rolls `prefix_weight(i) .. prefix_weight(i + 1)`.
pub open spec fn owns_roll(s: Seq<SoundOption>, i: int, roll: int) -> bool {
    0 <= i < s.len() && prefix_weight(s, i) <= roll < prefix_weight(s, i + 1)
}

/// The sound that `roll` selects: none from an empty list; the first one when
/// all weights are zero; otherwise the sound that owns the roll, or the last
/// one for a roll past the total.
pub open spec fn selected_by_roll(s: Seq<SoundOption>, roll: int) -> Option<int> {
    if s.len() == 0 {
        None
    } else if total_weight(s) == 0 {
        Some(0)
    } else if exists|i: int| owns_roll(s, i, roll) {
        Some(choose|i: int| owns_roll(s, i, roll))
    } else {
        Some(s.len() - 1)
    }
}

/// Prefix sums grow with the prefix.
pub proof fn lemma_prefix_weight_monotone(s: Seq<SoundOption>, i: int, j: int)
    requires
        i <= j,
    ensures
        prefix_weight(s, i) <= prefix_weight(s, j),
    decreases j - i,
{
    if i < j {
        lemma_prefix_weight_monotone(s, i, j - 1);
    }
}

/// At most one sound owns a roll.
pub proof fn lemma_owner_unique(s: Seq<SoundOption>, i: int, j: int, roll: int)
    requires
        owns_roll(s, i, roll),
        owns_roll(s, j, roll),
    ensures
        i == j,
{
    if i < j {
        lemma_prefix_weight_monotone(s, i + 1, j);
    } else if j < i {
        lemma_prefix_weight_monotone(s, j + 1, i);
    }
}

/// Every roll below `prefix_weight(s, k)` belongs to one of the first `k` sounds.
proof fn lemma_roll_has_owner(s: Seq<SoundOption>, roll: int, k: int)
    requires
        0 <= roll < prefix_weight(s, k),
        0 <= k <= s.len(),
    ensures
        exists|i: int| owns_roll(s, i, roll),
    decreases k,
{
    if roll < prefix_weight(s, k - 1) {
        lemma_roll_has_owner(s, roll, k - 1);
    } else {
        assert(owns_roll(s, k - 1, roll));
    }
}

/// Law: a roll below the total weight selects exactly the sound whose slice
/// `prefix_weight(i) .. prefix_weight(i + 1)` holds it.
pub proof fn law_roll_selects_owner(s: Seq<SoundOption>, roll: int, i: int)
    requires
        total_weight(s) > 0,
        0 <= roll < total_weight(s),
    ensures
        selected_by_roll(s, roll) == Some(i) <==> owns_roll(s, i, roll),
{
    lemma_roll_has_owner(s, roll, s.len() as int);
    let c = choose|j: int| owns_roll(s, j, roll);
    if owns_roll(s, i, roll) {
        lemma_owner_unique(s, i, c, roll);
    }
}

/// Law (the weights are normalised into shares): of the `Σ weights` equally
/// likely rolls, exactly `weight_i` select sound `i`, namely the rolls
/// `prefix_weight(i) .. prefix_weight(i + 1)`.
pub proof fn law_selection_share(s: Seq<SoundOption>, i: int)
    requires
        total_weight(s) > 0,
        0 <= i < s.len(),
    ensures
        Set::new(|r: int| 0 <= r < total_weight(s) && selected_by_roll(s, r) == Some(i))
            == set_int_range(prefix_weight(s, i) as int, prefix_weight(s, i + 1) as int),
        Set::new(|r: int| 0 <= r < total_weight(s) && selected_by_roll(s, r) == Some(i)).len()
            == s[i].weight,
{
    let chosen = Set::new(|r: int| 0 <= r < total_weight(s) && selected_by_roll(s, r) == Some(i));
    lemma_prefix_weight_monotone(s, i + 1, s.len() as int);
    assert forall|r: int| #[trigger] chosen.contains(r) <==> set_int_range(
        prefix_weight(s, i) as int,
        prefix_weight(s, i + 1) as int,
    ).contains(r) by {
        if 0 <= r < total_weight(s) {
            law_roll_selects_owner(s, r, i);
        }
    }
    assert(chosen =~= set_int_range(prefix_weight(s, i) as int, prefix_weight(s, i + 1) as int));
    lemma_int_range(prefix_weight(s, i) as int, prefix_weight(s, i + 1) as int);
}

/// Law: a sound of weight zero is never selected while some weight is positive.
pub proof fn law_zero_weight_never_selected(s: Seq<SoundOption>, i: int, roll: int)
    requires
        total_weight(s) > 0,
        0 <= roll < total_weight(s),
        0 <= i < s.len(),
        s[i].weight == 0,
    ensures
        selected_by_roll(s, roll) != Some(i),
{
    law_roll_selects_owner(s, roll, i);
}

/// Law: when every weight is zero the first sound is chosen, whatever the roll.
pub proof fn law_all_zero_picks_first(s: Seq<SoundOption>, roll: int)
    requires
        s.len() > 0,
        total_weight(s) == 0,
    ensures
        selected_by_roll(s, roll) == Some(0int),
{
}

/// `Rng::random_range(0..bound)`: a number drawn below `bound` (uniformly, by
/// the documentation of `rand`; only the range is stated here). It panics on
/// an empty range, hence `bound > 0`.
#[verifier::external_body]
fn random_below(rng: &mut SmallRng, bound: u64) -> (r: u64)
    requires
        bound > 0,
    ensures
        r < bound,
{
    rng.random_range(0..bound)
}

/// The sum of the weights of `sounds`.
fn total_weight_of(sounds: &[SoundOption]) -> (t: u64)
    requires
        total_weight(sounds@) <= u64::MAX,
    ensures
        t == total_weight(sounds@),
{
    let mut t: u64 = 0;
    let mut k: usize = 0;
    while k < sounds.len()
        invariant
            k <= sounds.len(),
            total_weight(sounds@) <= u64::MAX,
            t == prefix_weight(sounds@, k as int),
        decreases sounds.len() - k,
    {
        proof {
            lemma_prefix_weight_monotone(sounds@, k + 1, sounds@.len() as int);
        }
        t = t + sounds[k].weight as u64;
        k = k + 1;
    }
    t
}

/// The index of the sound that `roll` selects (see [`selected_by_roll`]).
pub fn select_by_roll(sounds: &[SoundOption], roll: u64) -> (r: Option<usize>)
    requires
        total_weight(sounds@) <= u64::MAX,
    ensures
        match r {
            Some(i) => selected_by_roll(sounds@, roll as int) == Some(i as int),
            None => selected_by_roll(sounds@, roll as int) is None,
        },
{
    let n = sounds.len();
    if n == 0 {
        return None;
    }
    let total = total_weight_of(sounds);
    if total == 0 {
        return Some(0);
    }
    let mut rest = roll;
    let mut k: usize = 0;
    while k < n
        invariant
            n == sounds.len(),
            k <= n,
            total_weight(sounds@) > 0,
            rest == roll - prefix_weight(sounds@, k as int),
            forall|j: int| 0 <= j < k ==> !owns_roll(sounds@, j, roll as int),
        decreases n - k,
    {
        let w = sounds[k].weight as u64;
        if rest < w {
            proof {
                assert(owns_roll(sounds@, k as int, roll as int));
                let c = choose|i: int| owns_roll(sounds@, i, roll as int);
                lemma_owner_unique(sounds@, k as int, c, roll as int);
            }
            return Some(k);
        }
        proof {
            assert forall|j: int| 0 <= j < k + 1 implies !owns_roll(sounds@, j, roll as int) by {
                if j < k {
                } else {
                    assert(!(roll < prefix_weight(sounds@, k + 1)));
                }
            }
        }
        rest = rest - w;
        k = k + 1;
    }
    Some(n - 1)
}

/// The index of a sound chosen by weight: none from an empty list, the first
/// when all weights are zero, otherwise the sound selected by a roll drawn
/// from `0..Σ weights`.
pub fn pick_weighted_index(sounds: &[SoundOption], rng: &mut SmallRng) -> (r: Option<usize>)
    requires
        total_weight(sounds@) <= u64::MAX,
    ensures
        r is None <==> sounds@.len() == 0,
        sounds@.len() > 0 && total_weight(sounds@) == 0 ==> r == Some(0usize),
        sounds@.len() == 0 || total_weight(sounds@) == 0 ==> *final(rng) == *old(rng),
        total_weight(sounds@) > 0 ==> exists|roll: int|
            0 <= roll < total_weight(sounds@) && #[trigger] selected_by_roll(sounds@, roll) == Some(
                r->0 as int,
            ),
{
    if sounds.len() == 0 {
        return None;
    }
    let total = total_weight_of(sounds);
    if total == 0 {
        return Some(0);
    }
    let roll = random_below(rng, total);
    let r = select_by_roll(sounds, roll);
    assert(selected_by_roll(sounds@, roll as int) == Some(r->0 as int));
    r
}

/// A sound chosen by weight (probability `weight_i / Σ weights`), with the
/// random number generator supplied by the caller. An empty list gives none;
/// when all weights are zero the first sound is the deterministic fallback.
/// In both of these cases no number is drawn and the generator is untouched.
pub fn pick_weighted<'a>(sounds: &'a [SoundOption], rng: &mut SmallRng) -> (r: Option<
    &'a SoundOption,
>)
    requires
        total_weight(sounds@) <= u64::MAX,
    ensures
        r is None <==> sounds@.len() == 0,
        sounds@.len() > 0 && total_weight(sounds@) == 0 ==> r == Some(&sounds@[0]),
        sounds@.len() == 0 || total_weight(sounds@) == 0 ==> *final(rng) == *old(rng),
        total_weight(sounds@) > 0 ==> exists|roll: int|
            0 <= roll < total_weight(sounds@) && (#[trigger] selected_by_roll(sounds@, roll) matches Some(
                i,
            ) && r == Some(&sounds@[i])),
{
    match pick_weighted_index(sounds, rng) {
        Some(i) => Some(&sounds[i]),
        None => None,
    }
}


/// What the audio engine does for a fired trigger.
#[derive(PartialEq, Eq, Structural, Clone, Copy, Debug)]
pub enum PlayPlan {
    /// Play sound `index`; when `stop_others`, stop every playing sound first.
    Play { index: usize, stop_others: bool },
    /// No playable sound is configured: nothing is stopped or played.
    NothingToPlay,
}

/// The engine's decision for a fired trigger whose chosen sound is `picked`:
/// with overlap allowed new sounds layer over the playing ones, otherwise
/// everything playing stops before the new sound.
pub fn play_plan(allow_overlap: bool, picked: Option<usize>) -> (p: PlayPlan)
    ensures
        p == match picked {
            Some(i) => PlayPlan::Play { index: i, stop_others: !allow_overlap },
            None => PlayPlan::NothingToPlay,
        },
{
    match picked {
        Some(i) => PlayPlan::Play { index: i, stop_others: !allow_overlap },
        None => PlayPlan::NothingToPlay,
    }
}

} // verus!
