use rand::rngs::SmallRng;
use rand::SeedableRng;
use renarrator::sound_pick::{
    pick_weighted, pick_weighted_index, play_plan, select_by_roll, PlayPlan, SoundOption,
};

fn snd(path: &str, weight: u32) -> SoundOption {
    SoundOption {
        path: path.to_string(),
        weight,
    }
}

#[test]
fn empty_list_returns_none() {
    let mut rng = SmallRng::seed_from_u64(1);
    assert!(pick_weighted(&[], &mut rng).is_none());
}

#[test]
fn single_sound_always_picked() {
    let mut rng = SmallRng::seed_from_u64(2);
    let sounds = vec![snd("a.mp3", 5)];
    for _ in 0..50 {
        assert_eq!(pick_weighted(&sounds, &mut rng).unwrap().path, "a.mp3");
    }
}

#[test]
fn zero_weight_never_picked() {
    let mut rng = SmallRng::seed_from_u64(3);
    let sounds = vec![snd("never.mp3", 0), snd("always.mp3", 10)];
    for _ in 0..200 {
        assert_eq!(pick_weighted(&sounds, &mut rng).unwrap().path, "always.mp3");
    }
}

#[test]
fn all_zero_weights_falls_back_to_first() {
    let mut rng = SmallRng::seed_from_u64(4);
    let sounds = vec![snd("a.mp3", 0), snd("b.mp3", 0)];
    assert_eq!(pick_weighted(&sounds, &mut rng).unwrap().path, "a.mp3");
}

#[test]
fn distribution_matches_normalized_weights() {
    // 60 / 30 / 10 -> shares of 60% / 30% / 10%.
    let mut rng = SmallRng::seed_from_u64(42);
    let sounds = vec![snd("a.mp3", 60), snd("b.mp3", 30), snd("c.mp3", 10)];
    let n = 20_000;
    let mut counts = [0usize; 3];
    for _ in 0..n {
        let picked = pick_weighted(&sounds, &mut rng).unwrap();
        let idx = sounds
            .iter()
            .position(|s| s.path == picked.path)
            .expect("picked sound must come from the list");
        counts[idx] += 1;
    }
    let p = |i: usize| counts[i] as f64 / n as f64;
    assert!((p(0) - 0.60).abs() < 0.03, "p(0)={}", p(0));
    assert!((p(1) - 0.30).abs() < 0.03, "p(1)={}", p(1));
    assert!((p(2) - 0.10).abs() < 0.02, "p(2)={}", p(2));
}

#[test]
fn rolls_select_the_owning_slice() {
    let sounds = vec![snd("a.mp3", 60), snd("b.mp3", 30), snd("c.mp3", 10)];
    assert_eq!(select_by_roll(&sounds, 0), Some(0));
    assert_eq!(select_by_roll(&sounds, 59), Some(0));
    assert_eq!(select_by_roll(&sounds, 60), Some(1));
    assert_eq!(select_by_roll(&sounds, 89), Some(1));
    assert_eq!(select_by_roll(&sounds, 90), Some(2));
    assert_eq!(select_by_roll(&sounds, 99), Some(2));
    // Past the total: the last sound.
    assert_eq!(select_by_roll(&sounds, 100), Some(2));
}

#[test]
fn roll_shares_equal_weights() {
    let sounds = vec![snd("a", 3), snd("b", 0), snd("c", 2), snd("d", 5)];
    let mut counts = [0u32; 4];
    for roll in 0..10u64 {
        counts[select_by_roll(&sounds, roll).unwrap()] += 1;
    }
    assert_eq!(counts, [3, 0, 2, 5]);
}

#[test]
fn select_edge_cases() {
    assert_eq!(select_by_roll(&[], 0), None);
    let zeros = vec![snd("a", 0), snd("b", 0), snd("c", 0)];
    assert_eq!(select_by_roll(&zeros, 0), Some(0));
    assert_eq!(select_by_roll(&zeros, 17), Some(0));
}

#[test]
fn trailing_zero_weight_is_never_the_roll_target() {
    // A draw below the total always lands on the first sound here; a draw
    // equal to the total would fall through to the last, zero-weight, one.
    let sounds = vec![snd("a", 5), snd("z", 0)];
    let mut rng = SmallRng::seed_from_u64(9);
    for _ in 0..500 {
        assert_eq!(pick_weighted_index(&sounds, &mut rng), Some(0));
    }
    let mut rng = SmallRng::seed_from_u64(10);
    assert_eq!(pick_weighted_index(&[], &mut rng), None);
}

#[test]
fn play_plan_stops_others_only_without_overlap() {
    assert_eq!(play_plan(true, Some(2)), PlayPlan::Play { index: 2, stop_others: false });
    assert_eq!(play_plan(false, Some(0)), PlayPlan::Play { index: 0, stop_others: true });
    assert_eq!(play_plan(false, None), PlayPlan::NothingToPlay);
    assert_eq!(play_plan(true, None), PlayPlan::NothingToPlay);
}
