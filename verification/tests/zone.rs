use maolan_plugins::sampler::dsp::zone::{other_variant, shuffle_step, variant_for_draw, VariantCursor};

#[test]
fn test_random_cycle_variant() {
    let mut cursor = VariantCursor::new();
    let mut counts = [0usize; 3];
    for _ in 0..6 {
        let idx = cursor.next_random_cycle(3);
        counts[idx] += 1;
    }
    assert_eq!(counts[0], 2);
    assert_eq!(counts[1], 2);
    assert_eq!(counts[2], 2);
}

#[test]
fn round_robin_cycles_through_variants() {
    let mut cursor = VariantCursor::new();
    let picks: Vec<usize> = (0..5).map(|_| cursor.next_round_robin(3)).collect();
    assert_eq!(picks, vec![0, 1, 2, 0, 1]);
    assert!(VariantCursor::random_variant(4) < 4);
}

#[test]
fn random_no_repeat_never_picks_the_last_variant_twice() {
    let mut cursor = VariantCursor::new();
    let mut last = cursor.last_variant;
    for _ in 0..200 {
        let idx = cursor.next_random_no_repeat(3);
        assert!(idx < 3);
        assert_ne!(idx, last);
        assert_eq!(cursor.last_variant, idx);
        last = idx;
    }
    cursor.last_variant = 9;
    assert!(cursor.next_random_no_repeat(2) < 2);
    let before = cursor.last_variant;
    assert_eq!(cursor.next_random_no_repeat(1), 0);
    assert_eq!(cursor.last_variant, before);
}

#[test]
fn variant_for_draw_reduces_the_draw() {
    assert_eq!(variant_for_draw(7, 4), 3);
    assert_eq!(variant_for_draw(2, 4), 2);
    assert_eq!(variant_for_draw(u32::MAX, 10), 5);
}

#[test]
fn other_variant_steps_over_the_last() {
    // 5 % 2 == 1, which is not below the last variant 1, so it moves up.
    assert_eq!(other_variant(5, 3, 1), 2);
    // 4 % 2 == 0, below the last variant 1, so it stays.
    assert_eq!(other_variant(4, 3, 1), 0);
    assert_eq!(other_variant(4, 3, 0), 1);
    // A last variant outside the range excludes nothing.
    assert_eq!(other_variant(4, 3, 7), 1);
    for r in 0..20u32 {
        assert_ne!(other_variant(r, 2, 0), 0);
        assert_ne!(other_variant(r, 2, 1), 1);
    }
}

#[test]
fn shuffle_step_swaps_two_entries() {
    let mut pool = vec![0usize, 1, 2, 3];
    shuffle_step(&mut pool, 3, 1);
    assert_eq!(pool, vec![0, 3, 2, 1]);
    shuffle_step(&mut pool, 2, 2);
    assert_eq!(pool, vec![0, 3, 2, 1]);
}
