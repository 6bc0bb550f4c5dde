use katgpt_core::similarity_inference::{act_with_seed, mix, SimilarityError};

#[test]
fn g2_shared_pairs_never_mismatch() {
    // Under the Shared kind, both agents in a pair share the same
    // policy_seed, so they must always agree on actions.
    let focal_seed = 42_u64;
    let partner_seed = focal_seed; // Shared kind
    let n_actions = 2;
    for situation in 0..1000_u64 {
        let a = act_with_seed(focal_seed, situation, n_actions);
        let b = act_with_seed(partner_seed, situation, n_actions);
        assert_eq!(a, b, "shared-shard pair disagreed at situation {situation}");
    }
}

#[test]
fn g2_random_pairs_mismatch_frequently() {
    // Random-shard pairs should disagree about half of the time
    // (for n_actions=2, uniform actions, P(agree) = 0.5).
    let focal_seed = 42_u64;
    let partner_seed = 43_u64; // different → Random kind
    let n_actions = 2;
    let mut agreements = 0_u32;
    let n = 1000_u32;
    for situation in 0..n as u64 {
        let a = act_with_seed(focal_seed, situation, n_actions);
        let b = act_with_seed(partner_seed, situation, n_actions);
        if a == b {
            agreements += 1;
        }
    }
    let agree_rate = agreements as f32 / n as f32;
    println!("random-shard agreement rate: {agree_rate:.3} (expected ~0.5)");
    assert!(agree_rate > 0.4 && agree_rate < 0.6, "agreement rate {agree_rate} outside [0.4, 0.6]");
}

/// The mixer's exact value on fixed inputs, recomputed step by step.
#[test]
fn mix_matches_reference_steps() {
    fn reference(a: u64, b: u64) -> u64 {
        let mut x = a.wrapping_add(0x9E37_79B9_7F4A_7C15).wrapping_mul(b);
        x ^= x >> 30;
        x = x.wrapping_mul(0xBF58_476D_1CE4_E5B9);
        x ^= x >> 27;
        x = x.wrapping_mul(0x94D0_49BB_1331_11EB);
        x ^= x >> 31;
        x
    }
    for (a, b) in [(0u64, 0u64), (42, 7), (u64::MAX, u64::MAX), (1, 0x1234_5678_9abc_def0)] {
        assert_eq!(mix(a, b), reference(a, b));
    }
    // b = 0 zeroes the product, and every later step keeps zero.
    assert_eq!(mix(12345, 0), 0);
    assert_ne!(mix(42, 7), mix(43, 7));
}

#[test]
fn act_with_seed_stays_in_range_and_reduces_mix() {
    for n in 1..=7usize {
        for s in 0..50u64 {
            let a = act_with_seed(9, s, n);
            assert!((a as usize) < n);
            assert_eq!(a as u64, mix(9, s) % n as u64);
        }
    }
    // A single action is always action 0.
    assert_eq!(act_with_seed(1, 2, 1), 0);
}

#[test]
fn similarity_error_variants_compare_by_fields() {
    assert_eq!(
        SimilarityError::PayoffShapeMismatch { expected: 4, got: 3 },
        SimilarityError::PayoffShapeMismatch { expected: 4, got: 3 }
    );
    assert_ne!(SimilarityError::EmptyActionSet, SimilarityError::InvalidPriorAlpha { given: 0 });
    assert_ne!(
        SimilarityError::MarginalShapeMismatch { expected: 2, got: 3 },
        SimilarityError::MarginalShapeMismatch { expected: 2, got: 4 }
    );
}
