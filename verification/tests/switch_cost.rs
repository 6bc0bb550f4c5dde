use katgpt_core::switch_cost::{FactorizedSwitchCounts, SwitchCounts};

#[test]
fn counts_record_solo_and_switch_cells() {
    let mut t = SwitchCounts::<3>::new();
    for i in 0..10 {
        t.record_solo(0, i < 8);
        t.record_solo(1, i < 2);
    }
    for i in 0..10 {
        t.record_switch(0, 1, i < 1);
        t.record_switch(1, 0, i < 8);
    }
    assert_eq!((t.solo_successes(0), t.solo_trials(0)), (8, 10));
    assert_eq!((t.solo_successes(1), t.solo_trials(1)), (2, 10));
    assert_eq!((t.solo_successes(2), t.solo_trials(2)), (0, 0));
    assert_eq!((t.pair_successes(0, 1), t.pair_trials(0, 1)), (1, 10));
    assert_eq!((t.pair_successes(1, 0), t.pair_trials(1, 0)), (8, 10));
    // Directed: the reverse pair is its own cell.
    assert_eq!(t.pair_trials(2, 0), 0);
}

#[test]
fn counts_saturate_and_stay_bounded() {
    let mut t = SwitchCounts::<2>::new();
    t.pair_trials[0][1] = u32::MAX;
    t.pair_success[0][1] = u32::MAX - 1;
    t.record_switch(0, 1, true);
    assert_eq!(t.pair_trials(0, 1), u32::MAX);
    assert_eq!(t.pair_successes(0, 1), u32::MAX);
    t.record_switch(0, 1, true);
    assert_eq!(t.pair_successes(0, 1), u32::MAX);
}

#[test]
fn recording_order_does_not_change_counts() {
    let mut x = SwitchCounts::<3>::new();
    let mut y = SwitchCounts::<3>::new();
    let mut s = 42u64;
    let mut events = Vec::new();
    for _ in 0..500 {
        s = s.wrapping_mul(6364136223846793005).wrapping_add(1442695040888963407);
        let a = ((s >> 33) % 3) as usize;
        let b = ((s >> 40) % 3) as usize;
        let ok = (s >> 50) & 1 == 1;
        events.push((a, b, ok));
        x.record_switch(a, b, ok);
    }
    for &(a, b, ok) in events.iter().rev() {
        y.record_switch(a, b, ok);
    }
    assert_eq!(x.pair_trials, y.pair_trials);
    assert_eq!(x.pair_success, y.pair_success);
    let total: u32 = x.pair_trials.iter().flatten().sum();
    assert_eq!(total, 500);
}

#[test]
fn factorized_counts_route_into_family_cells() {
    let mut f = FactorizedSwitchCounts::<4, 2>::new([0, 0, 1, 1]);
    f.record_switch(0, 2, false);
    // Leave cell (0, family 1) and land cell (family 0, 2).
    assert_eq!(f.leave_counts(0, 1), (0, 1));
    assert_eq!(f.land_counts(0, 2), (0, 1));
    assert_eq!(f.leave_counts(0, 0), (0, 0));
    assert_eq!(f.land_counts(1, 2), (0, 0));
    f.record_solo(2, true);
    assert_eq!(f.solo_counts(2), (1, 1));
    assert_eq!(f.family_counts(1), (1, 1));
    assert_eq!(f.family_counts(0), (0, 0));
    assert_eq!(f.family_of(3), 1);
}
