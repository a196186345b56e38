use komora::executor::priority_of_share;
use komora::tenant::{Classification, TenantId};
use komora::utilization_sketch::{Share, UtilizationSketch, N_BUCKETS, WINDOW};

#[test]
fn share_is_part_of_total() {
    let mut sketch = UtilizationSketch::new();
    let a = TenantId { id: 1 };
    let b = TenantId { id: 2 };
    assert_eq!(sketch.update_and_get_relative_proportion(a, 10), Share { part: 10, whole: 10 });
    assert_eq!(sketch.update_and_get_relative_proportion(b, 30), Share { part: 30, whole: 40 });
    assert_eq!(sketch.update_and_get_relative_proportion(a, 10), Share { part: 20, whole: 50 });
    assert_eq!(sketch.update_and_get_relative_proportion(a, 10), Share { part: 30, whole: 60 });
    assert_eq!(sketch.total(), 60);
}

#[test]
fn share_of_a_recording_tenant_does_not_decrease() {
    let mut sketch = UtilizationSketch::new();
    let other = TenantId { id: 5 };
    let tenant = TenantId { id: 6 };
    sketch.update_and_get_relative_proportion(other, 1000);
    let mut last = Share { part: 0, whole: 1 };
    for _ in 0..100 {
        let share = sketch.update_and_get_relative_proportion(tenant, 7);
        assert!(share.part as u64 <= share.whole);
        assert!(last.part as u128 * share.whole as u128 <= share.part as u128 * last.whole as u128);
        last = share;
    }
}

#[test]
fn nothing_recorded_is_a_share_of_zero() {
    let mut sketch = UtilizationSketch::new();
    let share = sketch.update_and_get_relative_proportion(TenantId { id: 0 }, 0);
    assert_eq!(share, Share { part: 0, whole: 0 });
    assert_eq!(share.parts_of(1000), 0);
}

#[test]
fn tenants_that_collide_are_accounted_together() {
    let mut sketch = UtilizationSketch::new();
    let a = TenantId { id: 3 };
    let b = TenantId { id: 3 + N_BUCKETS as u64 };
    sketch.update_and_get_relative_proportion(a, 4);
    assert_eq!(sketch.update_and_get_relative_proportion(b, 6), Share { part: 10, whole: 10 });
}

#[test]
fn sketch_decays_when_the_window_is_full() {
    let mut sketch = UtilizationSketch::new();
    let tenant = TenantId { id: 9 };
    let other = TenantId { id: 10 };
    sketch.update_and_get_relative_proportion(other, 101);
    let mut share = Share { part: 0, whole: 0 };
    for _ in 0..(WINDOW as u32 - 2) {
        share = sketch.update_and_get_relative_proportion(tenant, 2);
    }
    let recorded = 2 * (WINDOW as u32 - 2);
    assert_eq!(share, Share { part: recorded, whole: recorded as u64 + 101 });
    // the record that completes the window halves the counters and the total
    let share = sketch.update_and_get_relative_proportion(tenant, 2);
    assert_eq!(share, Share { part: (recorded + 2) / 2, whole: (recorded as u64 + 2 + 101) / 2 });
    assert_eq!(sketch.total(), (recorded as u64 + 103) / 2);
    // a new window has begun
    let share = sketch.update_and_get_relative_proportion(other, 0);
    assert_eq!(share, Share { part: 50, whole: (recorded as u64 + 103) / 2 });
}

#[test]
fn decrement_halves_everything() {
    let mut sketch = UtilizationSketch::new();
    let tenant = TenantId { id: 77 };
    sketch.update_and_get_relative_proportion(tenant, 9);
    sketch.decrement();
    assert_eq!(sketch.total(), 4);
    assert_eq!(sketch.update_and_get_relative_proportion(tenant, 0), Share { part: 4, whole: 4 });
}

#[test]
fn counters_saturate() {
    let mut sketch = UtilizationSketch::new();
    let tenant = TenantId { id: 1 };
    let mut share = Share { part: 0, whole: 0 };
    for _ in 0..WINDOW {
        share = sketch.update_and_get_relative_proportion(tenant, u16::MAX);
    }
    // one full window, halved by its last record
    assert_eq!(share, Share { part: 2_147_418_112, whole: 2_147_418_112 });
    for _ in 0..40_000u32 {
        share = sketch.update_and_get_relative_proportion(tenant, u16::MAX);
    }
    assert_eq!(share.part, u32::MAX);
    assert_eq!(share.whole, 2_147_418_112 + 40_000 * 65_535);
}

#[test]
fn share_in_parts_of_a_scale() {
    assert_eq!(Share { part: 1, whole: 4 }.parts_of(1000), 250);
    assert_eq!(Share { part: 1, whole: 3 }.parts_of(1000), 333);
    assert_eq!(Share { part: 5, whole: 5 }.parts_of(1000), 1000);
    assert_eq!(Share { part: 0, whole: 5 }.parts_of(1000), 0);
    assert_eq!(Share { part: 0, whole: 0 }.parts_of(1000), 0);
    assert_eq!(Share { part: u32::MAX, whole: u32::MAX as u64 }.parts_of(u32::MAX), u32::MAX as u64);
}

#[test]
fn priority_weighs_the_unused_share_by_classification() {
    let quarter = Share { part: 1, whole: 4 };
    assert_eq!(priority_of_share(quarter, Classification::Accept), 750);
    assert_eq!(priority_of_share(quarter, Classification::Read), 1500);
    assert_eq!(priority_of_share(quarter, Classification::Compute), 2250);
    assert_eq!(priority_of_share(quarter, Classification::Write), 3000);
    assert_eq!(priority_of_share(Share { part: 3, whole: 3 }, Classification::Write), 0);
    assert_eq!(priority_of_share(Share { part: 0, whole: 0 }, Classification::Write), 4000);
}

#[test]
fn lower_share_means_higher_priority() {
    let low = Share { part: 1, whole: 10 };
    let high = Share { part: 9, whole: 10 };
    assert!(
        priority_of_share(low, Classification::Read) >= priority_of_share(high, Classification::Read)
    );
}

#[test]
fn tenant_identity_is_a_function_of_the_key() {
    let a = TenantId::new(b"tenant-a");
    let again = TenantId::new(b"tenant-a");
    let b = TenantId::new(b"tenant-b");
    assert_eq!(a, again);
    assert_ne!(a, b);
}
