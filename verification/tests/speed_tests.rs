use transit_rt::speed::SpeedTracker;

#[test]
fn observe_exact_mean() {
    let mut t = SpeedTracker::new();
    let id = String::from("veh-1");
    let (avg, count) = t.observe(&id, 1000);
    assert_eq!(avg, 1000);
    assert_eq!(count, 1);
    let (avg, count) = t.observe(&id, 2000);
    assert_eq!(avg, 1500);
    assert_eq!(count, 2);
    let (avg, count) = t.observe(&id, 4000);
    // floor((1000 + 2000 + 4000) / 3)
    assert_eq!(avg, 2333);
    assert_eq!(count, 3);
}

#[test]
fn distinct_ids_tracked_separately() {
    let mut t = SpeedTracker::new();
    let a = String::from("a");
    let b = String::from("b");
    t.observe(&a, 100);
    t.observe(&a, 300);
    let (avg_b, count_b) = t.observe(&b, 900);
    assert_eq!(avg_b, 900);
    assert_eq!(count_b, 1);
    let (avg_a, count_a) = t.observe(&a, 200);
    assert_eq!(avg_a, 200);
    assert_eq!(count_a, 3);
    assert_eq!(t.len(), 2);
}

#[test]
fn window_rollover_keeps_last_hundred() {
    // 105 sightings of one id in one cycle: the window holds the last 100,
    // the oldest five are dropped, and the mean matches the kept values.
    let mut t = SpeedTracker::new();
    let id = String::from("rollover");
    let mut avg = 0;
    let mut count = 0;
    for i in 0..105u32 {
        let r = t.observe(&id, i);
        avg = r.0;
        count = r.1;
    }
    assert_eq!(count, 100);
    // kept speeds are 5..=104; their sum is 5450, their floored mean 54
    assert_eq!(avg, 54);
}

#[test]
fn expiry_eviction_after_ten_cycles() {
    // Sight an id once, then run ten cycles without it: the entry is gone.
    let mut t = SpeedTracker::new();
    let id = String::from("x");
    t.observe(&id, 5000);
    for cycle in 0..10 {
        assert_eq!(t.len(), 1, "entry gone too early, after {} cycles", cycle);
        t.age_and_evict();
    }
    assert_eq!(t.len(), 0);
}

#[test]
fn snapshot_reports_every_entry() {
    let mut t = SpeedTracker::new();
    let a = String::from("a");
    let b = String::from("b");
    t.observe(&a, 1000);
    t.observe(&a, 3000);
    t.observe(&b, 500);
    t.age_and_evict();
    let rows = t.snapshot();
    assert_eq!(rows.len(), 2);
    assert_eq!(rows[0].id, "a");
    assert_eq!(rows[0].speed_average, 2000);
    assert_eq!(rows[0].count, 2);
    assert_eq!(rows[0].expire, 9);
    assert_eq!(rows[1].id, "b");
    assert_eq!(rows[1].speed_average, 500);
    assert_eq!(rows[1].count, 1);
    assert_eq!(rows[1].expire, 9);
}

#[test]
fn sighting_resets_expiry() {
    let mut t = SpeedTracker::new();
    let id = String::from("y");
    t.observe(&id, 1);
    for _ in 0..5 {
        t.age_and_evict();
    }
    assert_eq!(t.len(), 1);
    t.observe(&id, 1);
    for _ in 0..9 {
        t.age_and_evict();
    }
    assert_eq!(t.len(), 1);
    t.age_and_evict();
    assert_eq!(t.len(), 0);
}
