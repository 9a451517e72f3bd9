use songbattle::timer::Timer;

#[test]
fn counts_down_then_expires() {
    let mut t = Timer::new(2);
    assert!(!t.running);
    t.start();
    assert!(t.running && t.remaining_sec == 2);
    assert!(!t.tick()); // 2 -> 1
    assert_eq!(t.remaining_sec, 1);
    assert!(t.tick()); // 1 -> 0, expired
    assert!(!t.running);
    assert!(!t.tick()); // stays expired, no double-fire
}

// ── further cases ──────────────────────────────────────────────────────────
#[test]
fn a_stopped_timer_does_not_move() {
    let mut t = Timer::new(5);
    assert!(!t.tick());
    assert_eq!(t.remaining_sec, 5);
}

#[test]
fn restart_refills_to_the_full_duration() {
    let mut t = Timer::new(3);
    t.start();
    t.tick();
    t.start();
    assert_eq!(t.remaining_sec, 3);
    assert!(t.running);
}

#[test]
fn zero_length_timer_fires_on_first_tick() {
    let mut t = Timer::new(0);
    t.start();
    assert!(t.tick());
    assert!(!t.running);
}
