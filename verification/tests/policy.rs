use nv1_ros::policy::{PolicyClock, PolicyTick, DECISION_PERIOD};

#[test]
fn clock_decides_every_other_tick() {
    assert_eq!(DECISION_PERIOD, 1);
    let mut c = PolicyClock::new();
    let ticks: Vec<PolicyTick> = (0..5).map(|_| c.tick()).collect();
    assert_eq!(ticks[0], PolicyTick { episode_start: true, decide: false });
    assert_eq!(ticks[1], PolicyTick { episode_start: false, decide: true });
    assert_eq!(ticks[2], PolicyTick { episode_start: false, decide: false });
    assert_eq!(ticks[3], PolicyTick { episode_start: false, decide: true });
    assert_eq!(ticks[4], PolicyTick { episode_start: false, decide: false });
}

#[test]
fn clock_schedule_holds_for_many_ticks() {
    let mut c = PolicyClock::new();
    for n in 0..100usize {
        let t = c.tick();
        assert_eq!(t.episode_start, n == 0);
        assert_eq!(t.decide, (n + 1) % (DECISION_PERIOD + 1) == 0);
    }
}
