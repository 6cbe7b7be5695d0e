use crank_scheduler::triggers::CronSchedule;

#[test]
fn next_tick_before_the_schedule_starts() {
    let s = CronSchedule { start_at: 100, period: 10 };
    assert_eq!(s.next_tick_from(0), 100);
    assert_eq!(s.next_tick_from(100), 100);
}

#[test]
fn next_tick_between_ticks_rounds_up() {
    let s = CronSchedule { start_at: 100, period: 10 };
    assert_eq!(s.next_tick_from(101), 110);
    assert_eq!(s.next_tick_from(110), 110);
    assert_eq!(s.next_tick_from(115), 120);
}

#[test]
fn latest_tick_rounds_down() {
    let s = CronSchedule { start_at: 100, period: 10 };
    assert_eq!(s.latest_tick(115), 110);
    assert_eq!(s.latest_tick(110), 110);
    assert_eq!(s.latest_tick(100), 100);
}

#[test]
fn unit_period_ticks_everywhere() {
    let s = CronSchedule { start_at: 0, period: 1 };
    assert_eq!(s.next_tick_from(7), 7);
    assert_eq!(s.latest_tick(7), 7);
}
