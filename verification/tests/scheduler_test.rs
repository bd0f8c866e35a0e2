use super_core::scheduler::{absorb_step, count_step, now_millis, parse_schedule, CronScheduler};
use uuid::Uuid;

fn new_id() -> u128 {
    Uuid::new_v4().as_u128()
}

#[test]
fn test_scheduler_drops_exhausted_schedule() {
    let mut scheduler = CronScheduler::new();
    let id = new_id();
    scheduler.upsert(id, "0 0 1 1 * * 2000", 0, None);
    assert!(
        scheduler.get_next_run(&id).is_none(),
        "Past one-shot schedule should not register"
    );
}

#[test]
fn test_scheduler_restart_recovers_missed_slots_from_last_run() {
    let mut scheduler = CronScheduler::new();
    let id = new_id();
    let expr = "0/1 * * * * * *";
    let last_run = now_millis() - 3000;
    scheduler.upsert(id, expr, 0, Some(last_run));

    let triggered = scheduler.tick();
    assert_eq!(triggered.len(), 1, "Recovered task becomes due immediately");
    assert!(
        triggered[0].missed_slots >= 3,
        "Expected >=3 missed slots from last_run, got {}",
        triggered[0].missed_slots
    );
}

// Instants used below: 1_700_000_000_000 ms is 2023-11-14T22:13:20Z.
const T0: i64 = 1_700_000_000_000;

#[test]
fn every_second_schedule_fires_once_per_slot() {
    let mut s = CronScheduler::new();
    let id = new_id();
    assert!(s.upsert_at(id, "0/1 * * * * * *", 0, T0));
    assert_eq!(s.get_next_run(&id), Some(T0 + 1000));
    assert!(s.tick_at(T0 + 999).is_empty());
    let t = s.tick_at(T0 + 1000);
    assert_eq!(t.len(), 1);
    assert_eq!(t[0].id, id);
    assert_eq!(t[0].missed_slots, 1);
    assert_eq!(s.get_next_run(&id), Some(T0 + 2000));
    assert!(s.tick_at(T0 + 1500).is_empty());
}

#[test]
fn idle_period_counts_missed_slots() {
    let mut s = CronScheduler::new();
    let id = new_id();
    assert!(s.upsert_at(id, "0/1 * * * * * *", 0, T0));
    // Slots at +1s, +2s: the first is the trigger, the second was missed.
    let t = s.tick_at(T0 + 2800);
    assert_eq!(t.len(), 1);
    assert_eq!(t[0].missed_slots, 2);
    assert_eq!(s.get_next_run(&id), Some(T0 + 3000));
}

#[test]
fn jitter_window_absorbs_slots() {
    let mut s = CronScheduler::new();
    let id = new_id();
    assert!(s.upsert_at(id, "0/1 * * * * * *", 3, T0));
    let deadline = s.get_next_run(&id).unwrap();
    assert!(deadline >= T0 + 1000 && deadline <= T0 + 4000);
    let t = s.tick_at(deadline);
    assert_eq!(t.len(), 1);
    assert_eq!(t[0].missed_slots, 1, "slots inside the jitter window are not missed");
}

#[test]
fn invalid_expression_is_refused() {
    let mut s = CronScheduler::new();
    assert!(!s.upsert_at(new_id(), "not a cron", 0, T0));
    assert!(parse_schedule("not a cron").is_none());
    assert!(parse_schedule("0 * * * * * *").is_some());
}

#[test]
fn remove_and_set_jitter() {
    let mut s = CronScheduler::new();
    let id = new_id();
    assert!(s.upsert_at(id, "0 0 * * * * *", 0, T0));
    let before = s.get_next_run(&id).unwrap();
    s.set_jitter(&id, 0);
    assert_eq!(s.get_next_run(&id), Some(before));
    s.remove(&id);
    assert!(s.get_next_run(&id).is_none());
    assert!(s.tick_at(T0 + 3_650 * 86_400_000).is_empty());
}

#[test]
fn leap_day_schedule_moves_to_next_leap_year() {
    let mut s = CronScheduler::new();
    let id = new_id();
    assert!(s.upsert_at(id, "0 0 0 29 2 *", 0, T0));
    assert_eq!(s.get_next_run(&id), Some(1_709_164_800_000));
    let t = s.tick_at(1_709_164_800_000);
    assert_eq!(t.len(), 1);
    assert_eq!(t[0].missed_slots, 1);
    assert_eq!(s.get_next_run(&id), Some(1_835_395_200_000));
}

// The tests below run the scheduler on a simulated clock: each pause of a
// scenario is added to the instant handed to `tick_at`.

#[test]
fn test_scheduler_logic() {
    let mut scheduler = CronScheduler::new();
    let id = new_id();
    let cron_expr = "0/1 * * * * * *";
    assert!(scheduler.upsert_at(id, cron_expr, 0, T0));
    assert!(scheduler.get_next_run(&id).is_some(), "Should have next run time");

    let triggered = scheduler.tick_at(T0);
    assert!(triggered.is_empty(), "Should not trigger immediately");

    let triggered = scheduler.tick_at(T0 + 2000);
    assert_eq!(triggered.len(), 1, "Should trigger after 1 second");
    assert_eq!(triggered[0].id, id);
    assert!(triggered[0].missed_slots >= 1, "Missed slots should be >= 1");

    let triggered_again = scheduler.tick_at(T0 + 2000);
    assert!(triggered_again.is_empty(), "Should not trigger twice instantly");
    assert!(scheduler.get_next_run(&id).is_some(), "Should have rescheduled");
}

#[test]
fn test_scheduler_counts_missed_slots() {
    let mut scheduler = CronScheduler::new();
    let id = new_id();
    assert!(scheduler.upsert_at(id, "0/1 * * * * * *", 0, T0));

    let triggered = scheduler.tick_at(T0 + 2800);
    assert_eq!(triggered.len(), 1, "One task became due");
    assert!(
        triggered[0].missed_slots >= 2,
        "Expected >=2 missed slots after a 2.8s pause, got {}",
        triggered[0].missed_slots
    );
}

#[test]
fn test_scheduler_jitter_does_not_create_false_missed() {
    let mut scheduler = CronScheduler::new();
    let id = new_id();
    assert!(scheduler.upsert_at(id, "0/1 * * * * * *", 3, T0));

    let mut now = T0;
    let mut fired = false;
    for _ in 0..8 {
        now += 700;
        for t in scheduler.tick_at(now) {
            assert_eq!(
                t.missed_slots, 1,
                "jitter must not count absorbed slots as missed, got {}",
                t.missed_slots
            );
            fired = true;
        }
        if fired {
            break;
        }
    }
    assert!(fired, "task should fire within the jitter window");
}

#[test]
fn test_scheduler_jitter_stays_within_window() {
    let mut scheduler = CronScheduler::new();
    let id = new_id();
    let jitter_sec = 4u64;
    assert!(scheduler.upsert_at(id, "0/1 * * * * * *", jitter_sec, T0));

    let now = T0;
    let next = scheduler.get_next_run(&id).expect("task should be registered");
    let upper = now + (1 + jitter_sec as i64 + 1) * 1000;
    assert!(
        next >= now && next <= upper,
        "Jittered deadline {next} should be in [{now}, {upper}]"
    );

    let triggered = scheduler.tick_at(now + ((1 + jitter_sec as i64) * 1000 + 400));
    assert_eq!(triggered.len(), 1, "Should trigger once after the window");
    assert_eq!(triggered[0].id, id);
}

#[test]
fn steps_after_a_slot_lookup() {
    // Walking the slots a deadline absorbs.
    assert_eq!(absorb_step(T0, Some(T0 + 1000), T0 + 3000), (T0 + 1000, false));
    assert_eq!(absorb_step(T0, Some(T0 + 4000), T0 + 3000), (T0 + 4000, true));
    assert_eq!(absorb_step(T0, None, T0 + 3000), (T0, true));
    // Counting expired slots.
    assert_eq!(count_step(Some(T0 + 1000), T0 + 2000), Some(T0 + 1000));
    assert_eq!(count_step(Some(T0 + 3000), T0 + 2000), None);
    assert_eq!(count_step(None, T0 + 2000), None);
}

#[test]
fn register_and_reschedule_at_given_slots() {
    let mut s = CronScheduler::new();
    let id = new_id();
    let sched = parse_schedule("0/1 * * * * * *").unwrap();
    assert!(!s.register_at_slot(id, sched, 0, None));
    assert!(s.get_next_run(&id).is_none());
    let sched = parse_schedule("0/1 * * * * * *").unwrap();
    assert!(s.register_at_slot(id, sched, 0, Some(T0 + 5000)));
    assert_eq!(s.get_next_run(&id), Some(T0 + 5000));
    s.reschedule(&id, Some(T0 + 9000));
    assert_eq!(s.get_next_run(&id), Some(T0 + 9000));
    s.reschedule(&id, None);
    assert!(s.get_next_run(&id).is_none());
}
