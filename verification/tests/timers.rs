use movebeam::config::{Activity, ConfigError, TimerConfig};
use movebeam::msg::TimerInfo;
use movebeam::policy::{decide, Decision};
use movebeam::time::Duration;
use movebeam::timer::{FiredTimer, TimerRegistry};

fn secs(n: u64) -> Duration {
    Duration::from_secs(n)
}

fn timer(name: &str, interval: u64, break_duration: Option<u64>, notify: bool) -> TimerConfig {
    TimerConfig {
        name: name.to_string(),
        interval: secs(interval),
        suggested: None,
        duration: break_duration.map(secs),
        notify,
    }
}

fn registry(timers: Vec<TimerConfig>) -> TimerRegistry {
    TimerRegistry::new(&timers).unwrap()
}

fn policy(pause: Option<u64>, reset: Option<u64>) -> Option<Activity> {
    Some(Activity { inactivity_pause: pause.map(secs), inactivity_reset: reset.map(secs) })
}

fn info(elapsed: u64, interval: u64) -> TimerInfo {
    TimerInfo { elapsed: secs(elapsed), interval: secs(interval) }
}

fn fired(name: &str, notify: bool) -> FiredTimer {
    FiredTimer { name: name.to_string(), notify }
}

#[test]
fn new_registry_starts_every_clock_at_zero() {
    let r = registry(vec![timer("move", 10, None, true), timer("break", 7200, Some(600), false)]);
    assert_eq!(r.len(), 2);
    assert_eq!(r.get("move"), Some(info(0, 10)));
    assert_eq!(r.get("break"), Some(info(0, 7200)));
    assert!(!r.timers()[0].went_off);
    assert!(!r.timers()[1].went_off);
}

#[test]
fn new_registry_refuses_timers_of_one_name() {
    let timers = vec![timer("move", 10, None, true), timer("break", 20, None, true), timer("move", 30, None, true)];
    assert_eq!(TimerRegistry::new(&timers).err(), Some(ConfigError::DuplicateName));
}

#[test]
fn new_registry_of_no_timers() {
    let r = registry(vec![]);
    assert_eq!(r.len(), 0);
    assert_eq!(r.list(), vec![]);
    assert_eq!(r.get("move"), None);
}

#[test]
fn tick_adds_the_delta_to_every_clock() {
    let mut r = registry(vec![timer("a", 100, None, true), timer("b", 200, None, true)]);
    assert_eq!(r.tick(&None, secs(3), None), vec![]);
    assert_eq!(r.tick(&None, Duration::new(1, 500_000_000), None), vec![]);
    let elapsed = Duration::new(4, 500_000_000);
    assert_eq!(r.get("a"), Some(TimerInfo { elapsed, interval: secs(100) }));
    assert_eq!(r.get("b"), Some(TimerInfo { elapsed, interval: secs(200) }));
}

#[test]
fn timer_at_its_interval_has_not_gone_off() {
    let mut r = registry(vec![timer("move", 10, None, true)]);
    assert_eq!(r.tick(&None, secs(10), None), vec![]);
    assert!(!r.timers()[0].went_off);
    assert_eq!(r.tick(&None, Duration::new(0, 1), None), vec![fired("move", true)]);
    assert!(r.timers()[0].went_off);
}

#[test]
fn timer_goes_off_once_until_it_is_reset() {
    let mut r = registry(vec![timer("move", 10, None, true)]);
    let mut events = 0;
    for _ in 0..30 {
        events += r.tick(&None, secs(1), None).len();
    }
    assert_eq!(events, 1);
    assert_eq!(r.get("move"), Some(info(30, 10)));
    assert!(r.reset("move"));
    for _ in 0..10 {
        events += r.tick(&None, secs(1), None).len();
    }
    assert_eq!(events, 1);
    events += r.tick(&None, secs(1), None).len();
    assert_eq!(events, 2);
}

#[test]
fn timers_go_off_in_the_order_of_the_configuration() {
    let mut r = registry(vec![
        timer("first", 5, None, true),
        timer("never", 500, None, true),
        timer("quiet", 5, None, false),
        timer("last", 1, None, true),
    ]);
    assert_eq!(
        r.tick(&None, secs(6), None),
        vec![fired("first", true), fired("quiet", false), fired("last", true)]
    );
    assert_eq!(r.tick(&None, secs(6), None), vec![]);
}

#[test]
fn reset_zeroes_the_named_timer_only() {
    let mut r = registry(vec![timer("a", 5, None, true), timer("b", 5, None, true)]);
    r.tick(&None, secs(7), None);
    assert!(r.reset("b"));
    assert_eq!(r.get("a"), Some(info(7, 5)));
    assert_eq!(r.get("b"), Some(info(0, 5)));
    assert!(r.timers()[0].went_off);
    assert!(!r.timers()[1].went_off);
}

#[test]
fn reset_of_an_unknown_name_changes_nothing() {
    let mut r = registry(vec![timer("a", 5, None, true)]);
    r.tick(&None, secs(7), None);
    let before = r.clone();
    assert!(!r.reset("b"));
    assert_eq!(r, before);
}

#[test]
fn reset_all_zeroes_every_timer() {
    let mut r = registry(vec![timer("a", 5, None, true), timer("b", 50, None, true)]);
    r.tick(&None, secs(7), None);
    r.reset_all();
    assert_eq!(r.list(), vec![("a".to_string(), info(0, 5)), ("b".to_string(), info(0, 50))]);
    assert!(!r.timers()[0].went_off);
    assert!(!r.timers()[1].went_off);
}

#[test]
fn get_and_list_change_nothing() {
    let mut r = registry(vec![timer("a", 5, None, true), timer("b", 50, None, true)]);
    r.tick(&None, secs(7), None);
    let before = r.clone();
    let first = (r.get("a"), r.get("b"), r.get("c"), r.list());
    let second = (r.get("a"), r.get("b"), r.get("c"), r.list());
    assert_eq!(first, second);
    assert_eq!(r, before);
    assert_eq!(first.3, vec![("a".to_string(), info(7, 5)), ("b".to_string(), info(7, 50))]);
}

#[test]
fn decision_is_reset_from_the_threshold_on() {
    let p = policy(Some(10), Some(300));
    assert_eq!(decide(&p, &secs(1), &Some(secs(299))), Decision::Pause);
    assert_eq!(decide(&p, &secs(1), &Some(secs(300))), Decision::Reset);
    assert_eq!(decide(&p, &secs(1), &Some(secs(301))), Decision::Reset);
    assert_eq!(decide(&p, &secs(299), &Some(secs(0))), Decision::Advance);
    assert_eq!(decide(&p, &secs(300), &Some(secs(0))), Decision::Reset);
    assert_eq!(decide(&p, &secs(300), &None), Decision::Reset);
}

#[test]
fn decision_is_pause_beyond_the_threshold_only() {
    let p = policy(Some(10), Some(300));
    assert_eq!(decide(&p, &secs(1), &Some(secs(10))), Decision::Advance);
    assert_eq!(decide(&p, &secs(1), &Some(Duration::new(10, 1))), Decision::Pause);
    assert_eq!(decide(&p, &secs(1), &None), Decision::Advance);
}

#[test]
fn decision_without_thresholds_is_advance() {
    assert_eq!(decide(&None, &secs(100_000), &Some(secs(100_000))), Decision::Advance);
    assert_eq!(decide(&policy(None, None), &secs(100_000), &Some(secs(100_000))), Decision::Advance);
    assert_eq!(decide(&policy(None, Some(300)), &secs(1), &Some(secs(200))), Decision::Advance);
    assert_eq!(decide(&policy(Some(10), None), &secs(100_000), &Some(secs(100_000))), Decision::Pause);
}

#[test]
fn paused_clocks_do_not_grow() {
    let p = policy(Some(10), Some(300));
    let mut r = registry(vec![timer("a", 100, None, true), timer("b", 3, None, true)]);
    r.tick(&p, secs(2), Some(secs(0)));
    for away in 11..300 {
        assert_eq!(r.tick(&p, secs(1), Some(secs(away))), vec![]);
        assert_eq!(r.get("a"), Some(info(2, 100)));
        assert_eq!(r.get("b"), Some(info(2, 3)));
    }
}

#[test]
fn long_inactivity_resets_every_timer() {
    let p = policy(Some(10), Some(300));
    let mut r = registry(vec![timer("a", 5, None, true), timer("b", 500, None, true)]);
    assert_eq!(r.tick(&p, secs(7), Some(secs(0))), vec![fired("a", true)]);
    assert_eq!(r.tick(&p, secs(1), Some(secs(300))), vec![]);
    assert_eq!(r.get("a"), Some(info(0, 5)));
    assert_eq!(r.get("b"), Some(info(0, 500)));
    assert!(!r.timers()[0].went_off);
    assert!(!r.timers()[1].went_off);
}

#[test]
fn long_delta_resets_every_timer_whatever_the_inactivity() {
    let p = policy(Some(10), Some(300));
    for inactivity in [None, Some(secs(0)), Some(secs(5)), Some(secs(11)), Some(secs(1000))] {
        let mut r = registry(vec![timer("a", 5, None, true), timer("b", 500, Some(60), true)]);
        r.tick(&p, secs(7), Some(secs(0)));
        assert_eq!(r.tick(&p, secs(300), inactivity), vec![]);
        assert_eq!(r.get("a"), Some(info(0, 5)));
        assert_eq!(r.get("b"), Some(info(0, 500)));
        assert!(!r.timers()[0].went_off);
    }
}

#[test]
fn break_resets_its_timer_without_thresholds() {
    let five_minutes = 300;
    let mut r = registry(vec![timer("break", 7200, Some(five_minutes), true), timer("other", 7200, None, true)]);
    r.tick(&None, secs(100), Some(secs(0)));
    assert_eq!(r.tick(&None, secs(1), Some(Duration::new(five_minutes, 1))), vec![]);
    assert_eq!(r.get("break"), Some(info(0, 7200)));
    assert_eq!(r.get("other"), Some(info(101, 7200)));
}

#[test]
fn break_of_exactly_its_length_does_not_reset() {
    let mut r = registry(vec![timer("break", 7200, Some(300), true)]);
    r.tick(&None, secs(100), Some(secs(0)));
    r.tick(&None, secs(1), Some(secs(300)));
    assert_eq!(r.get("break"), Some(info(101, 7200)));
}

#[test]
fn break_resets_a_timer_that_went_off() {
    let mut r = registry(vec![timer("break", 10, Some(60), true)]);
    assert_eq!(r.tick(&None, secs(11), Some(secs(0))), vec![fired("break", true)]);
    assert_eq!(r.tick(&None, secs(1), Some(secs(61))), vec![]);
    assert!(!r.timers()[0].went_off);
    assert_eq!(r.tick(&None, secs(11), Some(secs(0))), vec![fired("break", true)]);
}

#[test]
fn no_inactivity_reading_never_pauses_or_resets() {
    let p = policy(Some(0), Some(1));
    let mut r = registry(vec![timer("a", 1000, Some(0), true)]);
    r.tick(&p, Duration::new(0, 500_000_000), None);
    r.tick(&p, Duration::new(0, 500_000_000), None);
    assert_eq!(r.get("a"), Some(info(1, 1000)));
}

#[test]
fn checked_tick_refuses_a_clock_that_would_not_fit() {
    let mut r = registry(vec![timer("a", 5, None, true)]);
    assert!(r.fits(&None, Duration::max(), None));
    assert_eq!(r.checked_tick(&None, Duration::max(), None), Some(vec![fired("a", true)]));
    let before = r.clone();
    assert!(!r.fits(&None, Duration::new(0, 1), None));
    assert_eq!(r.checked_tick(&None, Duration::new(0, 1), None), None);
    assert_eq!(r, before);
    assert_eq!(r.checked_tick(&None, Duration::zero(), None), Some(vec![]));
}

#[test]
fn checked_tick_fits_where_the_clock_is_not_run_on() {
    let p = policy(Some(10), Some(300));
    let mut r = registry(vec![timer("a", 5, Some(60), true)]);
    r.tick(&None, Duration::max(), Some(secs(0)));
    assert!(r.fits(&p, secs(1), Some(secs(11))));
    assert!(r.fits(&p, secs(1), Some(secs(61))));
    assert!(r.fits(&p, secs(300), None));
    assert!(!r.fits(&p, secs(1), Some(secs(10))));
    assert_eq!(r.checked_tick(&p, secs(1), Some(secs(11))), Some(vec![]));
    assert_eq!(r.get("a"), Some(TimerInfo { elapsed: Duration::max(), interval: secs(5) }));
}
