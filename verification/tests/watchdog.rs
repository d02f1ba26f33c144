use helixrack::watchdog::{Watch, WatchStep, Watchdog, Watcher};

const MILLI: u64 = 1_000_000;

#[test]
fn an_idle_watch_sleeps() {
    let shared = Watchdog::new();
    let mut watcher = Watcher::new();
    assert_eq!(watcher.step(&shared, 5), WatchStep::Sleep);
    assert_eq!(watcher.fired, None);
}

#[test]
fn a_slice_is_told_when_it_is_over_and_once_only() {
    let mut shared = Watchdog::new();
    let mut watcher = Watcher::new();
    shared.arm(100, 10);
    assert_eq!(shared.watch, Watch::Armed(100 + 10 * u128::from(MILLI)));
    assert_eq!(watcher.step(&shared, 100), WatchStep::SleepFor(10 * u128::from(MILLI)));
    assert_eq!(watcher.step(&shared, 99 + 10 * MILLI), WatchStep::SleepFor(1));
    assert_eq!(watcher.step(&shared, 100 + 10 * MILLI), WatchStep::Fire);
    assert_eq!(watcher.step(&shared, 100 + 90 * MILLI), WatchStep::Sleep);
    shared.disarm();
    assert_eq!(watcher.step(&shared, 100 + 90 * MILLI), WatchStep::Sleep);
    shared.arm(100 + 90 * MILLI, 0);
    assert_eq!(watcher.step(&shared, 100 + 90 * MILLI), WatchStep::Fire);
}

#[test]
fn a_slice_that_is_given_up_is_not_told() {
    let mut shared = Watchdog::new();
    let mut watcher = Watcher::new();
    shared.arm(0, 1);
    shared.disarm();
    assert_eq!(shared.generation, 2);
    assert_eq!(watcher.step(&shared, 50 * MILLI), WatchStep::Sleep);
}

#[test]
fn the_watch_ends_when_it_is_shut_down() {
    let mut shared = Watchdog::new();
    let mut watcher = Watcher::new();
    shared.arm(0, 1);
    shared.disarm();
    shared.shutdown();
    assert_eq!(shared.generation, 2);
    assert_eq!(watcher.step(&shared, 0), WatchStep::Exit);
}

#[test]
fn a_watch_that_is_shut_down_ends_in_every_state() {
    let mut idle = Watchdog::new();
    idle.shutdown();
    assert_eq!(Watcher::new().step(&idle, 0), WatchStep::Exit);

    let mut waiting = Watchdog::new();
    waiting.arm(0, 1000);
    waiting.shutdown();
    assert_eq!(Watcher::new().step(&waiting, 1), WatchStep::Exit);

    let mut fired = Watchdog::new();
    let mut watcher = Watcher::new();
    fired.arm(0, 0);
    assert_eq!(watcher.step(&fired, 0), WatchStep::Fire);
    assert_eq!(watcher.step(&fired, 1), WatchStep::Sleep);
    fired.shutdown();
    assert_eq!(watcher.step(&fired, 1), WatchStep::Exit);
    fired.disarm();
    fired.shutdown();
    assert_eq!(watcher.step(&fired, 1), WatchStep::Exit);
}

#[test]
fn each_armed_period_is_told_once_however_often_the_thread_looks() {
    let mut shared = Watchdog::new();
    let mut watcher = Watcher::new();
    let mut told = Vec::new();
    for period in 0..5u64 {
        shared.arm(period * 100 * MILLI, 10);
        for look in 0..50u64 {
            if watcher.step(&shared, period * 100 * MILLI + look * MILLI) == WatchStep::Fire {
                told.push((period, look));
            }
        }
        shared.disarm();
        assert_eq!(watcher.step(&shared, (period * 100 + 60) * MILLI), WatchStep::Sleep);
    }
    assert_eq!(told, [(0, 10), (1, 10), (2, 10), (3, 10), (4, 10)]);
}

#[test]
fn the_longest_slice_has_a_deadline() {
    let mut shared = Watchdog::new();
    shared.arm(u64::MAX, u64::MAX);
    assert_eq!(shared.watch, Watch::Armed(u64::MAX as u128 * (1 + u128::from(MILLI))));
}

#[test]
fn a_slice_leaves_the_watch_idle_whether_or_not_it_was_told() {
    for told in [false, true] {
        let mut shared = Watchdog::new();
        let mut watcher = Watcher::new();
        shared.arm(0, 5);
        let now = if told { 5 * MILLI } else { 1 };
        assert_eq!(watcher.step(&shared, now) == WatchStep::Fire, told);
        shared.disarm();
        assert_eq!(shared, Watchdog { watch: Watch::Idle, generation: 2 });
        assert_eq!(watcher.step(&shared, u64::MAX), WatchStep::Sleep);
    }
}
