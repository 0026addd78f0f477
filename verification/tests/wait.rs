use wait_timer::Phase;
use wait_timer::Tick;
use wait_timer::Time;
use wait_timer::WaitState;
use wait_timer::REFRESH_INTERVAL_MILLIS;

fn run(total_secs: u64, interval_millis: u64) -> (Vec<Tick>, WaitState) {
    let mut state = WaitState::new(Time::from_secs(total_secs), interval_millis).unwrap();
    let mut ticks = Vec::new();
    while let Some(tick) = state.step() {
        ticks.push(tick);
    }
    (ticks, state)
}

#[test]
fn two_seconds_in_half_second_steps() {
    let (ticks, state) = run(2, 500);
    assert_eq!(
        ticks,
        vec![
            Tick { elapsed_millis: 0, elapsed_secs: 0, total_secs: 2 },
            Tick { elapsed_millis: 500, elapsed_secs: 0, total_secs: 2 },
            Tick { elapsed_millis: 1000, elapsed_secs: 1, total_secs: 2 },
            Tick { elapsed_millis: 1500, elapsed_secs: 1, total_secs: 2 },
        ]
    );
    assert_eq!(state.elapsed_millis(), 2000);
    assert_eq!(state.phase(), Phase::Done);
}

#[test]
fn one_minute_at_the_usual_interval() {
    let total = Time::parse("1m").unwrap();
    assert_eq!(total.as_secs(), 60);
    let mut state = WaitState::new(total, REFRESH_INTERVAL_MILLIS).unwrap();
    let mut positions = Vec::new();
    while let Some(tick) = state.step() {
        assert_eq!(tick.total_secs, 60);
        positions.push(tick.elapsed_secs);
    }
    assert_eq!(positions, (0..60).collect::<Vec<u64>>());
    assert_eq!(state.elapsed_millis(), 60_000);
    assert_eq!(state.phase(), Phase::Done);
}

#[test]
fn the_usual_interval_is_one_second() {
    assert_eq!(REFRESH_INTERVAL_MILLIS, 1000);
}

#[test]
fn steps_are_the_quotient_rounded_up() {
    for (total_secs, interval_millis) in [
        (0u64, 1u64),
        (0, 500),
        (1, 1),
        (1, 999),
        (1, 1000),
        (1, 1001),
        (2, 500),
        (3, 2000),
        (7, 300),
        (10, 3333),
        (60, 1000),
        (1, 5000),
    ] {
        let (ticks, state) = run(total_secs, interval_millis);
        let total = total_secs as u128 * 1000;
        let interval = interval_millis as u128;
        let needed = (total + interval - 1) / interval;
        assert_eq!(ticks.len() as u128, needed);
        for (k, tick) in ticks.iter().enumerate() {
            assert_eq!(tick.elapsed_millis, k as u128 * interval);
            assert_eq!(tick.elapsed_secs as u128, tick.elapsed_millis / 1000);
            assert_eq!(tick.total_secs, total_secs);
            assert!(tick.elapsed_millis < total);
        }
        assert_eq!(state.elapsed_millis(), needed * interval);
        assert!(state.elapsed_millis() >= total);
        assert!(state.elapsed_millis() < total + interval);
        if let Some(last) = ticks.last() {
            assert!(last.elapsed_millis + interval >= total);
            assert!(last.elapsed_millis < total + interval);
        }
    }
}

#[test]
fn an_interval_longer_than_the_total_takes_one_step() {
    let (ticks, state) = run(3, 5000);
    assert_eq!(
        ticks,
        vec![Tick { elapsed_millis: 0, elapsed_secs: 0, total_secs: 3 }]
    );
    assert_eq!(state.elapsed_millis(), 5000);
}

#[test]
fn an_interval_that_does_not_divide_the_total_ends_late() {
    let (ticks, state) = run(3, 2000);
    assert_eq!(
        ticks,
        vec![
            Tick { elapsed_millis: 0, elapsed_secs: 0, total_secs: 3 },
            Tick { elapsed_millis: 2000, elapsed_secs: 2, total_secs: 3 },
        ]
    );
    assert_eq!(state.elapsed_millis(), 4000);
}

#[test]
fn a_wait_of_nothing_is_done_at_once() {
    let mut state = WaitState::new(Time::from_secs(0), 500).unwrap();
    assert_eq!(state.phase(), Phase::Done);
    assert_eq!(state.step(), None);
    assert_eq!(state.elapsed_millis(), 0);
    assert_eq!(state.total_millis(), 0);
}

#[test]
fn an_interval_of_zero_is_refused() {
    assert!(WaitState::new(Time::from_secs(2), 0).is_none());
    assert!(WaitState::new(Time::from_secs(0), 0).is_none());
    assert!(WaitState::new(Time::from_secs(2), 1).is_some());
}

#[test]
fn a_new_wait_has_counted_nothing() {
    let state = WaitState::new(Time::from_secs(90), 250).unwrap();
    assert_eq!(state.elapsed_millis(), 0);
    assert_eq!(state.total_millis(), 90_000);
    assert_eq!(state.interval_millis(), 250);
    assert_eq!(state.phase(), Phase::Running);
}

#[test]
fn running_turns_to_done_and_stays() {
    let mut state = WaitState::new(Time::from_secs(1), 500).unwrap();
    assert_eq!(state.phase(), Phase::Running);
    assert!(state.step().is_some());
    assert_eq!(state.phase(), Phase::Running);
    assert!(state.step().is_some());
    assert_eq!(state.phase(), Phase::Done);
    for _ in 0..5 {
        assert_eq!(state.step(), None);
        assert_eq!(state.phase(), Phase::Done);
        assert_eq!(state.elapsed_millis(), 1000);
    }
}

#[test]
fn the_count_never_goes_back() {
    let mut state = WaitState::new(Time::from_secs(5), 700).unwrap();
    let mut before = state.elapsed_millis();
    for _ in 0..20 {
        state.step();
        let now = state.elapsed_millis();
        assert!(now >= before);
        before = now;
    }
    assert_eq!(before, 5600);
}

#[test]
fn the_longest_wait_in_the_longest_steps() {
    let (ticks, state) = run(u64::MAX, u64::MAX);
    assert_eq!(ticks.len(), 1000);
    assert_eq!(ticks[0].elapsed_millis, 0);
    assert_eq!(ticks[0].total_secs, u64::MAX);
    assert_eq!(ticks[999].elapsed_millis, 999 * u64::MAX as u128);
    assert_eq!(ticks[999].elapsed_secs as u128, 999 * u64::MAX as u128 / 1000);
    assert_eq!(state.elapsed_millis(), 1000 * u64::MAX as u128);
    assert_eq!(state.total_millis(), 1000 * u64::MAX as u128);
    assert_eq!(state.phase(), Phase::Done);
}
