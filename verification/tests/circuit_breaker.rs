use circuitbreakers::{CircuitBreaker, NodeInfo, RingBuffer, Settings, State};
use std::time::Duration;

/// A threshold given as a percentage, in hundredths of a percent: the largest
/// number of hundredths that is not above it.
fn hundredths(percent: f32) -> u32 {
    let mut threshold = (percent * 100.0).floor() as u32;
    while threshold > 0 && threshold as f32 / 100.0 > percent {
        threshold -= 1;
    }
    while (threshold + 1) as f32 / 100.0 <= percent {
        threshold += 1;
    }
    threshold
}

/// The error rate as a percentage with two decimals.
fn percent(hundredths: u32) -> f32 {
    hundredths as f32 / 100.0
}

fn secs(seconds: u64) -> u128 {
    Duration::from_secs(seconds).as_nanos()
}

fn millis(milliseconds: u64) -> u128 {
    Duration::from_millis(milliseconds).as_nanos()
}

fn info(success_count: usize, failure_count: usize) -> NodeInfo {
    NodeInfo { failure_count, success_count }
}

/// A breaker that holds what `cb` holds, but for its state and trial successes.
fn in_state(cb: &mut CircuitBreaker, state: State, trial_success: usize) -> CircuitBreaker {
    let settings = *cb.get_settings();
    let size = cb.get_buffer().get_size();
    let mut buffer = RingBuffer::new(size);
    buffer.advance(cb.get_buffer().get_cursor());
    for index in 0..size {
        buffer.set_node_info(index, cb.get_buffer().get_node_info(index));
    }
    CircuitBreaker::from_parts(buffer, state, 0, 0, trial_success, settings)
}

#[test]
fn hundredths_of_a_percentage() {
    assert_eq!(hundredths(39.99), 3999);
    assert_eq!(hundredths(39.99999), 3999);
    assert_eq!(hundredths(99.99), 9999);
    assert_eq!(hundredths(10.0), 1000);
    assert_eq!(hundredths(5.5), 550);
    assert_eq!(hundredths(0.0), 0);
}

#[test]
fn circuit_breaker_new_test() {
    assert_eq!(CircuitBreaker::new(Settings::default()).get_buffer().get_size(), 5);
    assert_eq!(*CircuitBreaker::new(Settings::default()).get_settings(), Settings::default());
    assert_eq!(
        CircuitBreaker::new(Settings { buffer_size: 10, ..Settings::default() })
            .get_buffer()
            .get_size(),
        10
    );
    assert_eq!(
        *CircuitBreaker::new(Settings {
            buffer_size: 666,
            min_eval_size: 5,
            error_threshold: hundredths(99.99),
            retry_timeout: Duration::from_millis(20).as_nanos(),
            buffer_span_duration: Duration::from_millis(999).as_nanos(),
            trial_success_required: 42,
            ..Settings::default()
        })
        .get_settings(),
        Settings {
            buffer_size: 666,
            min_eval_size: 5,
            error_threshold: hundredths(99.99),
            retry_timeout: Duration::from_millis(20).as_nanos(),
            buffer_span_duration: Duration::from_millis(999).as_nanos(),
            trial_success_required: 42,
        }
    );
}

#[test]
fn get_state_test() {
    assert_eq!(CircuitBreaker::new(Settings::default()).get_state(), State::Closed);
}

#[test]
fn advance_buffer_for_time_test() {
    let buffer_span_duration = secs(1);
    let last_record = secs(10);
    let mut cb = CircuitBreaker::from_parts(
        RingBuffer::new(3),
        State::Closed,
        last_record,
        last_record,
        0,
        Settings { buffer_span_duration, ..Settings::default() },
    );
    // the time at which the outcomes come in: just after the start
    let now = last_record + millis(1);

    assert_eq!(cb.get_buffer().get_node_info(0), info(0, 0));
    assert_eq!(cb.get_buffer().get_node_info(1), info(0, 0));
    assert_eq!(cb.get_buffer().get_node_info(2), info(0, 0));
    assert_eq!(cb.get_buffer().get_cursor(), 0);
    cb.record_at::<(), &str>(now, Ok(()));
    cb.record_at::<(), &str>(now, Ok(()));
    assert_eq!(cb.get_buffer().get_node_info(0), info(2, 0));
    assert_eq!(cb.get_buffer().get_node_info(1), info(0, 0));
    assert_eq!(cb.get_buffer().get_node_info(2), info(0, 0));

    cb.advance_buffer_for_time(last_record);
    assert_eq!(cb.get_buffer().get_cursor(), 0);
    assert_eq!(cb.get_buffer().get_node_info(0), info(2, 0));
    assert_eq!(cb.get_buffer().get_node_info(1), info(0, 0));
    assert_eq!(cb.get_buffer().get_node_info(2), info(0, 0));

    cb.advance_buffer_for_time(last_record + buffer_span_duration);
    assert_eq!(cb.get_buffer().get_cursor(), 1);
    cb.record_at::<(), &str>(now, Ok(()));
    cb.record_at::<(), &str>(now, Err(""));
    cb.record_at::<(), &str>(now, Err(""));
    cb.record_at::<(), &str>(now, Ok(()));
    assert_eq!(cb.get_buffer().get_node_info(0), info(2, 0));
    assert_eq!(cb.get_buffer().get_node_info(1), info(2, 2));
    assert_eq!(cb.get_buffer().get_node_info(2), info(0, 0));

    cb.advance_buffer_for_time(last_record + buffer_span_duration + buffer_span_duration);
    assert_eq!(cb.get_buffer().get_cursor(), 2);
    cb.record_at::<(), &str>(now, Err(""));
    cb.record_at::<(), &str>(now, Ok(()));
    assert_eq!(cb.get_buffer().get_node_info(0), info(2, 0));
    assert_eq!(cb.get_buffer().get_node_info(1), info(2, 2));
    assert_eq!(cb.get_buffer().get_node_info(2), info(1, 1));

    cb.advance_buffer_for_time(
        last_record
            + buffer_span_duration
            + buffer_span_duration
            + buffer_span_duration
            + buffer_span_duration
            + buffer_span_duration,
    );
    assert_eq!(cb.get_buffer().get_cursor(), 2);
    assert_eq!(cb.get_buffer().get_node_info(0), info(0, 0));
    assert_eq!(cb.get_buffer().get_node_info(1), info(0, 0));
    assert_eq!(cb.get_buffer().get_node_info(2), info(0, 0));
    cb.record_at::<(), &str>(now, Ok(()));
    cb.record_at::<(), &str>(now, Err(""));
    cb.record_at::<(), &str>(now, Err(""));
    assert_eq!(cb.get_buffer().get_node_info(0), info(0, 0));
    assert_eq!(cb.get_buffer().get_node_info(1), info(0, 0));
    assert_eq!(cb.get_buffer().get_node_info(2), info(1, 2));
}

#[test]
fn record_test() {
    let mut cb = CircuitBreaker::new(Settings::default());
    assert_eq!(cb.get_buffer().get_node_info(0), info(0, 0));
    cb.record::<(), &str>(Ok(()));
    assert_eq!(cb.get_buffer().get_node_info(0), info(1, 0));
    cb.record::<(), &str>(Err(""));
    assert_eq!(cb.get_buffer().get_node_info(0), info(1, 1));

    let opened_at = cb.now();
    let mut cb = in_state(&mut cb, State::Open(opened_at), 0);
    assert_eq!(cb.get_buffer().get_node_info(0), info(1, 1));
    cb.record::<(), &str>(Ok(()));
    cb.record::<(), &str>(Err(""));
    assert_eq!(cb.get_buffer().get_node_info(0), info(1, 1));

    let mut cb = in_state(&mut cb, State::HalfOpen, 0);
    assert_eq!(cb.get_buffer().get_node_info(0), info(1, 1));
    assert_eq!(cb.get_trial_success(), 0);
    cb.record::<(), &str>(Ok(()));
    assert_eq!(cb.get_buffer().get_node_info(0), info(1, 1));
    assert_eq!(cb.get_trial_success(), 1);
    cb.record::<(), &str>(Ok(()));
    assert_eq!(cb.get_buffer().get_node_info(0), info(1, 1));
    assert_eq!(cb.get_trial_success(), 2);
    cb.record::<(), &str>(Err(""));
    assert!(matches!(cb.get_state(), State::Open(_)));
}

#[test]
fn record_timed_test() {
    let buffer_span_duration = secs(1);
    let mut cb = CircuitBreaker::new(Settings { buffer_span_duration, ..Settings::default() });
    let mut now = millis(2);

    cb.advance_buffer_for_time(now);
    assert_eq!(cb.get_buffer().get_cursor(), 0);
    cb.record_at::<(), &str>(now, Ok(()));
    cb.record_at::<(), &str>(now, Ok(()));
    cb.record_at::<(), &str>(now, Ok(()));
    now += buffer_span_duration;
    cb.advance_buffer_for_time(now);
    assert_eq!(cb.get_buffer().get_cursor(), 1);
    assert_eq!(cb.get_buffer().get_node_info(0).success_count, 3);
    assert_eq!(cb.get_buffer().get_node_info(1).success_count, 0);
    assert_eq!(cb.get_buffer().get_node_info(2).success_count, 0);
    assert_eq!(cb.get_buffer().get_node_info(3).success_count, 0);
    assert_eq!(cb.get_buffer().get_node_info(4).success_count, 0);
    cb.record_at::<(), &str>(now, Ok(()));
    cb.record_at::<(), &str>(now, Ok(()));
    cb.record_at::<(), &str>(now, Ok(()));
    now += buffer_span_duration;
    cb.advance_buffer_for_time(now);
    assert_eq!(cb.get_buffer().get_cursor(), 2);
    assert_eq!(cb.get_buffer().get_node_info(0).success_count, 3);
    assert_eq!(cb.get_buffer().get_node_info(1).success_count, 3);
    assert_eq!(cb.get_buffer().get_node_info(2).success_count, 0);
    assert_eq!(cb.get_buffer().get_node_info(3).success_count, 0);
    assert_eq!(cb.get_buffer().get_node_info(4).success_count, 0);
    cb.record_at::<(), &str>(now, Ok(()));
    cb.record_at::<(), &str>(now, Ok(()));
    cb.record_at::<(), &str>(now, Ok(()));
    now += buffer_span_duration;
    cb.advance_buffer_for_time(now);
    assert_eq!(cb.get_buffer().get_cursor(), 3);
    assert_eq!(cb.get_buffer().get_node_info(0).success_count, 3);
    assert_eq!(cb.get_buffer().get_node_info(1).success_count, 3);
    assert_eq!(cb.get_buffer().get_node_info(2).success_count, 3);
    assert_eq!(cb.get_buffer().get_node_info(3).success_count, 0);
    assert_eq!(cb.get_buffer().get_node_info(4).success_count, 0);
    cb.record_at::<(), &str>(now, Ok(()));
    cb.record_at::<(), &str>(now, Ok(()));
    cb.record_at::<(), &str>(now, Ok(()));
    now += buffer_span_duration;
    cb.advance_buffer_for_time(now);
    assert_eq!(cb.get_buffer().get_cursor(), 4);
    assert_eq!(cb.get_buffer().get_node_info(0).success_count, 3);
    assert_eq!(cb.get_buffer().get_node_info(1).success_count, 3);
    assert_eq!(cb.get_buffer().get_node_info(2).success_count, 3);
    assert_eq!(cb.get_buffer().get_node_info(3).success_count, 3);
    assert_eq!(cb.get_buffer().get_node_info(4).success_count, 0);
    cb.record_at::<(), &str>(now, Ok(()));
    cb.record_at::<(), &str>(now, Ok(()));
    cb.record_at::<(), &str>(now, Ok(()));
    now += buffer_span_duration;
    cb.advance_buffer_for_time(now);
    assert_eq!(cb.get_buffer().get_cursor(), 0);
    assert_eq!(cb.get_buffer().get_node_info(0).success_count, 0);
    assert_eq!(cb.get_buffer().get_node_info(1).success_count, 3);
    assert_eq!(cb.get_buffer().get_node_info(2).success_count, 3);
    assert_eq!(cb.get_buffer().get_node_info(3).success_count, 3);
    assert_eq!(cb.get_buffer().get_node_info(4).success_count, 3);
    cb.record_at::<(), &str>(now, Ok(()));

    // We skip 3 nodes ahead
    now += buffer_span_duration + buffer_span_duration + buffer_span_duration;
    cb.evaluate_state_at(now);

    assert_eq!(cb.get_buffer().get_node_info(0).success_count, 1);
    assert_eq!(cb.get_buffer().get_node_info(1).success_count, 0); // skipped
    assert_eq!(cb.get_buffer().get_node_info(2).success_count, 0); // skipped
    assert_eq!(cb.get_buffer().get_node_info(3).success_count, 0); // current
    assert_eq!(cb.get_buffer().get_node_info(4).success_count, 3);
    cb.advance_buffer_for_time(now);
    assert_eq!(cb.get_buffer().get_cursor(), 3);
}

#[test]
fn evaluate_state_test() {
    // Open state within the retry_timeout time
    let retry_timeout = secs(1);
    let mut cb = CircuitBreaker::from_parts(
        RingBuffer::new(5),
        State::Open(0),
        0,
        0,
        0,
        Settings { retry_timeout, ..Settings::default() },
    );
    cb.evaluate_state();
    assert!(matches!(cb.get_state(), State::Open(_)));

    // Open state after the retry_timeout time
    let retry_timeout = secs(1);
    let now = secs(30);
    let mut cb = CircuitBreaker::from_parts(
        RingBuffer::new(5),
        State::Open(now - retry_timeout),
        now,
        now,
        0,
        Settings { retry_timeout, ..Settings::default() },
    );
    cb.evaluate_state_at(now);
    assert_eq!(cb.get_state_at(now), State::HalfOpen);

    // Closed state within the margin of error
    let buffer_span_duration = secs(1);
    let mut cb = CircuitBreaker::from_parts(
        RingBuffer::new(5),
        State::Closed,
        now,
        now,
        0,
        Settings {
            min_eval_size: 4,
            error_threshold: hundredths(39.99999),
            buffer_span_duration,
            ..Settings::default()
        },
    );
    cb.record_at::<(), &str>(now, Err(""));
    cb.record_at::<(), &str>(now, Ok(()));
    cb.record_at::<(), &str>(now, Ok(()));
    cb.record_at::<(), &str>(now, Ok(()));
    cb.record_at::<(), &str>(now, Ok(()));
    cb.advance_buffer_for_time(now + buffer_span_duration);
    assert_eq!(percent(cb.get_error_rate()), 20.0);
    cb.evaluate_state_at(now + buffer_span_duration);
    assert_eq!(cb.get_state_at(now + buffer_span_duration), State::Closed);

    // Closed state an error larger than error_threshold
    let buffer_span_duration = secs(1);
    let mut cb = CircuitBreaker::from_parts(
        RingBuffer::new(5),
        State::Closed,
        now,
        now,
        0,
        Settings {
            min_eval_size: 4,
            error_threshold: hundredths(39.99999),
            buffer_span_duration,
            ..Settings::default()
        },
    );
    cb.record_at::<(), &str>(now, Err(""));
    cb.record_at::<(), &str>(now, Err(""));
    cb.record_at::<(), &str>(now, Ok(()));
    cb.record_at::<(), &str>(now, Ok(()));
    cb.record_at::<(), &str>(now, Ok(()));
    cb.advance_buffer_for_time(now + buffer_span_duration);
    assert_eq!(percent(cb.get_error_rate()), 40.0);
    cb.evaluate_state_at(now + buffer_span_duration);
    assert!(matches!(cb.get_state_at(now + buffer_span_duration), State::Open(_)));

    // HalfOpen state with slowly increasing trial_success
    let settings = Settings { trial_success_required: 5, ..Settings::default() };
    let mut cb =
        CircuitBreaker::from_parts(RingBuffer::new(5), State::HalfOpen, now, now, 0, settings);
    cb.evaluate_state();
    assert_eq!(cb.get_state(), State::HalfOpen);
    let mut cb =
        CircuitBreaker::from_parts(RingBuffer::new(5), State::HalfOpen, now, now, 4, settings);
    cb.evaluate_state();
    assert_eq!(cb.get_state(), State::HalfOpen);
    let mut cb =
        CircuitBreaker::from_parts(RingBuffer::new(5), State::HalfOpen, now, now, 4 + 1, settings);
    cb.evaluate_state();
    assert_eq!(cb.get_state(), State::Closed);
}

#[test]
fn get_buffer_test() {
    let mut cb = CircuitBreaker::new(Settings::default());
    // what is done to the buffer handed out is done to the buffer of the breaker
    cb.get_buffer().add_failure();
    cb.get_buffer().advance(2);
    cb.get_buffer().add_success();
    assert_eq!(cb.get_buffer().get_cursor(), 2);
    assert_eq!(cb.get_buffer().get_node_info(0), info(0, 1));
    assert_eq!(cb.get_buffer().get_node_info(2), info(1, 0));
    assert_eq!(cb.get_error_rate(), 0);
    let mut cb = in_state(
        &mut cb,
        State::Closed,
        0,
    );
    cb.get_buffer().set_node_info(1, info(0, 99));
    assert_eq!(cb.get_error_rate(), 10000);
}

#[test]
fn get_trial_success_test() {
    let mut cb = CircuitBreaker::from_parts(
        RingBuffer::new(5),
        State::HalfOpen,
        0,
        0,
        0,
        Settings::default(),
    );
    assert_eq!(cb.get_trial_success(), 0);
    cb.record::<(), &str>(Ok(()));
    cb.record::<(), &str>(Ok(()));
    cb.record::<(), &str>(Ok(()));
    assert_eq!(cb.get_trial_success(), 3);
}

#[test]
fn get_settings_test() {
    let cb = CircuitBreaker::new(Settings::default());
    assert_eq!(*cb.get_settings(), Settings::default());

    let settings = Settings {
        buffer_size: 666,
        min_eval_size: 42,
        error_threshold: hundredths(5.5),
        retry_timeout: Duration::from_millis(55).as_nanos(),
        buffer_span_duration: Duration::from_secs(80).as_nanos(),
        trial_success_required: 100,
    };
    let cb = CircuitBreaker::new(settings);
    assert_eq!(*cb.get_settings(), settings);
}

#[test]
fn circuit_breaker_get_error_rate_test() {
    let mut cb = CircuitBreaker::new(Settings {
        min_eval_size: 3,
        buffer_span_duration: secs(1),
        ..Settings::default()
    });
    cb.record_at::<(), &str>(0, Err(""));
    cb.record_at::<(), &str>(0, Ok(()));
    cb.record_at::<(), &str>(0, Ok(()));
    assert_eq!(cb.get_error_rate(), 0);
    cb.advance_buffer_for_time(secs(1));
    assert_eq!(cb.get_error_rate(), 3333);
}

#[test]
fn get_elapsed_time_test() {
    let timeout = secs(77);
    let cb = CircuitBreaker::from_parts(
        RingBuffer::new(5),
        State::Closed,
        timeout,
        timeout,
        0,
        Settings::default(),
    );

    assert_eq!(cb.get_elapsed_time(secs(5), timeout + secs(1)), secs(1));
    assert_eq!(cb.get_elapsed_time(secs(5), timeout + secs(4)), secs(4));
    assert_eq!(cb.get_elapsed_time(secs(5), timeout + secs(5)), secs(0));
    assert_eq!(cb.get_elapsed_time(secs(5), timeout + secs(6)), secs(1));
}

#[test]
fn circuit_breaker_end_2_end_test() {
    let buffer_span_duration = millis(300);
    let retry_timeout = millis(200);
    let mut cb = CircuitBreaker::new(Settings {
        buffer_span_duration,
        retry_timeout,
        min_eval_size: 5,
        trial_success_required: 3,
        ..Settings::default()
    });
    let mut now = millis(1);

    let cursor = cb.get_buffer().get_cursor();
    assert_eq!(cursor, 0);
    assert_eq!(cb.get_buffer().get_node_info(cursor), info(0, 0));
    assert_eq!(cb.get_state_at(now), State::Closed);
    assert_eq!(percent(cb.get_error_rate()), 0.0);

    cb.record_at::<(), &str>(now, Ok(()));
    let cursor = cb.get_buffer().get_cursor();
    assert_eq!(cursor, 0);
    assert_eq!(cb.get_buffer().get_node_info(cursor), info(1, 0));
    assert_eq!(cb.get_state_at(now), State::Closed);
    assert_eq!(percent(cb.get_error_rate()), 0.0);
    now += buffer_span_duration;

    assert_eq!(cb.get_state_at(now), State::Closed);
    assert_eq!(cb.get_buffer().get_cursor(), 1);
    cb.record_at::<(), &str>(now, Err(""));
    cb.record_at::<(), &str>(now, Err(""));
    cb.record_at::<(), &str>(now, Err(""));
    cb.record_at::<(), &str>(now, Err(""));
    cb.record_at::<(), &str>(now, Err(""));
    now += buffer_span_duration;
    let cursor = cb.get_buffer().get_cursor();
    assert_eq!(cursor, 1);
    assert_eq!(cb.get_buffer().get_node_info(cursor), info(0, 5));
    assert!(matches!(cb.get_state_at(now), State::Open(_)));
    assert_eq!(percent(cb.get_error_rate()), 83.33);

    cb.record_at::<(), &str>(now, Err(""));
    cb.record_at::<(), &str>(now, Ok(()));
    cb.record_at::<(), &str>(now, Err(""));
    let cursor = cb.get_buffer().get_cursor();
    assert_eq!(cursor, 2);
    assert_eq!(cb.get_buffer().get_node_info(cursor), info(0, 0));
    assert!(matches!(cb.get_state_at(now), State::Open(_)));
    assert_eq!(percent(cb.get_error_rate()), 83.33);

    now += retry_timeout;
    let cursor = cb.get_buffer().get_cursor();
    assert_eq!(cursor, 2);
    assert_eq!(cb.get_buffer().get_node_info(cursor), info(0, 0));
    assert_eq!(cb.get_state_at(now), State::HalfOpen);
    assert_eq!(percent(cb.get_error_rate()), 83.33);

    cb.record_at::<(), &str>(now, Ok(()));
    cb.record_at::<(), &str>(now, Ok(()));

    let cursor = cb.get_buffer().get_cursor();
    assert_eq!(cursor, 2);
    assert_eq!(cb.get_buffer().get_node_info(cursor), info(0, 0));
    assert_eq!(cb.get_state_at(now), State::HalfOpen);
    assert_eq!(percent(cb.get_error_rate()), 83.33);

    cb.record_at::<(), &str>(now, Err(""));

    let cursor = cb.get_buffer().get_cursor();
    assert_eq!(cursor, 2);
    assert_eq!(cb.get_buffer().get_node_info(cursor), info(0, 0));
    assert!(matches!(cb.get_state_at(now), State::Open(_)));
    assert_eq!(percent(cb.get_error_rate()), 83.33);

    now += retry_timeout;

    let cursor = cb.get_buffer().get_cursor();
    assert_eq!(cursor, 2);
    assert_eq!(cb.get_buffer().get_node_info(cursor), info(0, 0));
    assert_eq!(cb.get_state_at(now), State::HalfOpen);
    assert_eq!(percent(cb.get_error_rate()), 83.33);

    cb.record_at::<(), &str>(now, Ok(()));
    cb.record_at::<(), &str>(now, Ok(()));
    cb.record_at::<(), &str>(now, Ok(()));

    let cursor = cb.get_buffer().get_cursor();
    assert_eq!(cursor, 0);
    assert_eq!(cb.get_buffer().get_node_info(cursor), info(0, 0));
    assert_eq!(cb.get_state_at(now), State::Closed);
    assert_eq!(percent(cb.get_error_rate()), 0.0);

    cb.record_at::<(), &str>(now, Ok(()));
    cb.record_at::<(), &str>(now, Ok(()));
    cb.record_at::<(), &str>(now, Ok(()));
    cb.record_at::<(), &str>(now, Ok(()));
    cb.record_at::<(), &str>(now, Err(""));

    let cursor = cb.get_buffer().get_cursor();
    assert_eq!(cursor, 0);
    assert_eq!(cb.get_buffer().get_node_info(cursor), info(4, 1));
    assert_eq!(cb.get_state_at(now), State::Closed);
    assert_eq!(percent(cb.get_error_rate()), 0.0);
}
