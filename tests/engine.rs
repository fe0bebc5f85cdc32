use multiplex_load::config::LoadConfig;
use multiplex_load::engine::{new_engine, SubmissionError};

#[test]
fn engine_accepts_limits() {
    let config = config_with(16, 2000);
    assert!(new_engine(&config).is_ok());
}

#[test]
fn engine_takes_zero_stream_cap() {
    assert!(new_engine(&config_with(16, 0)).is_ok());
    assert!(new_engine(&config_with(0, 1)).is_ok());
}

#[test]
fn engine_takes_largest_caps() {
    assert!(new_engine(&config_with(i32::MAX as usize, i32::MAX as usize)).is_ok());
}

#[test]
fn engine_refuses_caps_beyond_range() {
    let over = i32::MAX as usize + 1;
    assert!(matches!(new_engine(&config_with(over, 2000)), Err(SubmissionError::LimitOutOfRange)));
    assert!(matches!(new_engine(&config_with(16, over)), Err(SubmissionError::LimitOutOfRange)));
    assert!(matches!(
        new_engine(&config_with(usize::MAX, usize::MAX)),
        Err(SubmissionError::LimitOutOfRange)
    ));
}

fn config_with(max_connections: usize, max_streams: usize) -> LoadConfig {
    LoadConfig {
        url: String::from("http://localhost:8080/"),
        workers: 2,
        requests_per_worker: 10,
        max_connections,
        max_streams,
        wait_timeout_secs: 60,
    }
}
