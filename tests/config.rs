use poke_agent::config::{
    sasl_credentials, Config, ConfigOverrides, DEFAULT_EMIT_ATTEMPTS, DEFAULT_EMIT_BACKOFF_MS,
    DEFAULT_PROBE_TIMEOUT_SECS, DEFAULT_WORKERS,
};
use poke_agent::batch::Retention;
use poke_agent::retry::RetryPolicy;

fn file_config() -> Config {
    Config {
        warp10_token: "file-token".to_string(),
        warp10_url: "http://file:8080/".to_string(),
        broker: "file:9092".to_string(),
        topic: "probes".to_string(),
        consumer_group: "agents".to_string(),
        username: Some("user".to_string()),
        password: None,
        batch_window_secs: Some(30),
        probe_timeout_secs: None,
        workers: Some(0),
        emit_attempts: None,
        emit_backoff_ms: Some(50),
        discard_failed_batches: None,
    }
}

fn no_overrides() -> ConfigOverrides {
    ConfigOverrides { warp10_url: None, warp10_token: None, broker: None, topic: None, consumer_group: None }
}

#[test]
fn overrides_replace_only_given_values() {
    let o = ConfigOverrides { broker: Some("env:9092".to_string()), topic: Some("other".to_string()), ..no_overrides() };
    let c = file_config().with_overrides(o);
    assert_eq!(c.broker, "env:9092");
    assert_eq!(c.topic, "other");
    assert_eq!(c.warp10_url, "http://file:8080/");
    assert_eq!(c.warp10_token, "file-token");
    assert_eq!(c.consumer_group, "agents");
    assert_eq!(c.batch_window_secs, Some(30));
}

#[test]
fn no_overrides_keep_file_values() {
    let c = file_config().with_overrides(no_overrides());
    assert_eq!(c.broker, "file:9092");
    assert_eq!(c.topic, "probes");
}

#[test]
fn credentials_need_user_and_password() {
    let mut c = file_config();
    assert!(c.credentials().is_none());
    c.password = Some("secret".to_string());
    assert_eq!(c.credentials(), Some(("user".to_string(), "secret".to_string())));
    c.username = None;
    assert!(c.credentials().is_none());
}

#[test]
fn timeout_and_workers_fall_back_to_defaults() {
    let mut c = file_config();
    assert_eq!(c.probe_timeout(), DEFAULT_PROBE_TIMEOUT_SECS);
    assert_eq!(c.worker_count(), DEFAULT_WORKERS);
    assert_eq!(DEFAULT_WORKERS, 4);
    c.probe_timeout_secs = Some(3);
    c.workers = Some(8);
    assert_eq!(c.probe_timeout(), 3);
    assert_eq!(c.worker_count(), 8);
    c.probe_timeout_secs = Some(0);
    assert_eq!(c.probe_timeout(), DEFAULT_PROBE_TIMEOUT_SECS);
}

#[test]
fn sasl_credentials_need_both_parts() {
    let user = Some("u".to_string());
    let pass = Some("p".to_string());
    assert_eq!(sasl_credentials(&user, &pass), Some(("u".to_string(), "p".to_string())));
    assert_eq!(sasl_credentials(&user, &None), None);
    assert_eq!(sasl_credentials(&None, &pass), None);
}

#[test]
fn retry_policy_from_configuration() {
    let mut c = file_config();
    let p = c.retry_policy();
    assert_eq!(p.max_attempts, DEFAULT_EMIT_ATTEMPTS);
    assert_eq!(p.base_delay_ms, 50);
    c.emit_attempts = Some(5);
    c.emit_backoff_ms = None;
    let p = c.retry_policy();
    assert_eq!(p.max_attempts, 5);
    assert_eq!(p.base_delay_ms, DEFAULT_EMIT_BACKOFF_MS);
}

#[test]
fn retry_delays_double_then_stop() {
    let p = RetryPolicy { max_attempts: 4, base_delay_ms: 100 };
    assert_eq!(p.delay_after(0), None);
    assert_eq!(p.delay_after(1), Some(100));
    assert_eq!(p.delay_after(2), Some(200));
    assert_eq!(p.delay_after(3), Some(400));
    assert_eq!(p.delay_after(4), None);
    let big = RetryPolicy { max_attempts: 100, base_delay_ms: u64::MAX / 3 };
    assert_eq!(big.delay_after(2), Some(u64::MAX / 3 * 2));
    assert_eq!(big.delay_after(3), Some(u64::MAX));
    assert_eq!(big.delay_after(90), Some(u64::MAX));
}

#[test]
fn batch_retention_from_configuration() {
    let mut c = file_config();
    assert_eq!(c.batch_retention(), Retention::Keep);
    c.discard_failed_batches = Some(false);
    assert_eq!(c.batch_retention(), Retention::Keep);
    c.discard_failed_batches = Some(true);
    assert_eq!(c.batch_retention(), Retention::Discard);
}
