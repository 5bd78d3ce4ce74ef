use vstd::prelude::*;

use crate::batch::Retention;
use crate::retry::RetryPolicy;

verus! {

/// Attempts to write a message's points when the configuration gives none.
pub const DEFAULT_EMIT_ATTEMPTS: u32 = 3;

/// First wait between two attempts to write points, in milliseconds, when
/// the configuration gives none.
pub const DEFAULT_EMIT_BACKOFF_MS: u64 = 200;

/// Probe timeout used when the configuration gives none, in seconds.
pub const DEFAULT_PROBE_TIMEOUT_SECS: u64 = 10;

/// Number of workers used when the configuration gives none.
pub const DEFAULT_WORKERS: usize = 4;

/// The agent's settings.
#[derive(Debug)]
pub struct Config {
    pub warp10_token: String,
    pub warp10_url: String,
    pub broker: String,
    pub topic: String,
    pub consumer_group: String,
    pub username: Option<String>,
    pub password: Option<String>,
    pub batch_window_secs: Option<u64>,
    pub probe_timeout_secs: Option<u64>,
    pub workers: Option<usize>,
    pub emit_attempts: Option<u32>,
    pub emit_backoff_ms: Option<u64>,
    pub discard_failed_batches: Option<bool>,
}

/// Values that replace those of the configuration file, when present.
#[derive(Debug)]
pub struct ConfigOverrides {
    pub warp10_url: Option<String>,
    pub warp10_token: Option<String>,
    pub broker: Option<String>,
    pub topic: Option<String>,
    pub consumer_group: Option<String>,
}

pub open spec fn or_else(o: Option<String>, d: Seq<char>) -> Seq<char> {
    match o {
        Some(s) => s@,
        None => d,
    }
}

fn pick(o: Option<String>, d: String) -> (r: String)
    ensures
        r@ == or_else(o, d@),
{
    match o {
        Some(s) => s,
        None => d,
    }
}

/// Broker credentials: the user name and the password, when both are given.
pub fn sasl_credentials(username: &Option<String>, password: &Option<String>) -> (r: Option<
    (String, String),
>)
    ensures
        r is Some <==> (username is Some && password is Some),
        match (r, *username, *password) {
            (Some((u, p)), Some(user), Some(pass)) => u@ == user@ && p@ == pass@,
            _ => true,
        },
{
    match (username, password) {
        (Some(u), Some(p)) => Some((u.clone(), p.clone())),
        _ => None,
    }
}

impl Config {
    /// The configuration with each present override in place of the file's
    /// value; the other settings are kept.
    pub fn with_overrides(self, o: ConfigOverrides) -> (r: Config)
        ensures
            r.warp10_url@ == or_else(o.warp10_url, self.warp10_url@),
            r.warp10_token@ == or_else(o.warp10_token, self.warp10_token@),
            r.broker@ == or_else(o.broker, self.broker@),
            r.topic@ == or_else(o.topic, self.topic@),
            r.consumer_group@ == or_else(o.consumer_group, self.consumer_group@),
            r.username == self.username,
            r.password == self.password,
            r.batch_window_secs == self.batch_window_secs,
            r.probe_timeout_secs == self.probe_timeout_secs,
            r.workers == self.workers,
            r.emit_attempts == self.emit_attempts,
            r.emit_backoff_ms == self.emit_backoff_ms,
            r.discard_failed_batches == self.discard_failed_batches,
    {
        Config {
            warp10_url: pick(o.warp10_url, self.warp10_url),
            warp10_token: pick(o.warp10_token, self.warp10_token),
            broker: pick(o.broker, self.broker),
            topic: pick(o.topic, self.topic),
            consumer_group: pick(o.consumer_group, self.consumer_group),
            username: self.username,
            password: self.password,
            batch_window_secs: self.batch_window_secs,
            probe_timeout_secs: self.probe_timeout_secs,
            workers: self.workers,
            emit_attempts: self.emit_attempts,
            emit_backoff_ms: self.emit_backoff_ms,
            discard_failed_batches: self.discard_failed_batches,
        }
    }

    /// What a failed batch write does with its results: drop them (their
    /// messages are rejected) when the configuration says so, else keep them
    /// for the next window.
    pub fn batch_retention(&self) -> (r: Retention)
        ensures
            r == (if self.discard_failed_batches == Some(true) {
                Retention::Discard
            } else {
                Retention::Keep
            }),
    {
        match self.discard_failed_batches {
            Some(true) => Retention::Discard,
            _ => Retention::Keep,
        }
    }

    /// The broker credentials, when both a user name and a password are set.
    pub fn credentials(&self) -> (r: Option<(String, String)>)
        ensures
            r is Some <==> (self.username is Some && self.password is Some),
            match (r, self.username, self.password) {
                (Some((u, p)), Some(user), Some(pass)) => u@ == user@ && p@ == pass@,
                _ => true,
            },
    {
        sasl_credentials(&self.username, &self.password)
    }

    /// The probe timeout in seconds: the configured one if positive, else
    /// the default.
    pub fn probe_timeout(&self) -> (r: u64)
        ensures
            r > 0,
            r == match self.probe_timeout_secs {
                Some(t) if t > 0 => t,
                _ => DEFAULT_PROBE_TIMEOUT_SECS,
            },
    {
        match self.probe_timeout_secs {
            Some(t) if t > 0 => t,
            _ => DEFAULT_PROBE_TIMEOUT_SECS,
        }
    }

    /// How writes of points are retried: the configured number of attempts
    /// (at least one) and first wait, or the defaults.
    pub fn retry_policy(&self) -> (r: RetryPolicy)
        ensures
            r.max_attempts == match self.emit_attempts {
                Some(n) if n > 0 => n,
                _ => DEFAULT_EMIT_ATTEMPTS,
            },
            r.base_delay_ms == match self.emit_backoff_ms {
                Some(ms) => ms,
                None => DEFAULT_EMIT_BACKOFF_MS,
            },
    {
        let max_attempts = match self.emit_attempts {
            Some(n) if n > 0 => n,
            _ => DEFAULT_EMIT_ATTEMPTS,
        };
        let base_delay_ms = match self.emit_backoff_ms {
            Some(ms) => ms,
            None => DEFAULT_EMIT_BACKOFF_MS,
        };
        RetryPolicy { max_attempts, base_delay_ms }
    }

    /// The size of the worker pool: the configured one if positive, else the
    /// default.
    pub fn worker_count(&self) -> (r: usize)
        ensures
            r > 0,
            r == match self.workers {
                Some(n) if n > 0 => n,
                _ => DEFAULT_WORKERS,
            },
    {
        match self.workers {
            Some(n) if n > 0 => n,
            _ => DEFAULT_WORKERS,
        }
    }
}

} // verus!
