//! Decisions of the background sampler: its timing settings, the cleanup
//! cutoff, and what each sampling tick does with the collected result.

use vstd::prelude::*;

use crate::config::Config;
use crate::domain::AppError;

verus! {

/// Seconds in a day, converting the retention window to seconds.
pub const SECS_PER_DAY: i64 = 86_400;

/// The timing of the two background loops.
#[derive(Debug, Clone, Copy, PartialEq, Eq, Structural)]
pub struct SamplerSettings {
    pub sample_interval_secs: u64,
    pub cleanup_interval_secs: u64,
    /// The retention window in seconds.
    pub retention_secs: i64,
}

impl SamplerSettings {
    /// The settings a configuration gives: its two intervals, and its
    /// retention in days (taken as an `i64`, as `as` casts) converted to
    /// seconds.
    pub fn from_config(config: &Config) -> (s: SamplerSettings)
        requires
            i64::MIN <= (config.retention_days as i64) * SECS_PER_DAY <= i64::MAX,
        ensures
            s.sample_interval_secs == config.sample_interval_secs,
            s.cleanup_interval_secs == config.cleanup_interval_secs,
            s.retention_secs == (config.retention_days as i64) * SECS_PER_DAY,
    {
        SamplerSettings {
            sample_interval_secs: config.sample_interval_secs,
            cleanup_interval_secs: config.cleanup_interval_secs,
            retention_secs: config.retention_days as i64 * SECS_PER_DAY,
        }
    }
}

/// The cutoff of a cleanup run at `now`: rows older than it are deleted,
/// which are exactly the rows more than `retention_secs` old.
pub fn cleanup_cutoff(now: i64, retention_secs: i64) -> (cutoff: i64)
    requires
        i64::MIN <= now - retention_secs <= i64::MAX,
    ensures
        cutoff == now - retention_secs,
{
    now - retention_secs
}

/// What a sampling tick does with the collector's result. Neither outcome
/// stops the loop: a failure is logged and the next tick proceeds.
pub enum SampleStep<S> {
    /// Store the sample.
    Insert(S),
    /// Skip this tick: the collector failed.
    Skip(AppError),
}

/// The step for a collected result: a sample is stored, a failure skipped.
pub fn sample_step<S>(collected: Result<S, AppError>) -> (step: SampleStep<S>)
    ensures
        match collected {
            Ok(s) => step == SampleStep::<S>::Insert(s),
            Err(e) => step == SampleStep::<S>::Skip(e),
        },
{
    match collected {
        Ok(s) => SampleStep::Insert(s),
        Err(e) => SampleStep::Skip(e),
    }
}

/// A configuration whose retention is at most `i64::MAX / 86400` days always
/// gives sampler settings without overflow, with a non-negative retention
/// window, and every cleanup run at a non-negative time `now` computes its
/// cutoff without overflow: the `requires` of [`SamplerSettings::from_config`]
/// and of [`cleanup_cutoff`] hold.
pub proof fn lemma_sampler_arithmetic_in_range(config: Config, now: i64)
    requires
        config.retention_days <= i64::MAX / SECS_PER_DAY,
        now >= 0,
    ensures
        i64::MIN <= (config.retention_days as i64) * SECS_PER_DAY <= i64::MAX,
        0 <= (config.retention_days as i64) * SECS_PER_DAY,
        i64::MIN <= now - (config.retention_days as i64) * SECS_PER_DAY <= i64::MAX,
{
    assert((config.retention_days as i64) == config.retention_days);
}

} // verus!
