//! Events that record what the engine decided for a query.
use vstd::prelude::*;

use std::time::{Duration, SystemTime, UNIX_EPOCH};

use crate::rule::opt_string_view;

verus! {

/// A point in time of the system clock.
#[verifier::external_type_specification]
#[verifier::external_body]
pub struct ExSystemTime(SystemTime);

/// `SystemTime::clone`. `SystemTime` is `Copy`, so its clone is the same value.
pub assume_specification[ <SystemTime as Clone>::clone ](t: &SystemTime) -> (r: SystemTime)
    ensures
        r == *t,
;

/// The current time of the system clock (`SystemTime::now`). Nothing is
/// claimed of the value: it depends on the clock.
#[verifier::external_body]
fn system_time_now() -> SystemTime {
    SystemTime::now()
}

/// What was done with a query.
#[derive(Debug, Clone, PartialEq, Eq, Structural)]
pub enum BlockAction {
    Blocked,
    AllowedByUserRule,
    AllowedByDefault,
}

/// One decision of the engine, with the rule behind it and when it was made.
#[derive(Debug, Clone)]
pub struct BlockEvent {
    pub domain: String,
    pub action: BlockAction,
    pub matched_rule: Option<String>,
    pub rule_source: Option<String>,
    pub category: Option<String>,
    pub occurred_at: SystemTime,
}

impl BlockEvent {
    /// An event stamped with the current time.
    pub fn new(
        domain: String,
        action: BlockAction,
        matched_rule: Option<String>,
        rule_source: Option<String>,
        category: Option<String>,
    ) -> (e: Self)
        ensures
            e.domain@ == domain@,
            e.action == action,
            opt_string_view(e.matched_rule) == opt_string_view(matched_rule),
            opt_string_view(e.rule_source) == opt_string_view(rule_source),
            opt_string_view(e.category) == opt_string_view(category),
    {
        BlockEvent {
            domain,
            action,
            matched_rule,
            rule_source,
            category,
            occurred_at: system_time_now(),
        }
    }
}

/// The time elapsed from the Unix epoch to `t`
/// (`SystemTime::duration_since(UNIX_EPOCH)`), `None` where `t` is earlier.
/// Nothing is claimed of the duration: the time is opaque here.
#[verifier::external_body]
fn duration_since_epoch(t: SystemTime) -> Option<Duration> {
    t.duration_since(UNIX_EPOCH).ok()
}

/// The whole seconds of a duration (`Duration::as_secs`). Nothing is claimed
/// of the count: the duration is opaque here.
#[verifier::external_body]
fn whole_seconds(d: &Duration) -> u64 {
    d.as_secs()
}

/// The stored form of a count of seconds since the epoch: zero for a time
/// before it, else the count taken as an `i64` (the bits of the `u64`).
pub fn unix_seconds_from(secs: Option<u64>) -> (r: i64)
    ensures
        r == match secs {
            Some(s) => s as i64,
            None => 0,
        },
{
    match secs {
        Some(s) => s as i64,
        None => 0,
    }
}

/// The seconds from the Unix epoch to a time, as the database stores them:
/// `unix_seconds_from` of the whole seconds elapsed since the epoch, `None`
/// for an earlier time. The count itself is not stated: a `SystemTime` is
/// opaque here and its elapsed time comes from std's time functions.
pub fn system_time_to_unix_seconds(time: SystemTime) -> i64 {
    let secs = match duration_since_epoch(time) {
        Some(d) => Some(whole_seconds(&d)),
        None => None,
    };
    unix_seconds_from(secs)
}

/// The seconds from the Unix epoch to now. The value is not stated: it comes
/// from the system clock.
pub fn current_unix_seconds() -> i64 {
    system_time_to_unix_seconds(system_time_now())
}

} // verus!
