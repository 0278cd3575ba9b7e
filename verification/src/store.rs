//! The records that the event database keeps, and the small rules of how the
//! database layer reads and writes them. The SQLite access itself runs
//! outside this crate.
use vstd::prelude::*;

use crate::event::BlockAction;
use crate::rule::opt_str_view;

verus! {

/// A stored event.
#[derive(Debug, Clone, PartialEq, Eq)]
pub struct StoredBlockEvent {
    pub id: i64,
    pub domain: String,
    pub action: String,
    pub matched_rule: Option<String>,
    pub rule_source: Option<String>,
    pub category: Option<String>,
    pub occurred_at_unix: i64,
}

/// How often a domain was blocked, when last, and by which rule.
#[derive(Debug, Clone, PartialEq, Eq)]
pub struct BlockedDomainSummary {
    pub domain: String,
    pub block_count: i64,
    pub last_blocked_at_unix: i64,
    pub matched_rule: Option<String>,
    pub rule_source: Option<String>,
    pub category: Option<String>,
}

/// The text stored for an action.
pub open spec fn action_text(action: BlockAction) -> Seq<char> {
    match action {
        BlockAction::Blocked => "blocked"@,
        BlockAction::AllowedByUserRule => "allowed_by_user_rule"@,
        BlockAction::AllowedByDefault => "allowed_by_default"@,
    }
}

/// The text stored for an action.
pub fn action_to_text(action: &BlockAction) -> (s: &'static str)
    ensures
        s@ == action_text(*action),
{
    match action {
        BlockAction::Blocked => "blocked",
        BlockAction::AllowedByUserRule => "allowed_by_user_rule",
        BlockAction::AllowedByDefault => "allowed_by_default",
    }
}

/// The number of rows that a listing returns: the asked limit, kept within
/// 1 to 500.
pub fn clamp_limit(limit: i64) -> (r: i64)
    ensures
        r == if limit < 1 {
            1
        } else if limit > 500 {
            500
        } else {
            limit
        },
{
    if limit < 1 {
        1
    } else if limit > 500 {
        500
    } else {
        limit
    }
}

/// The key of the protection setting.
pub open spec fn protection_key() -> Seq<char> {
    "protection_enabled"@
}

/// The stored value of the protection setting.
pub fn protection_setting_value(enabled: bool) -> (s: &'static str)
    ensures
        s@ == crate::text::bool_text(enabled),
{
    if enabled {
        "true"
    } else {
        "false"
    }
}

/// Protection is on unless the stored value is exactly `false`.
pub open spec fn protection_enabled(value: Option<Seq<char>>) -> bool {
    value != Some("false"@)
}

/// Reads the protection setting from its stored value.
pub fn protection_enabled_from(value: Option<&str>) -> (b: bool)
    ensures
        b == protection_enabled(opt_str_view(value)),
{
    match value {
        Some(v) => {
            let c = crate::text::chars_of(v);
            let f = crate::text::chars_of("false");
            let same = crate::text::equals_range(c.as_slice(), 0, c.len(), f.as_slice());
            assert(c@.subrange(0, c@.len() as int) =~= c@);
            !same
        },
        None => true,
    }
}

/// Blocked and user-allowed queries are stored as events; queries allowed
/// by default are not.
pub fn should_store_event(action: &BlockAction) -> (b: bool)
    ensures
        b == (*action == BlockAction::Blocked || *action == BlockAction::AllowedByUserRule),
{
    match action {
        BlockAction::Blocked | BlockAction::AllowedByUserRule => true,
        BlockAction::AllowedByDefault => false,
    }
}

} // verus!
