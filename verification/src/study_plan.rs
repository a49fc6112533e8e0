//! Rules of the daily study plan: its settings, how many scheduled reviews
//! and new items a day's queue takes, and which submissions it accepts.
//!
//! The queue's items are read from the item store in due order at the edge
//! of the program; the decisions around those reads are made here.
use vstd::prelude::*;

use crate::text::str_eq;

verus! {

/// Largest daily target.
pub const MAX_DAILY_TARGET: i64 = 10000;

pub const INVALID_PREFERENCES_MESSAGE: &'static str = "Daily target must be 1–10,000; maximum new items must be between 0 and the daily target.";

/// Valid study preferences: a daily target from 1 to 10,000 and a new-item
/// maximum from 0 to the daily target.
pub open spec fn preferences_valid(daily_target: i64, max_new_items: i64) -> bool {
    1 <= daily_target <= MAX_DAILY_TARGET && 0 <= max_new_items <= daily_target
}

/// Checks study preferences before they are saved.
pub fn validate_preferences(daily_target: i64, max_new_items: i64) -> (r: Result<(), String>)
    ensures
        match r {
            Ok(()) => preferences_valid(daily_target, max_new_items),
            Err(message) => !preferences_valid(daily_target, max_new_items) && message@
                == INVALID_PREFERENCES_MESSAGE@,
        },
{
    if !(1 <= daily_target && daily_target <= MAX_DAILY_TARGET) || !(0 <= max_new_items && max_new_items
        <= daily_target) {
        return Err(String::from_str(INVALID_PREFERENCES_MESSAGE));
    }
    Ok(())
}

pub const EXTRA_BEFORE_PLAN_MESSAGE: &'static str = "Complete today's plan before starting extra study.";

pub const NEW_DAY_MESSAGE: &'static str = "A new study day has started. Return to Recall for today's plan.";

pub const NOT_IN_QUEUE_MESSAGE: &'static str = "This item is no longer in the selected study queue. Return to Recall to refresh your session.";

pub const MISSING_SPACE_MESSAGE: &'static str = "This Recall Space no longer exists.";

/// Planned reviews still owed today.
pub open spec fn remaining_today(daily_target: int, completed_count: int) -> int {
    if daily_target - completed_count > 0 {
        daily_target - completed_count
    } else {
        0
    }
}

/// How many items today's queue may hold: what is left of the daily target,
/// or, for extra study once the plan is done, a full target's worth.
pub open spec fn queue_size(daily_target: int, completed_count: int, extra: bool) -> Result<int, Seq<char>> {
    let remaining = remaining_today(daily_target, completed_count);
    if extra && remaining > 0 {
        Err(EXTRA_BEFORE_PLAN_MESSAGE@)
    } else if extra {
        Ok(daily_target)
    } else {
        Ok(remaining)
    }
}

/// The size of today's queue, or why extra study cannot start yet.
pub fn queue_limit(daily_target: i64, completed_count: i64, extra: bool) -> (r: Result<i64, String>)
    requires
        i64::MIN <= daily_target - completed_count <= i64::MAX,
    ensures
        match queue_size(daily_target as int, completed_count as int, extra) {
            Ok(n) => r == Ok::<i64, String>(n as i64),
            Err(m) => r matches Err(e) && e@ == m,
        },
{
    let difference = daily_target - completed_count;
    let remaining = if difference > 0 {
        difference
    } else {
        0
    };
    if extra && remaining > 0 {
        return Err(String::from_str(EXTRA_BEFORE_PLAN_MESSAGE));
    }
    if extra {
        Ok(daily_target)
    } else {
        Ok(remaining)
    }
}

/// How many new items may join a queue of `limit` items that already holds
/// `scheduled` due reviews: reviews come first, and new items never exceed
/// what is left of the day's new-item maximum.
pub open spec fn new_items_allowed(limit: int, scheduled: int, max_new_items: int, new_completed: int) -> int {
    let left_in_queue = limit - scheduled;
    let left_new = if max_new_items - new_completed > 0 {
        max_new_items - new_completed
    } else {
        0
    };
    if left_in_queue < left_new {
        left_in_queue
    } else {
        left_new
    }
}

/// The number of new items to add after the due reviews were queued.
pub fn new_item_limit(limit: i64, scheduled_count: usize, max_new_items: i64, new_completed: i64) -> (r: i64)
    requires
        scheduled_count <= limit,
        i64::MIN <= max_new_items - new_completed <= i64::MAX,
    ensures
        r == new_items_allowed(limit as int, scheduled_count as int, max_new_items as int, new_completed as int),
        scheduled_count + r <= limit,
        r <= if max_new_items - new_completed > 0 {
            max_new_items - new_completed
        } else {
            0
        },
{
    let left_in_queue = limit - scheduled_count as i64;
    let difference = max_new_items - new_completed;
    let left_new = if difference > 0 {
        difference
    } else {
        0
    };
    if left_in_queue < left_new {
        left_in_queue
    } else {
        left_new
    }
}

/// The plan's count of today's items, and whether extra study is on offer:
/// extra study counts only completed work; the regular plan adds its queue.
pub fn plan_counts(
    daily_target: i64,
    completed_count: i64,
    extra: bool,
    queued_count: usize,
    more_available: bool,
) -> (r: (i64, bool))
    requires
        i64::MIN <= daily_target - completed_count <= i64::MAX,
        queued_count <= i64::MAX,
        i64::MIN <= completed_count + queued_count <= i64::MAX,
    ensures
        r.0 == if extra {
            completed_count as int
        } else {
            completed_count + queued_count
        },
        r.1 == (remaining_today(daily_target as int, completed_count as int) == 0 && more_available),
{
    let total_count = if extra {
        completed_count
    } else {
        completed_count + queued_count as i64
    };
    let difference = daily_target - completed_count;
    let can_study_more = difference <= 0 && more_available;
    (total_count, can_study_more)
}

/// Whether the item was queued as new, found by its first entry in the
/// current queue.
pub open spec fn queued_as_new(queue: Seq<(i64, bool)>, item_id: i64) -> Option<bool>
    decreases queue.len(),
{
    if queue.len() == 0 {
        None
    } else if queue[0].0 == item_id {
        Some(queue[0].1)
    } else {
        queued_as_new(queue.drop_first(), item_id)
    }
}

/// Whether a submitted review answers an item of the current queue, and if
/// so whether that item entered the queue as new.
pub fn queued_was_new(queue: &Vec<(i64, bool)>, item_id: i64) -> (r: Result<bool, String>)
    ensures
        match queued_as_new(queue@, item_id) {
            Some(was_new) => r == Ok::<bool, String>(was_new),
            None => r matches Err(e) && e@ == NOT_IN_QUEUE_MESSAGE@,
        },
{
    let mut i: usize = 0;
    assert(queue@.skip(0) =~= queue@);
    while i < queue.len()
        invariant
            i <= queue@.len(),
            queued_as_new(queue@, item_id) == queued_as_new(queue@.skip(i as int), item_id),
        decreases queue@.len() - i,
    {
        assert(queue@.skip(i as int)[0] == queue@[i as int]);
        assert(queue@.skip(i as int).drop_first() =~= queue@.skip(i + 1));
        if queue[i].0 == item_id {
            return Ok(queue[i].1);
        }
        i = i + 1;
    }
    Err(String::from_str(NOT_IN_QUEUE_MESSAGE))
}

/// A review may only be submitted for today's plan.
pub fn check_plan_day(plan_date: &str, today: &str) -> (r: Result<(), String>)
    ensures
        plan_date@ == today@ ==> r is Ok,
        plan_date@ != today@ ==> (r matches Err(e) && e@ == NEW_DAY_MESSAGE@),
{
    if str_eq(plan_date, today) {
        Ok(())
    } else {
        Err(String::from_str(NEW_DAY_MESSAGE))
    }
}

} // verus!
