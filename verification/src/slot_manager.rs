//! Hot-memory slot routing.
//!
//! A slot is an ongoing context: a topic, a timeline of summaries, and the time
//! it was last written. A processed log goes to the last active slot whose
//! topic equals or contains the log's topic, or to a new slot. A log of recent
//! assignments (`slot_id|timestamp` entries) detects rapid work on one slot,
//! which flushes the other slots that have been idle for the whole window.
//! Slots idle for longer than the timeout are flushed by the monitor.
use vstd::prelude::*;

use crate::clock::{is_uuid_text, new_uuid_v4, unix_now};
use crate::models::{AiProcessedResult, TimelineEntry};

use crate::text::{
    bounded_digits, chars_of, contains_seq, contains_str, decimal, has_prefix, int_decimal, is_digit,
    lemma_decimal_digits, parse_bounded_digits, push_int_decimal, starts_with_str, str_eq, string_views,
};

verus! {

/// Redis set that holds the ids of the active slots.
pub const ACTIVE_SLOTS_KEY: &'static str = "active_slots";
/// Redis list of recent slot assignments, `slot_id|timestamp`.
pub const CONTEXT_SHIFT_KEY: &'static str = "context_shift:recent_logs";
/// Window (seconds) for counting rapid log ingestion to the same slot.
pub const CONTEXT_SHIFT_WINDOW_SECS: i64 = 180;
/// Number of assignments to one slot within the window that flushes the others.
pub const CONTEXT_SHIFT_THRESHOLD: usize = 3;
/// A slot not written for longer than this many seconds is flushed.
pub const SLOT_IDLE_TIMEOUT_SECS: i64 = 900;

/// What routing reads of one active slot: its id, its topic (if the slot's
/// metadata has one) and when it was last written (if recorded).
pub struct ActiveSlot {
    pub uuid: String,
    pub topic: Option<String>,
    pub last_updated: Option<i64>,
}

/// Where a log goes and what the routing changes.
pub struct LogPlacement {
    /// The slot the log is appended to.
    pub slot_id: String,
    /// Whether that slot is created by this log.
    pub is_new: bool,
    /// Entry appended to the context-shift list.
    pub shift_entry: String,
    /// Number of entries removed from the front of the context-shift list
    /// after the append.
    pub shift_trim: usize,
    /// Other slots to flush because of a context shift.
    pub flush_candidates: Vec<String>,
}

/// Redis hash key of a slot's metadata.
pub open spec fn meta_key_spec(uuid: Seq<char>) -> Seq<char> {
    "slot:"@ + uuid + ":meta"@
}

/// Redis list key of a slot's timeline.
pub open spec fn timeline_key_spec(uuid: Seq<char>) -> Seq<char> {
    "slot:"@ + uuid + ":timeline"@
}

pub fn slot_meta_key(uuid: &str) -> (k: String)
    ensures
        k@ == meta_key_spec(uuid@),
{
    let mut k = String::from_str("slot:");
    k.append(uuid);
    k.append(":meta");
    k
}

pub fn slot_timeline_key(uuid: &str) -> (k: String)
    ensures
        k@ == timeline_key_spec(uuid@),
{
    let mut k = String::from_str("slot:");
    k.append(uuid);
    k.append(":timeline");
    k
}

/// Topics of the slots before `k` that have one, in order.
pub open spec fn topics_of(slots: Seq<ActiveSlot>, k: int) -> Seq<Seq<char>>
    decreases k,
{
    if k <= 0 {
        Seq::empty()
    } else {
        match slots[k - 1].topic {
            Some(t) => topics_of(slots, k - 1).push(t@),
            None => topics_of(slots, k - 1),
        }
    }
}

/// The topics of the active slots, offered to the model for reuse; slots
/// without a topic are skipped.
pub fn existing_topics(slots: &[ActiveSlot]) -> (r: Vec<String>)
    ensures
        string_views(r@) == topics_of(slots@, slots@.len() as int),
{
    let mut r: Vec<String> = Vec::new();
    let mut i: usize = 0;
    while i < slots.len()
        invariant
            i <= slots@.len(),
            string_views(r@) == topics_of(slots@, i as int),
        decreases slots.len() - i,
    {
        let ghost before = r@;
        match &slots[i].topic {
            Some(t) => {
                r.push(t.clone());
                assert(string_views(r@) =~= string_views(before).push(t@));
            },
            None => {},
        }
        i = i + 1;
    }
    r
}

/// An existing topic takes a new one when they are equal or the existing
/// topic contains the new one.
pub open spec fn topic_matches(existing: Seq<char>, topic: Seq<char>) -> bool {
    existing == topic || contains_seq(existing, topic)
}

pub open spec fn slot_matches(s: ActiveSlot, topic: Seq<char>) -> bool {
    match s.topic {
        Some(t) => topic_matches(t@, topic),
        None => false,
    }
}

/// Index of the last slot before `k` whose topic takes `topic`.
pub open spec fn last_match(slots: Seq<ActiveSlot>, topic: Seq<char>, k: int) -> Option<int>
    decreases k,
{
    if k <= 0 {
        None
    } else if slot_matches(slots[k - 1], topic) {
        Some(k - 1)
    } else {
        last_match(slots, topic, k - 1)
    }
}

/// The slot a log with `topic` goes to: the last matching active slot, else `fresh_id`.
pub open spec fn chosen_slot(slots: Seq<ActiveSlot>, topic: Seq<char>, fresh_id: Seq<char>) -> Seq<char> {
    match last_match(slots, topic, slots.len() as int) {
        Some(k) => slots[k].uuid@,
        None => fresh_id,
    }
}

/// First index at or after `i` that does not hold `|`.
pub open spec fn next_non_bar(s: Seq<char>, i: int) -> int
    decreases s.len() - i,
{
    if 0 <= i < s.len() && s[i] == '|' { next_non_bar(s, i + 1) } else { i }
}

/// First index at or after `i` that holds `|` (or the end).
pub open spec fn next_bar(s: Seq<char>, i: int) -> int
    decreases s.len() - i,
{
    if 0 <= i < s.len() && s[i] != '|' { next_bar(s, i + 1) } else { i }
}

/// A signed decimal integer that fits in 64 bits.
pub open spec fn parse_int(t: Seq<char>) -> Option<int> {
    if t.len() > 0 && t[0] == '-' {
        match bounded_digits(t, 1, t.len() as int, 9223372036854775808) {
            Some(v) => Some(-(v as int)),
            None => None,
        }
    } else {
        match bounded_digits(t, 0, t.len() as int, 9223372036854775807) {
            Some(v) => Some(v as int),
            None => None,
        }
    }
}

/// The timestamp of a context-shift entry: its second `|`-separated field,
/// read as an integer; none when there is no second field or it is not a number.
pub open spec fn shift_entry_time(e: Seq<char>) -> Option<int> {
    let a = next_non_bar(e, 0);
    let b = next_bar(e, a);
    let c = next_non_bar(e, b);
    let d = next_bar(e, c);
    if a < b && c < d { parse_int(e.subrange(c, d)) } else { None }
}

/// The context-shift entry recorded for a log placed in `slot_id` at `now`.
pub open spec fn shift_entry_spec(slot_id: Seq<char>, now: int) -> Seq<char> {
    slot_id + "|"@ + int_decimal(now)
}

pub open spec fn is_stale(e: Seq<char>, cutoff: int) -> bool {
    match shift_entry_time(e) {
        Some(t) => t < cutoff,
        None => false,
    }
}

/// End of the run of stale entries that starts at `k`.
pub open spec fn stale_run_end(log: Seq<Seq<char>>, cutoff: int, k: int) -> int
    decreases log.len() - k,
{
    if 0 <= k < log.len() && is_stale(log[k], cutoff) { stale_run_end(log, cutoff, k + 1) } else { k }
}

/// Number of entries of `log` that begin with `p`.
pub open spec fn count_prefixed(log: Seq<Seq<char>>, p: Seq<char>) -> nat
    decreases log.len(),
{
    if log.len() == 0 {
        0
    } else {
        count_prefixed(log.drop_last(), p) + if has_prefix(log.last(), p) { 1nat } else { 0nat }
    }
}

/// The slot's last recorded write is more than `secs` seconds before `now`.
pub open spec fn idle_longer_than(s: ActiveSlot, now: int, secs: int) -> bool {
    match s.last_updated {
        Some(l) => now - l > secs,
        None => false,
    }
}

/// Ids of the slots before `k`, other than `chosen`, last written more than
/// `window` seconds before `now`.
pub open spec fn idle_others(slots: Seq<ActiveSlot>, chosen: Seq<char>, now: int, window: int, k: int) -> Seq<Seq<char>>
    decreases k,
{
    if k <= 0 {
        Seq::empty()
    } else {
        let prev = idle_others(slots, chosen, now, window, k - 1);
        let s = slots[k - 1];
        match s.last_updated {
            Some(l) => if s.uuid@ != chosen && now - l > window { prev.push(s.uuid@) } else { prev },
            None => prev,
        }
    }
}

/// The context-shift list after the new entry is appended.
pub open spec fn shift_log_after(shift_log: Seq<String>, slots: Seq<ActiveSlot>, topic: Seq<char>, fresh_id: Seq<char>, now: int) -> Seq<Seq<char>> {
    string_views(shift_log).push(shift_entry_spec(chosen_slot(slots, topic, fresh_id), now))
}

/// Number of leading entries removed: those older than the window.
pub open spec fn shift_trim_spec(shift_log: Seq<String>, slots: Seq<ActiveSlot>, topic: Seq<char>, fresh_id: Seq<char>, now: int) -> int {
    stale_run_end(shift_log_after(shift_log, slots, topic, fresh_id, now), now - CONTEXT_SHIFT_WINDOW_SECS, 0)
}

/// Assignments to the chosen slot still in the list after trimming.
pub open spec fn recent_count(shift_log: Seq<String>, slots: Seq<ActiveSlot>, topic: Seq<char>, fresh_id: Seq<char>, now: int) -> nat {
    let log = shift_log_after(shift_log, slots, topic, fresh_id, now);
    let trim = shift_trim_spec(shift_log, slots, topic, fresh_id, now);
    count_prefixed(log.skip(trim), chosen_slot(slots, topic, fresh_id) + "|"@)
}

/// Slots flushed by a context shift: when the chosen slot has reached the
/// threshold within the window, every other slot idle for the whole window.
pub open spec fn flush_candidates_spec(shift_log: Seq<String>, slots: Seq<ActiveSlot>, topic: Seq<char>, fresh_id: Seq<char>, now: int) -> Seq<Seq<char>> {
    if recent_count(shift_log, slots, topic, fresh_id, now) >= CONTEXT_SHIFT_THRESHOLD {
        idle_others(slots, chosen_slot(slots, topic, fresh_id), now, CONTEXT_SHIFT_WINDOW_SECS as int, slots.len() as int)
    } else {
        Seq::empty()
    }
}


fn skip_bars(v: &Vec<char>, i: usize) -> (j: usize)
    requires
        i <= v.len(),
    ensures
        j == next_non_bar(v@, i as int),
        i <= j <= v.len(),
{
    let mut k = i;
    while k < v.len() && v[k] == '|'
        invariant
            i <= k <= v.len(),
            next_non_bar(v@, i as int) == next_non_bar(v@, k as int),
        decreases v.len() - k,
    {
        k = k + 1;
    }
    k
}

fn skip_field(v: &Vec<char>, i: usize) -> (j: usize)
    requires
        i <= v.len(),
    ensures
        j == next_bar(v@, i as int),
        i <= j <= v.len(),
{
    let mut k = i;
    while k < v.len() && v[k] != '|'
        invariant
            i <= k <= v.len(),
            next_bar(v@, i as int) == next_bar(v@, k as int),
        decreases v.len() - k,
    {
        k = k + 1;
    }
    k
}

/// Reads `v[lo..hi]` as a signed 64-bit decimal integer.
fn parse_int_range(v: &Vec<char>, lo: usize, hi: usize) -> (r: Option<i64>)
    requires
        lo <= hi <= v.len(),
    ensures
        r matches Some(x) ==> parse_int(v@.subrange(lo as int, hi as int)) == Some(x as int),
        r is None ==> parse_int(v@.subrange(lo as int, hi as int)) is None,
{
    let ghost t = v@.subrange(lo as int, hi as int);
    if lo < hi && v[lo] == '-' {
        assert(t.subrange(1, t.len() as int) =~= v@.subrange(lo + 1, hi as int));
        match parse_bounded_digits(v, lo + 1, hi, 9223372036854775808u64) {
            Some(m) => {
                if m == 9223372036854775808u64 {
                    Some(i64::MIN)
                } else {
                    Some(-(m as i64))
                }
            },
            None => None,
        }
    } else {
        assert(t.subrange(0, t.len() as int) =~= v@.subrange(lo as int, hi as int));
        match parse_bounded_digits(v, lo, hi, 9223372036854775807u64) {
            Some(m) => Some(m as i64),
            None => None,
        }
    }
}

/// The timestamp recorded in a context-shift entry, if it has one.
pub fn shift_entry_timestamp(e: &str) -> (r: Option<i64>)
    ensures
        r matches Some(x) ==> shift_entry_time(e@) == Some(x as int),
        r is None ==> shift_entry_time(e@) is None,
{
    let v = chars_of(e);
    let a = skip_bars(&v, 0);
    let b = skip_field(&v, a);
    let c = skip_bars(&v, b);
    let d = skip_field(&v, c);
    if a < b && c < d {
        parse_int_range(&v, c, d)
    } else {
        None
    }
}

/// The context-shift entry for a log placed in `slot_id` at `now`.
pub fn shift_entry(slot_id: &str, now: i64) -> (e: String)
    ensures
        e@ == shift_entry_spec(slot_id@, now as int),
{
    let mut e = String::from_str(slot_id);
    e.append("|");
    push_int_decimal(&mut e, now);
    e
}

/// Whether an active slot's topic takes the log's topic.
pub fn slot_takes_topic(slot: &ActiveSlot, topic: &str) -> (r: bool)
    ensures
        r == slot_matches(*slot, topic@),
{
    match &slot.topic {
        Some(t) => {
            proof {
                if t@ == topic@ {
                    assert(t@.subrange(0int, 0int + topic@.len()) =~= topic@);
                    assert(contains_seq(t@, topic@));
                }
            }
            contains_str(t.as_str(), topic)
        },
        None => false,
    }
}


fn is_stale_entry(e: &str, cutoff: i128) -> (r: bool)
    ensures
        r == is_stale(e@, cutoff as int),
{
    match shift_entry_timestamp(e) {
        Some(t) => (t as i128) < cutoff,
        None => false,
    }
}

/// Index of the last active slot whose topic takes `topic`.
fn find_matching_slot(slots: &[ActiveSlot], topic: &str) -> (r: Option<usize>)
    ensures
        r matches Some(k) ==> last_match(slots@, topic@, slots@.len() as int) == Some(k as int)
            && k < slots@.len(),
        r is None ==> last_match(slots@, topic@, slots@.len() as int) is None,
{
    let mut matched: Option<usize> = None;
    let mut i: usize = 0;
    while i < slots.len()
        invariant
            i <= slots@.len(),
            matched matches Some(k) ==> last_match(slots@, topic@, i as int) == Some(k as int) && k < i,
            matched is None ==> last_match(slots@, topic@, i as int) is None,
        decreases slots.len() - i,
    {
        if slot_takes_topic(&slots[i], topic) {
            matched = Some(i);
        }
        i = i + 1;
    }
    matched
}

/// Ids of the slots other than `chosen` not written within the window before `now`.
fn idle_other_slots(slots: &[ActiveSlot], chosen: &str, now: i64, window: i64) -> (r: Vec<String>)
    ensures
        string_views(r@) == idle_others(slots@, chosen@, now as int, window as int, slots@.len() as int),
{
    let mut r: Vec<String> = Vec::new();
    let mut i: usize = 0;
    while i < slots.len()
        invariant
            i <= slots@.len(),
            string_views(r@) == idle_others(slots@, chosen@, now as int, window as int, i as int),
        decreases slots.len() - i,
    {
        let s = &slots[i];
        let ghost before = r@;
        match s.last_updated {
            Some(l) => {
                let other = !str_eq(s.uuid.as_str(), chosen);
                if other && (now as i128) - (l as i128) > (window as i128) {
                    r.push(s.uuid.clone());
                    assert(string_views(r@) =~= string_views(before).push(s.uuid@));
                }
            },
            None => {},
        }
        i = i + 1;
    }
    r
}

/// Routes a processed log with `topic`, arriving at `now`, given the active
/// slots and the context-shift list as they stand. `fresh_id` names the slot
/// that is created when no active slot takes the topic.
pub fn place_log(
    slots: &[ActiveSlot],
    shift_log: &[String],
    topic: &str,
    fresh_id: &str,
    now: i64,
) -> (p: LogPlacement)
    ensures
        p.slot_id@ == chosen_slot(slots@, topic@, fresh_id@),
        p.is_new == (last_match(slots@, topic@, slots@.len() as int) is None),
        p.shift_entry@ == shift_entry_spec(p.slot_id@, now as int),
        p.shift_trim == shift_trim_spec(shift_log@, slots@, topic@, fresh_id@, now as int),
        string_views(p.flush_candidates@) == flush_candidates_spec(shift_log@, slots@, topic@, fresh_id@, now as int),
        p.is_new ==> p.slot_id@ == fresh_id@ && forall|i: int| 0 <= i < slots@.len() ==> !((#[trigger] slots@[i]).topic matches Some(t)
            && (t@ == topic@ || exists|k: int| 0 <= k && k + topic@.len() <= t@.len() && #[trigger] t@.subrange(k, k + topic@.len()) == topic@)),
        !p.is_new ==> exists|i: int| 0 <= i < slots@.len() && (#[trigger] slots@[i]).uuid@ == p.slot_id@
            && (slots@[i].topic matches Some(t) && (t@ == topic@
            || exists|k: int| 0 <= k && k + topic@.len() <= t@.len() && #[trigger] t@.subrange(k, k + topic@.len()) == topic@)),
{
    proof {
        law_slot_topic_equals_or_contains(slots@, topic@, fresh_id@);
    }
    let matched = find_matching_slot(slots, topic);
    let slot_id = match matched {
        Some(k) => slots[k].uuid.clone(),
        None => String::from_str(fresh_id),
    };
    let is_new = matched.is_none();
    let entry = shift_entry(slot_id.as_str(), now);

    // The context-shift list after appending the new entry.
    let mut log: Vec<String> = Vec::new();
    let mut i: usize = 0;
    while i < shift_log.len()
        invariant
            i <= shift_log@.len(),
            string_views(log@) == string_views(shift_log@).take(i as int),
        decreases shift_log.len() - i,
    {
        let ghost before = log@;
        log.push(shift_log[i].clone());
        assert(string_views(log@) =~= string_views(before).push(shift_log@[i as int]@));
        assert(string_views(shift_log@).take(i + 1) =~= string_views(shift_log@).take(i as int).push(shift_log@[i as int]@));
        i = i + 1;
    }
    let ghost old_log = log@;
    log.push(entry.clone());
    let ghost logv = string_views(log@);
    assert(string_views(shift_log@).take(shift_log@.len() as int) =~= string_views(shift_log@));
    assert(logv =~= string_views(old_log).push(entry@));
    assert(logv == shift_log_after(shift_log@, slots@, topic@, fresh_id@, now as int));

    // Drop the leading entries older than the window.
    let cutoff: i128 = (now as i128) - (CONTEXT_SHIFT_WINDOW_SECS as i128);
    let mut t: usize = 0;
    while t < log.len() && is_stale_entry(log[t].as_str(), cutoff)
        invariant
            t <= log@.len(),
            logv == string_views(log@),
            stale_run_end(logv, cutoff as int, 0) == stale_run_end(logv, cutoff as int, t as int),
        decreases log.len() - t,
    {
        assert(logv[t as int] == log@[t as int]@);
        t = t + 1;
    }
    proof {
        if t < log@.len() {
            assert(logv[t as int] == log@[t as int]@);
        }
    }

    // Count the recent assignments to the chosen slot.
    let mut prefix = slot_id.clone();
    prefix.append("|");
    let mut count: usize = 0;
    let mut j: usize = t;
    while j < log.len()
        invariant
            t <= j <= log@.len(),
            logv == string_views(log@),
            count <= j - t,
            count == count_prefixed(logv.skip(t as int).take(j - t), prefix@),
        decreases log.len() - j,
    {
        let ghost rest = logv.skip(t as int);
        assert(rest.take(j + 1 - t).drop_last() =~= rest.take(j - t));
        assert(rest.take(j + 1 - t).last() == log@[j as int]@);
        if starts_with_str(log[j].as_str(), prefix.as_str()) {
            count = count + 1;
        }
        j = j + 1;
    }
    assert(logv.skip(t as int).take(log@.len() - t) =~= logv.skip(t as int));

    let flush_candidates = if count >= CONTEXT_SHIFT_THRESHOLD {
        idle_other_slots(slots, slot_id.as_str(), now, CONTEXT_SHIFT_WINDOW_SECS)
    } else {
        Vec::new()
    };
    proof {
        if count < CONTEXT_SHIFT_THRESHOLD {
            assert(string_views(flush_candidates@) =~= Seq::<Seq<char>>::empty());
        }
    }
    LogPlacement { slot_id, is_new, shift_entry: entry, shift_trim: t, flush_candidates }
}


/// `p` is the placement of a log with `topic` at `now`, given the active slots,
/// the context-shift list and the id of the slot to create if none matches.
pub open spec fn placement_ok(
    p: LogPlacement,
    slots: Seq<ActiveSlot>,
    shift_log: Seq<String>,
    topic: Seq<char>,
    fresh_id: Seq<char>,
    now: int,
) -> bool {
    &&& p.slot_id@ == chosen_slot(slots, topic, fresh_id)
    &&& p.is_new == (last_match(slots, topic, slots.len() as int) is None)
    &&& p.shift_entry@ == shift_entry_spec(p.slot_id@, now)
    &&& p.shift_trim == shift_trim_spec(shift_log, slots, topic, fresh_id, now)
    &&& string_views(p.flush_candidates@) == flush_candidates_spec(shift_log, slots, topic, fresh_id, now)
}

/// A processed log, stamped and routed.
pub struct RoutedLog {
    /// The time the log was routed (Unix seconds).
    pub now: i64,
    /// The timeline entry to append to the chosen slot.
    pub entry: TimelineEntry,
    /// Where the entry goes and what else changes.
    pub placement: LogPlacement,
}

/// How many random ids `route_log` draws, at most, to find one that no
/// active slot has.
pub const FRESH_ID_ATTEMPTS: usize = 8;

/// Some slot has the id `id`.
pub open spec fn id_in_use(slots: Seq<ActiveSlot>, id: Seq<char>) -> bool {
    exists|i: int| 0 <= i < slots.len() && (#[trigger] slots[i]).uuid@ == id
}

fn is_active_id(slots: &[ActiveSlot], id: &str) -> (b: bool)
    ensures
        b == id_in_use(slots@, id@),
{
    let mut i: usize = 0;
    while i < slots.len()
        invariant
            i <= slots@.len(),
            forall|j: int| 0 <= j < i ==> (#[trigger] slots@[j]).uuid@ != id@,
        decreases slots.len() - i,
    {
        if str_eq(slots[i].uuid.as_str(), id) {
            assert(slots@[i as int].uuid@ == id@);
            return true;
        }
        i = i + 1;
    }
    false
}

/// Stamps a processed log with the current time and routes it; a slot that
/// has to be created gets a fresh random UUID that no active slot has as its
/// id. `None` when the system clock gives no usable Unix time (see
/// `unix_now`), or when `FRESH_ID_ATTEMPTS` random UUIDs in a row were all in use.
pub fn route_log(slots: &[ActiveSlot], shift_log: &[String], source: &str, processed: &AiProcessedResult) -> (r: Option<RoutedLog>)
    ensures
        r matches Some(r) ==> {
            &&& r.now >= 0
            &&& r.entry.timestamp == r.now
            &&& r.entry.source@ == source@
            &&& r.entry.content@ == processed.summary@
            &&& exists|fresh_id: Seq<char>| is_uuid_text(fresh_id) && !id_in_use(slots@, fresh_id)
                && placement_ok(r.placement, slots@, shift_log@, processed.topic@, fresh_id, r.now as int)
            &&& r.placement.is_new ==> !id_in_use(slots@, r.placement.slot_id@)
        },
{
    let now = match unix_now() {
        Some(t) => t,
        None => return None,
    };
    let mut fresh_id = new_uuid_v4();
    let mut attempts: usize = 1;
    while is_active_id(slots, fresh_id.as_str())
        invariant
            is_uuid_text(fresh_id@),
            1 <= attempts <= FRESH_ID_ATTEMPTS,
        decreases FRESH_ID_ATTEMPTS - attempts,
    {
        if attempts >= FRESH_ID_ATTEMPTS {
            return None;
        }
        fresh_id = new_uuid_v4();
        attempts = attempts + 1;
    }
    let placement = place_log(slots, shift_log, processed.topic.as_str(), fresh_id.as_str(), now);
    assert(placement_ok(placement, slots@, shift_log@, processed.topic@, fresh_id@, now as int));
    Some(RoutedLog { now, entry: TimelineEntry::for_log(source, processed, now), placement })
}

/// The slots the timeout monitor flushes now; `None` when the system clock
/// gives no usable Unix time.
pub fn timed_out_slots_now(slots: &[ActiveSlot]) -> (r: Option<Vec<String>>)
    ensures
        r matches Some(ids) ==> exists|now: int| now >= 0 && string_views(ids@) == timed_out_spec(slots@, now, slots@.len() as int),
{
    match unix_now() {
        Some(now) => Some(timed_out_slots(slots, now)),
        None => None,
    }
}

/// Ids of the slots before `k` whose last write is more than the idle timeout before `now`.
pub open spec fn timed_out_spec(slots: Seq<ActiveSlot>, now: int, k: int) -> Seq<Seq<char>>
    decreases k,
{
    if k <= 0 {
        Seq::empty()
    } else {
        let prev = timed_out_spec(slots, now, k - 1);
        match slots[k - 1].last_updated {
            Some(l) => if now - l > SLOT_IDLE_TIMEOUT_SECS { prev.push(slots[k - 1].uuid@) } else { prev },
            None => prev,
        }
    }
}

/// The slots the timeout monitor flushes at `now`: those last written more
/// than the idle timeout ago. Slots without a recorded write are kept.
pub fn timed_out_slots(slots: &[ActiveSlot], now: i64) -> (r: Vec<String>)
    ensures
        string_views(r@) == timed_out_spec(slots@, now as int, slots@.len() as int),
{
    let mut r: Vec<String> = Vec::new();
    let mut i: usize = 0;
    while i < slots.len()
        invariant
            i <= slots@.len(),
            string_views(r@) == timed_out_spec(slots@, now as int, i as int),
        decreases slots.len() - i,
    {
        let s = &slots[i];
        let ghost before = r@;
        match s.last_updated {
            Some(l) => {
                if (now as i128) - (l as i128) > (SLOT_IDLE_TIMEOUT_SECS as i128) {
                    r.push(s.uuid.clone());
                    assert(string_views(r@) =~= string_views(before).push(s.uuid@));
                }
            },
            None => {},
        }
        i = i + 1;
    }
    r
}

proof fn lemma_last_match(slots: Seq<ActiveSlot>, topic: Seq<char>, k: int)
    requires
        0 <= k <= slots.len(),
    ensures
        last_match(slots, topic, k) matches Some(m) ==> 0 <= m < k && slot_matches(slots[m], topic),
        last_match(slots, topic, k) is None <==> forall|i: int| 0 <= i < k ==> !slot_matches(#[trigger] slots[i], topic),
    decreases k,
{
    if k > 0 {
        lemma_last_match(slots, topic, k - 1);
        if last_match(slots, topic, k) is None {
            assert forall|i: int| 0 <= i < k implies !slot_matches(#[trigger] slots[i], topic) by {
                if i < k - 1 {
                } else {
                }
            }
        }
    }
}

/// A log whose topic is taken by an active slot (same topic, or a topic that
/// contains it) goes to such a slot, and no slot is created.
pub proof fn law_matching_topic_reuses_slot(slots: Seq<ActiveSlot>, topic: Seq<char>, fresh_id: Seq<char>)
    requires
        exists|i: int| 0 <= i < slots.len() && slot_matches(#[trigger] slots[i], topic),
    ensures
        last_match(slots, topic, slots.len() as int) is Some,
        exists|i: int|
            0 <= i < slots.len() && slot_matches(#[trigger] slots[i], topic)
                && chosen_slot(slots, topic, fresh_id) == slots[i].uuid@,
{
    lemma_last_match(slots, topic, slots.len() as int);
    let m = last_match(slots, topic, slots.len() as int)->Some_0;
    assert(slot_matches(slots[m], topic));
}

/// A log whose topic no active slot takes opens a new slot with the fresh id.
pub proof fn law_unmatched_topic_opens_new_slot(slots: Seq<ActiveSlot>, topic: Seq<char>, fresh_id: Seq<char>)
    requires
        forall|i: int| 0 <= i < slots.len() ==> !slot_matches(#[trigger] slots[i], topic),
    ensures
        last_match(slots, topic, slots.len() as int) is None,
        chosen_slot(slots, topic, fresh_id) == fresh_id,
{
    lemma_last_match(slots, topic, slots.len() as int);
}

/// A log goes to an existing slot only when that slot's topic equals the
/// log's topic or holds it as a contiguous run of characters; when no slot's
/// topic does, the log opens a new slot with the fresh id. (A topic that
/// merely contains a slot's topic does not go to that slot.)
pub proof fn law_slot_topic_equals_or_contains(slots: Seq<ActiveSlot>, topic: Seq<char>, fresh_id: Seq<char>)
    ensures
        last_match(slots, topic, slots.len() as int) matches Some(m) ==> {
            &&& 0 <= m < slots.len()
            &&& chosen_slot(slots, topic, fresh_id) == slots[m].uuid@
            &&& slots[m].topic matches Some(t) && (t@ == topic || exists|k: int|
                0 <= k && k + topic.len() <= t@.len() && #[trigger] t@.subrange(k, k + topic.len()) == topic)
        },
        last_match(slots, topic, slots.len() as int) is None ==> {
            &&& chosen_slot(slots, topic, fresh_id) == fresh_id
            &&& forall|i: int| 0 <= i < slots.len() ==> !((#[trigger] slots[i]).topic matches Some(t) && (t@ == topic
                || exists|k: int| 0 <= k && k + topic.len() <= t@.len() && #[trigger] t@.subrange(k, k + topic.len()) == topic))
        },
{
    lemma_last_match(slots, topic, slots.len() as int);
    if last_match(slots, topic, slots.len() as int) is None {
        assert forall|i: int| 0 <= i < slots.len() implies !((#[trigger] slots[i]).topic matches Some(t) && (t@ == topic
            || exists|k: int| 0 <= k && k + topic.len() <= t@.len() && #[trigger] t@.subrange(k, k + topic.len()) == topic)) by {
            assert(!slot_matches(slots[i], topic));
        }
    }
}

proof fn lemma_idle_others(slots: Seq<ActiveSlot>, chosen: Seq<char>, now: int, window: int, k: int)
    requires
        0 <= k <= slots.len(),
    ensures
        forall|c: int| 0 <= c < idle_others(slots, chosen, now, window, k).len() ==>
            exists|i: int| 0 <= i < k && (#[trigger] idle_others(slots, chosen, now, window, k)[c]) == slots[i].uuid@
                && slots[i].uuid@ != chosen
                && idle_longer_than(slots[i], now, window),
        forall|i: int| 0 <= i < k && slots[i].uuid@ != chosen
            && #[trigger] idle_longer_than(slots[i], now, window)
            ==> idle_others(slots, chosen, now, window, k).contains(slots[i].uuid@),
    decreases k,
{
    if k > 0 {
        lemma_idle_others(slots, chosen, now, window, k - 1);
        let prev = idle_others(slots, chosen, now, window, k - 1);
        let cur = idle_others(slots, chosen, now, window, k);
        assert forall|c: int| 0 <= c < cur.len() implies
            exists|i: int| 0 <= i < k && (#[trigger] cur[c]) == slots[i].uuid@
                && slots[i].uuid@ != chosen
                && idle_longer_than(slots[i], now, window) by {
            if c < prev.len() {
                assert(cur[c] == prev[c]);
            } else {
                assert(cur[c] == slots[k - 1].uuid@);
            }
        }
        assert forall|i: int| 0 <= i < k && slots[i].uuid@ != chosen
            && #[trigger] idle_longer_than(slots[i], now, window)
            implies cur.contains(slots[i].uuid@) by {
            if i < k - 1 {
                let c = choose|c: int| 0 <= c < prev.len() && prev[c] == slots[i].uuid@;
                assert(cur[c] == prev[c]);
            } else {
                assert(cur[cur.len() - 1] == slots[i].uuid@);
            }
        }
    }
}

/// Context shift: slots are flushed only once the chosen slot has received
/// the threshold number of logs within the window; a flushed slot is never
/// the chosen one and was last written more than the window ago; and every
/// such idle slot is flushed.
pub proof fn law_context_shift_flushes_idle_others(
    shift_log: Seq<String>,
    slots: Seq<ActiveSlot>,
    topic: Seq<char>,
    fresh_id: Seq<char>,
    now: int,
)
    ensures
        recent_count(shift_log, slots, topic, fresh_id, now) < CONTEXT_SHIFT_THRESHOLD
            ==> flush_candidates_spec(shift_log, slots, topic, fresh_id, now).len() == 0,
        forall|c: int| 0 <= c < flush_candidates_spec(shift_log, slots, topic, fresh_id, now).len() ==>
            exists|i: int| 0 <= i < slots.len()
                && (#[trigger] flush_candidates_spec(shift_log, slots, topic, fresh_id, now)[c]) == slots[i].uuid@
                && slots[i].uuid@ != chosen_slot(slots, topic, fresh_id)
                && idle_longer_than(slots[i], now, CONTEXT_SHIFT_WINDOW_SECS as int),
        recent_count(shift_log, slots, topic, fresh_id, now) >= CONTEXT_SHIFT_THRESHOLD ==>
            forall|i: int| 0 <= i < slots.len() && slots[i].uuid@ != chosen_slot(slots, topic, fresh_id)
                && #[trigger] idle_longer_than(slots[i], now, CONTEXT_SHIFT_WINDOW_SECS as int)
                ==> flush_candidates_spec(shift_log, slots, topic, fresh_id, now).contains(slots[i].uuid@),
{
    lemma_idle_others(slots, chosen_slot(slots, topic, fresh_id), now, CONTEXT_SHIFT_WINDOW_SECS as int, slots.len() as int);
}

proof fn lemma_timed_out(slots: Seq<ActiveSlot>, now: int, k: int)
    requires
        0 <= k <= slots.len(),
    ensures
        forall|c: int| 0 <= c < timed_out_spec(slots, now, k).len() ==>
            exists|i: int| 0 <= i < k && (#[trigger] timed_out_spec(slots, now, k)[c]) == slots[i].uuid@
                && idle_longer_than(slots[i], now, SLOT_IDLE_TIMEOUT_SECS as int),
        forall|i: int| 0 <= i < k && #[trigger] idle_longer_than(slots[i], now, SLOT_IDLE_TIMEOUT_SECS as int)
            ==> timed_out_spec(slots, now, k).contains(slots[i].uuid@),
    decreases k,
{
    if k > 0 {
        lemma_timed_out(slots, now, k - 1);
        let prev = timed_out_spec(slots, now, k - 1);
        let cur = timed_out_spec(slots, now, k);
        assert forall|c: int| 0 <= c < cur.len() implies
            exists|i: int| 0 <= i < k && (#[trigger] cur[c]) == slots[i].uuid@
                && idle_longer_than(slots[i], now, SLOT_IDLE_TIMEOUT_SECS as int) by {
            if c < prev.len() {
                assert(cur[c] == prev[c]);
            } else {
                assert(cur[c] == slots[k - 1].uuid@);
            }
        }
        assert forall|i: int| 0 <= i < k && #[trigger] idle_longer_than(slots[i], now, SLOT_IDLE_TIMEOUT_SECS as int) implies cur.contains(slots[i].uuid@) by {
            if i < k - 1 {
                let c = choose|c: int| 0 <= c < prev.len() && prev[c] == slots[i].uuid@;
                assert(cur[c] == prev[c]);
            } else {
                assert(cur[cur.len() - 1] == slots[i].uuid@);
            }
        }
    }
}

/// Timeout: the monitor flushes exactly the slots last written more than
/// fifteen minutes (900 seconds) ago.
pub proof fn law_timeout_flushes_exactly_idle_slots(slots: Seq<ActiveSlot>, now: int)
    ensures
        forall|c: int| 0 <= c < timed_out_spec(slots, now, slots.len() as int).len() ==>
            exists|i: int| 0 <= i < slots.len()
                && (#[trigger] timed_out_spec(slots, now, slots.len() as int)[c]) == slots[i].uuid@
                && idle_longer_than(slots[i], now, 900),
        forall|i: int| 0 <= i < slots.len() && #[trigger] idle_longer_than(slots[i], now, 900)
            ==> timed_out_spec(slots, now, slots.len() as int).contains(slots[i].uuid@),
{
    lemma_timed_out(slots, now, slots.len() as int);
}


proof fn lemma_next_bar_run(s: Seq<char>, i: int, j: int)
    requires
        0 <= i <= j <= s.len(),
        forall|k: int| i <= k < j ==> s[k] != '|',
        j == s.len() || s[j] == '|',
    ensures
        next_bar(s, i) == j,
    decreases j - i,
{
    if i < j {
        lemma_next_bar_run(s, i + 1, j);
    }
}

proof fn lemma_parse_int_decimal(n: i64)
    ensures
        parse_int(int_decimal(n as int)) == Some(n as int),
        int_decimal(n as int).len() > 0,
        forall|k: int| 0 <= k < int_decimal(n as int).len() ==> #[trigger] int_decimal(n as int)[k] != '|',
{
    if n < 0 {
        let m: nat = (-n) as nat;
        lemma_decimal_digits(m);
        let t = int_decimal(n as int);
        assert(t =~= seq!['-'] + decimal(m));
        assert(t.subrange(1, t.len() as int) =~= decimal(m));
        assert forall|k: int| 0 <= k < t.len() implies #[trigger] t[k] != '|' by {
            if k > 0 {
                assert(t[k] == decimal(m)[k - 1]);
                assert(is_digit(decimal(m)[k - 1]));
            }
        }
    } else {
        let m: nat = n as nat;
        lemma_decimal_digits(m);
        let t = int_decimal(n as int);
        assert(t.subrange(0, t.len() as int) =~= t);
        assert(is_digit(t[0]));
        assert forall|k: int| 0 <= k < t.len() implies #[trigger] t[k] != '|' by {
            assert(is_digit(t[k]));
        }
    }
}

proof fn lemma_shift_entry_time(id: Seq<char>, now: i64)
    requires
        id.len() > 0,
        forall|k: int| 0 <= k < id.len() ==> #[trigger] id[k] != '|',
    ensures
        shift_entry_time(shift_entry_spec(id, now as int)) == Some(now as int),
{
    reveal_strlit("|");
    let d = int_decimal(now as int);
    lemma_parse_int_decimal(now);
    let e = shift_entry_spec(id, now as int);
    let n = id.len() as int;
    assert(e.len() == n + 1 + d.len());
    assert forall|k: int| 0 <= k < n implies #[trigger] e[k] == id[k] by {}
    assert(e[n] == '|');
    assert forall|k: int| n + 1 <= k < e.len() implies #[trigger] e[k] == d[k - n - 1] by {}
    assert(next_non_bar(e, 0) == 0);
    lemma_next_bar_run(e, 0, n);
    assert(next_non_bar(e, n + 1) == n + 1) by {
        assert(e[n + 1] == d[0]);
    }
    assert(next_non_bar(e, n) == next_non_bar(e, n + 1));
    assert forall|k: int| n + 1 <= k < e.len() implies e[k] != '|' by {
        assert(e[k] == d[k - n - 1]);
    }
    lemma_next_bar_run(e, n + 1, e.len() as int);
    assert(e.subrange(n + 1, e.len() as int) =~= d);
}

proof fn lemma_stale_run_stops(log: Seq<Seq<char>>, cutoff: int, k: int, m: int)
    requires
        0 <= k <= m < log.len(),
        !is_stale(log[m], cutoff),
    ensures
        k <= stale_run_end(log, cutoff, k) <= m,
    decreases m - k,
{
    if k < m {
        lemma_stale_run_stops(log, cutoff, k + 1, m);
    }
}

proof fn lemma_count_prefixed_positive(log: Seq<Seq<char>>, p: Seq<char>, m: int)
    requires
        0 <= m < log.len(),
        has_prefix(log[m], p),
    ensures
        count_prefixed(log, p) >= 1,
    decreases log.len(),
{
    if m < log.len() - 1 {
        assert(log.drop_last()[m] == log[m]);
        lemma_count_prefixed_positive(log.drop_last(), p, m);
    }
}

/// The entry recorded for a log is never trimmed away at once: the trim stops
/// before it, so the log counts towards its own slot. This holds when the
/// chosen slot's id is nonempty and holds no `|` (so its entry reads back as
/// its own timestamp), as every UUID does.
pub proof fn law_new_shift_entry_is_kept(
    shift_log: Seq<String>,
    slots: Seq<ActiveSlot>,
    topic: Seq<char>,
    fresh_id: Seq<char>,
    now: i64,
)
    requires
        chosen_slot(slots, topic, fresh_id).len() > 0,
        forall|k: int| 0 <= k < chosen_slot(slots, topic, fresh_id).len()
            ==> #[trigger] chosen_slot(slots, topic, fresh_id)[k] != '|',
    ensures
        shift_trim_spec(shift_log, slots, topic, fresh_id, now as int) <= shift_log.len(),
        recent_count(shift_log, slots, topic, fresh_id, now as int) >= 1,
{
    let id = chosen_slot(slots, topic, fresh_id);
    let log = shift_log_after(shift_log, slots, topic, fresh_id, now as int);
    let m = shift_log.len() as int;
    let cutoff = now - CONTEXT_SHIFT_WINDOW_SECS;
    lemma_shift_entry_time(id, now);
    assert(log[m] == shift_entry_spec(id, now as int));
    assert(!is_stale(log[m], cutoff));
    lemma_stale_run_stops(log, cutoff, 0, m);
    let trim = shift_trim_spec(shift_log, slots, topic, fresh_id, now as int);
    let rest = log.skip(trim);
    assert(rest[m - trim] == log[m]);
    let p = id + "|"@;
    reveal_strlit("|");
    assert(log[m].take(p.len() as int) =~= p);
    lemma_count_prefixed_positive(rest, p, m - trim);
}

/// Number of entries of `log` that begin with `p` and are stamped at or after `cutoff`.
pub open spec fn count_recent(log: Seq<Seq<char>>, p: Seq<char>, cutoff: int) -> nat
    decreases log.len(),
{
    if log.len() == 0 {
        0
    } else {
        count_recent(log.drop_last(), p, cutoff) + if has_prefix(log.last(), p)
            && (shift_entry_time(log.last()) matches Some(t) && t >= cutoff) { 1nat } else { 0nat }
    }
}

/// Every entry of the list carries a timestamp, and the timestamps never decrease.
pub open spec fn in_time_order(log: Seq<Seq<char>>) -> bool {
    &&& forall|i: int| 0 <= i < log.len() ==> (#[trigger] shift_entry_time(log[i])) is Some
    &&& forall|i: int, j: int| 0 <= i <= j < log.len()
        ==> shift_entry_time(#[trigger] log[i])->Some_0 <= shift_entry_time(#[trigger] log[j])->Some_0
}

proof fn lemma_stale_run(log: Seq<Seq<char>>, cutoff: int, k: int)
    requires
        0 <= k <= log.len(),
    ensures
        k <= stale_run_end(log, cutoff, k) <= log.len(),
        forall|i: int| k <= i < stale_run_end(log, cutoff, k) ==> is_stale(#[trigger] log[i], cutoff),
        stale_run_end(log, cutoff, k) < log.len() ==> !is_stale(log[stale_run_end(log, cutoff, k)], cutoff),
    decreases log.len() - k,
{
    if k < log.len() && is_stale(log[k], cutoff) {
        lemma_stale_run(log, cutoff, k + 1);
    }
}

proof fn lemma_count_after_split(log: Seq<Seq<char>>, p: Seq<char>, cutoff: int, m: int)
    requires
        0 <= m <= log.len(),
        forall|i: int| 0 <= i < m ==> is_stale(#[trigger] log[i], cutoff),
        forall|i: int| m <= i < log.len() ==> (shift_entry_time(#[trigger] log[i]) matches Some(t) && t >= cutoff),
    ensures
        count_prefixed(log.skip(m), p) == count_recent(log, p, cutoff),
    decreases log.len(),
{
    if log.len() > 0 {
        let d = log.drop_last();
        if m == log.len() {
            lemma_count_after_split(d, p, cutoff, m - 1);
            assert(log.skip(m).len() == 0);
            assert(d.skip(m - 1).len() == 0);
            assert(is_stale(log[m - 1], cutoff));
        } else {
            assert forall|i: int| 0 <= i < m implies is_stale(#[trigger] d[i], cutoff) by {
                assert(d[i] == log[i]);
            }
            assert forall|i: int| m <= i < d.len() implies (shift_entry_time(#[trigger] d[i]) matches Some(t) && t >= cutoff) by {
                assert(d[i] == log[i]);
            }
            lemma_count_after_split(d, p, cutoff, m);
            assert(log.skip(m).drop_last() =~= d.skip(m));
            assert(log.skip(m).last() == log.last());
            assert(shift_entry_time(log[log.len() - 1]) matches Some(t) && t >= cutoff);
        }
    }
}

/// When the context-shift list is in time order and no entry is stamped after
/// `now`, trimming keeps exactly the entries of the last window: the chosen
/// slot's entries counted after the trim are its entries stamped within the
/// window before `now`, the new one included. (As for the kept-entry law, the
/// chosen slot's id is nonempty and holds no `|`.)
pub proof fn law_shift_count_is_window_count(
    shift_log: Seq<String>,
    slots: Seq<ActiveSlot>,
    topic: Seq<char>,
    fresh_id: Seq<char>,
    now: i64,
)
    requires
        chosen_slot(slots, topic, fresh_id).len() > 0,
        forall|k: int| 0 <= k < chosen_slot(slots, topic, fresh_id).len()
            ==> #[trigger] chosen_slot(slots, topic, fresh_id)[k] != '|',
        in_time_order(string_views(shift_log)),
        forall|i: int| 0 <= i < shift_log.len()
            ==> shift_entry_time(#[trigger] string_views(shift_log)[i])->Some_0 <= now,
    ensures
        recent_count(shift_log, slots, topic, fresh_id, now as int) == count_recent(
            shift_log_after(shift_log, slots, topic, fresh_id, now as int),
            chosen_slot(slots, topic, fresh_id) + "|"@,
            now - CONTEXT_SHIFT_WINDOW_SECS,
        ),
{
    let id = chosen_slot(slots, topic, fresh_id);
    let old = string_views(shift_log);
    let log = shift_log_after(shift_log, slots, topic, fresh_id, now as int);
    let cutoff = now - CONTEXT_SHIFT_WINDOW_SECS;
    let n = old.len() as int;
    lemma_shift_entry_time(id, now);
    assert(log[n] == shift_entry_spec(id, now as int));
    assert forall|i: int| 0 <= i < n implies #[trigger] log[i] == old[i] by {}
    assert(in_time_order(log)) by {
        assert forall|i: int| 0 <= i < log.len() implies (#[trigger] shift_entry_time(log[i])) is Some by {
            if i < n {
                assert(log[i] == old[i]);
            }
        }
        assert forall|i: int, j: int| 0 <= i <= j < log.len()
            implies shift_entry_time(#[trigger] log[i])->Some_0 <= shift_entry_time(#[trigger] log[j])->Some_0 by {
            if j < n {
                assert(log[i] == old[i] && log[j] == old[j]);
            } else if i < n {
                assert(log[i] == old[i]);
            }
        }
    }
    let m = stale_run_end(log, cutoff, 0);
    lemma_stale_run(log, cutoff, 0);
    if m < log.len() {
        assert forall|i: int| m <= i < log.len() implies (shift_entry_time(#[trigger] log[i]) matches Some(t) && t >= cutoff) by {
            assert(shift_entry_time(log[m]) is Some);
            assert(shift_entry_time(log[i]) is Some);
            assert(shift_entry_time(log[m])->Some_0 <= shift_entry_time(log[i])->Some_0);
        }
    }
    lemma_count_after_split(log, id + "|"@, cutoff, m);
}

/// A UUID is a valid slot id for the entry law: nonempty and free of `|`.
pub proof fn lemma_uuid_has_no_bar(s: Seq<char>)
    requires
        is_uuid_text(s),
    ensures
        s.len() > 0,
        forall|k: int| 0 <= k < s.len() ==> #[trigger] s[k] != '|',
{
    assert forall|k: int| 0 <= k < s.len() implies #[trigger] s[k] != '|' by {
        if k == 8 || k == 13 || k == 18 || k == 23 {
        } else {
            assert(crate::clock::is_lower_hex_digit(s[k]));
        }
    }
}

} // verus!
