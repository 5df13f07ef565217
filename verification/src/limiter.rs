//! The fixed-window rate limiter.
//!
//! Time is measured in nanoseconds on a monotonic clock: a point in time is
//! the number of nanoseconds since the limiter's origin, and a duration is a
//! number of nanoseconds.

use vstd::prelude::*;
use vstd::hash_map::StringHashMap;
use std::time::Instant;

verus! {

#[verifier::external_type_specification]
#[verifier::external_body]
pub struct ExInstant(Instant);

/// `Instant::now`: a reading of the monotonic clock. Nothing is stated of
/// the reading; it is only ever used as the origin of a limiter's clock.
#[verifier::external_body]
fn clock_origin() -> Instant {
    Instant::now()
}

/// `Instant::elapsed`, in nanoseconds: the time from `origin` to now on the
/// monotonic clock. Nothing is stated of the result, which depends on the
/// time of the call.
#[verifier::external_body]
fn nanos_since(origin: &Instant) -> u128 {
    origin.elapsed().as_nanos()
}

/// The name of a counter: requests that map to the same key share a window.
#[derive(Debug, PartialEq, Eq, Hash, PartialOrd, Ord)]
pub struct RateLimitKey(pub String);

impl View for RateLimitKey {
    type V = Seq<char>;

    open spec fn view(&self) -> Seq<char> {
        self.0@
    }
}

impl RateLimitKey {
    pub fn new(key: String) -> (r: Self)
        ensures
            r@ == key@,
    {
        RateLimitKey(key)
    }
}

impl Clone for RateLimitKey {
    fn clone(&self) -> (r: Self)
        ensures
            r@ == self@,
    {
        RateLimitKey(self.0.clone())
    }
}

/// A check against one fixed-window counter: which key to count, and the
/// limit and window length that apply to it.
#[derive(Debug)]
pub struct RateLimitCheck {
    pub key: RateLimitKey,
    pub limit: usize,
    /// Length of the window in nanoseconds.
    pub window: u128,
}

impl RateLimitCheck {
    pub fn new(key: RateLimitKey, limit: usize, window: u128) -> (r: Self)
        ensures
            r.key@ == key@,
            r.limit == limit,
            r.window == window,
    {
        RateLimitCheck { key, limit, window }
    }

    pub fn key(&self) -> (r: &RateLimitKey)
        ensures
            r@ == self.key@,
    {
        &self.key
    }
}

impl Clone for RateLimitCheck {
    fn clone(&self) -> (r: Self)
        ensures
            r.key@ == self.key@,
            r.limit == self.limit,
            r.window == self.window,
    {
        RateLimitCheck { key: self.key.clone(), limit: self.limit, window: self.window }
    }
}

/// One key whose limit was reached: the key, its limit, and how long (in
/// nanoseconds) until its window ends.
#[derive(Debug, PartialEq, Eq)]
pub struct RateLimitExceededKey {
    pub key: RateLimitKey,
    pub limit: usize,
    pub retry_after: u128,
}

impl View for RateLimitExceededKey {
    type V = (Seq<char>, usize, u128);

    open spec fn view(&self) -> (Seq<char>, usize, u128) {
        (self.key@, self.limit, self.retry_after)
    }
}

/// What a refused check reports: every key whose limit was reached, and the
/// longest of their waits, which is how long the caller must wait before the
/// same request can pass.
#[derive(Debug, PartialEq, Eq)]
pub struct RateLimitExceeded {
    pub exceeded: Vec<RateLimitExceededKey>,
    pub retry_after: u128,
}

pub open spec fn exceeded_view(v: Seq<RateLimitExceededKey>) -> Seq<(Seq<char>, usize, u128)> {
    v.map_values(|x: RateLimitExceededKey| x@)
}

pub type RateLimitResult = Result<(), RateLimitExceeded>;

/// Nanoseconds from `start` to `now`, or zero when `now` is earlier.
pub open spec fn elapsed(now: u128, start: u128) -> int {
    if now >= start {
        now - start
    } else {
        0
    }
}

/// The window of `check`'s key is still open at `now`.
pub open spec fn window_open(m: StateMap, check: RateLimitCheck, now: u128) -> bool {
    &&& m.contains_key(check.key@)
    &&& elapsed(now, m[check.key@].window_started_at) < check.window
}

/// `check` is refused at `now`: its key's window is still open and its count
/// has reached the check's limit.
pub open spec fn is_exceeded(m: StateMap, check: RateLimitCheck, now: u128) -> bool {
    &&& window_open(m, check, now)
    &&& m[check.key@].count >= check.limit
}

/// What is reported for a refused check.
pub open spec fn exceeded_entry(m: StateMap, check: RateLimitCheck, now: u128) -> (
    Seq<char>,
    usize,
    u128,
) {
    (
        check.key@,
        check.limit,
        (check.window - elapsed(now, m[check.key@].window_started_at)) as u128,
    )
}

/// The refused checks among `checks`, in order, each judged against `m`.
pub open spec fn exceeded_entries(m: StateMap, checks: Seq<RateLimitCheck>, now: u128) -> Seq<
    (Seq<char>, usize, u128),
>
    decreases checks.len(),
{
    if checks.len() == 0 {
        seq![]
    } else {
        let prev = exceeded_entries(m, checks.drop_last(), now);
        if is_exceeded(m, checks.last(), now) {
            prev.push(exceeded_entry(m, checks.last(), now))
        } else {
            prev
        }
    }
}

/// The longest wait among `entries` (zero when there are none).
pub open spec fn max_retry_after(entries: Seq<(Seq<char>, usize, u128)>) -> u128
    decreases entries.len(),
{
    if entries.len() == 0 {
        0
    } else {
        let prev = max_retry_after(entries.drop_last());
        if entries.last().2 > prev {
            entries.last().2
        } else {
            prev
        }
    }
}

/// The states after counting one event for `check` at `now`: an open window
/// is incremented, and a missing or expired one is started anew at `now`.
pub open spec fn counted(m: StateMap, check: RateLimitCheck, now: u128) -> StateMap {
    if window_open(m, check, now) {
        m.insert(
            check.key@,
            RateLimitState {
                count: (m[check.key@].count + 1) as usize,
                window_started_at: m[check.key@].window_started_at,
            },
        )
    } else {
        m.insert(check.key@, RateLimitState { count: 1, window_started_at: now })
    }
}

/// The states after counting every check in order.
pub open spec fn counted_all(m: StateMap, checks: Seq<RateLimitCheck>, now: u128) -> StateMap
    decreases checks.len(),
{
    if checks.len() == 0 {
        m
    } else {
        counted(counted_all(m, checks.drop_last(), now), checks.last(), now)
    }
}

/// Counting one event for `check` keeps its counter within `usize`.
pub open spec fn count_fits(m: StateMap, check: RateLimitCheck, now: u128) -> bool {
    window_open(m, check, now) ==> m[check.key@].count < usize::MAX
}

/// Counting every check in order keeps each counter within `usize`.
pub open spec fn counts_fit(m: StateMap, checks: Seq<RateLimitCheck>, now: u128) -> bool
    decreases checks.len(),
{
    checks.len() == 0 || (counts_fit(m, checks.drop_last(), now) && count_fits(
        counted_all(m, checks.drop_last(), now),
        checks.last(),
        now,
    ))
}

/// The outcome of checking `checks` at `now` against the states `m`, given
/// the result and the states afterwards: either some check is refused, every
/// refused check is reported with the longest wait and nothing changes, or
/// none is and an event is counted for every check.
pub open spec fn check_outcome(
    m: StateMap,
    checks: Seq<RateLimitCheck>,
    now: u128,
    r: RateLimitResult,
    after: StateMap,
) -> bool {
    let entries = exceeded_entries(m, checks, now);
    match r {
        Ok(()) => entries.len() == 0 && after == counted_all(m, checks, now),
        Err(e) => {
            &&& entries.len() > 0
            &&& exceeded_view(e.exceeded@) == entries
            &&& e.retry_after == max_retry_after(entries)
            &&& after == m
        },
    }
}

pub open spec fn overlay_view(v: Seq<(String, RateLimitState)>) -> Seq<(Seq<char>, RateLimitState)> {
    v.map_values(|e: (String, RateLimitState)| (e.0@, e.1))
}

/// The states `m` with the updates `updates` applied in order.
pub open spec fn overlaid(m: StateMap, updates: Seq<(Seq<char>, RateLimitState)>) -> StateMap
    decreases updates.len(),
{
    if updates.len() == 0 {
        m
    } else {
        overlaid(m, updates.drop_last()).insert(updates.last().0, updates.last().1)
    }
}

/// The state of `key` in `states` with the updates `overlay` applied.
fn lookup(
    overlay: &Vec<(String, RateLimitState)>,
    states: &StringHashMap<RateLimitState>,
    key: &String,
) -> (r: Option<RateLimitState>)
    ensures
        r == (if overlaid(states@, overlay_view(overlay@)).contains_key(key@) {
            Some(overlaid(states@, overlay_view(overlay@))[key@])
        } else {
            None::<RateLimitState>
        }),
{
    let ghost updates = overlay_view(overlay@);
    let mut j: usize = overlay.len();
    while j > 0
        invariant
            j <= overlay@.len(),
            updates == overlay_view(overlay@),
            forall|m: int| j <= m < overlay@.len() ==> (#[trigger] updates[m]).0 != key@,
        decreases j,
    {
        j = j - 1;
        if overlay[j].0 == *key {
            proof {
                lemma_overlaid_last_write(states@, updates, j as int, key@);
            }
            return Some(overlay[j].1);
        }
    }
    proof {
        lemma_overlaid_untouched(states@, updates, key@);
    }
    match states.get(key.as_str()) {
        Some(state) => Some(*state),
        None => None,
    }
}

proof fn lemma_overlaid_last_write(
    m: StateMap,
    updates: Seq<(Seq<char>, RateLimitState)>,
    j: int,
    key: Seq<char>,
)
    requires
        0 <= j < updates.len(),
        updates[j].0 == key,
        forall|k: int| j < k < updates.len() ==> (#[trigger] updates[k]).0 != key,
    ensures
        overlaid(m, updates).contains_key(key),
        overlaid(m, updates)[key] == updates[j].1,
    decreases updates.len(),
{
    if j < updates.len() - 1 {
        lemma_overlaid_last_write(m, updates.drop_last(), j, key);
    }
}

proof fn lemma_overlaid_untouched(m: StateMap, updates: Seq<(Seq<char>, RateLimitState)>, key: Seq<char>)
    requires
        forall|k: int| 0 <= k < updates.len() ==> (#[trigger] updates[k]).0 != key,
    ensures
        overlaid(m, updates).contains_key(key) == m.contains_key(key),
        m.contains_key(key) ==> overlaid(m, updates)[key] == m[key],
    decreases updates.len(),
{
    if updates.len() > 0 {
        lemma_overlaid_untouched(m, updates.drop_last(), key);
    }
}

proof fn lemma_counts_fit_prefix(m: StateMap, checks: Seq<RateLimitCheck>, now: u128, i: int)
    requires
        counts_fit(m, checks, now),
        0 <= i <= checks.len(),
    ensures
        counts_fit(m, checks.take(i), now),
    decreases checks.len(),
{
    if i < checks.len() {
        lemma_counts_fit_prefix(m, checks.drop_last(), now, i);
        assert(checks.drop_last().take(i) =~= checks.take(i));
    } else {
        assert(checks.take(i) =~= checks);
    }
}

/// State of a single fixed window: how many events were counted in it and
/// when it started.
#[derive(Clone, Copy, Debug, PartialEq, Eq)]
pub struct RateLimitState {
    pub count: usize,
    pub window_started_at: u128,
}

/// The states of all keys that have been counted, keyed by the key's text.
pub type StateMap = Map<Seq<char>, RateLimitState>;

/// A container for all rate limit counters.
pub struct RateLimiter {
    states: StringHashMap<RateLimitState>,
    origin: Instant,
}

impl View for RateLimiter {
    type V = StateMap;

    closed spec fn view(&self) -> StateMap {
        self.states@
    }
}

impl RateLimiter {
    pub fn new() -> (r: Self)
        ensures
            r@ == StateMap::empty(),
    {
        RateLimiter { states: StringHashMap::new(), origin: clock_origin() }
    }

    /// The current time on this limiter's clock, in nanoseconds since the
    /// limiter was created.
    pub fn now(&self) -> u128 {
        nanos_since(&self.origin)
    }

    /// Checks and counts `checks` at the current time, as
    /// `check_and_increment_at` does for a given time.
    pub fn check_and_increment(&mut self, checks: &[RateLimitCheck]) -> (r: RateLimitResult)
        requires
            forall|now: u128|
                exceeded_entries(old(self)@, checks@, now).len() == 0 ==> counts_fit(
                    old(self)@,
                    checks@,
                    now,
                ),
        ensures
            exists|now: u128| check_outcome(old(self)@, checks@, now, r, final(self)@),
    {
        let now = self.now();
        self.check_and_increment_at(checks, now)
    }

    /// The number of events counted in the current window of `key`, if the
    /// key has a counter.
    pub fn count_for_key(&self, key: &RateLimitKey) -> (r: Option<usize>)
        ensures
            r == (if self@.contains_key(key@) {
                Some(self@[key@].count)
            } else {
                None::<usize>
            }),
    {
        match self.states.get(key.0.as_str()) {
            Some(state) => Some(state.count),
            None => None,
        }
    }

    /// Checks every check at time `now` (nanoseconds on the limiter's clock)
    /// and counts an event for each, all or nothing:
    /// - if the limit is reached for any key whose window is still open,
    ///   nothing is counted and every such check is reported, with the
    ///   longest wait among them;
    /// - otherwise an expired or missing window starts anew at `now` with a
    ///   count of one, and an open window's count goes up by one.
    pub fn check_and_increment_at(&mut self, checks: &[RateLimitCheck], now: u128) -> (r:
        RateLimitResult)
        requires
            exceeded_entries(old(self)@, checks@, now).len() == 0 ==> counts_fit(
                old(self)@,
                checks@,
                now,
            ),
        ensures
            check_outcome(old(self)@, checks@, now, r, final(self)@),
    {
        let ghost m0 = self@;
        let mut exceeded: Vec<RateLimitExceededKey> = Vec::new();
        let mut i: usize = 0;
        while i < checks.len()
            invariant
                i <= checks.len(),
                self@ == m0,
                exceeded_view(exceeded@) == exceeded_entries(m0, checks@.take(i as int), now),
            decreases checks.len() - i,
        {
            let check = &checks[i];
            proof {
                assert(checks@.take(i + 1).drop_last() =~= checks@.take(i as int));
                assert(checks@.take(i + 1).last() == checks@[i as int]);
            }
            match self.states.get(check.key.0.as_str()) {
                Some(state) => {
                    let elapsed = if now >= state.window_started_at {
                        now - state.window_started_at
                    } else {
                        0
                    };
                    if state.count >= check.limit && elapsed < check.window {
                        let ghost before = exceeded@;
                        exceeded.push(
                            RateLimitExceededKey {
                                key: check.key.clone(),
                                limit: check.limit,
                                retry_after: check.window - elapsed,
                            },
                        );
                        proof {
                            assert(exceeded_view(exceeded@) =~= exceeded_view(before).push(
                                exceeded@.last()@,
                            ));
                        }
                    }
                },
                None => {},
            }
            i = i + 1;
        }
        proof {
            assert(checks@.take(checks@.len() as int) =~= checks@);
        }

        if exceeded.len() > 0 {
            let ghost entries = exceeded_view(exceeded@);
            let mut retry_after: u128 = 0;
            let mut j: usize = 0;
            while j < exceeded.len()
                invariant
                    j <= exceeded.len(),
                    entries == exceeded_view(exceeded@),
                    retry_after == max_retry_after(entries.take(j as int)),
                decreases exceeded.len() - j,
            {
                proof {
                    assert(entries.take(j + 1).drop_last() =~= entries.take(j as int));
                }
                if exceeded[j].retry_after > retry_after {
                    retry_after = exceeded[j].retry_after;
                }
                j = j + 1;
            }
            proof {
                assert(entries.take(entries.len() as int) =~= entries);
            }
            return Err(RateLimitExceeded { exceeded, retry_after });
        }

        let mut i: usize = 0;
        while i < checks.len()
            invariant
                i <= checks.len(),
                counts_fit(m0, checks@, now),
                self@ == counted_all(m0, checks@.take(i as int), now),
            decreases checks.len() - i,
        {
            let check = &checks[i];
            proof {
                lemma_counts_fit_prefix(m0, checks@, now, i + 1);
                assert(checks@.take(i + 1).drop_last() =~= checks@.take(i as int));
                assert(checks@.take(i + 1).last() == checks@[i as int]);
            }
            let next = match self.states.get(check.key.0.as_str()) {
                Some(state) => {
                    let elapsed = if now >= state.window_started_at {
                        now - state.window_started_at
                    } else {
                        0
                    };
                    if elapsed >= check.window {
                        RateLimitState { count: 1, window_started_at: now }
                    } else {
                        RateLimitState {
                            count: state.count + 1,
                            window_started_at: state.window_started_at,
                        }
                    }
                },
                None => RateLimitState { count: 1, window_started_at: now },
            };
            self.states.insert(check.key.0.clone(), next);
            i = i + 1;
        }
        proof {
            assert(checks@.take(checks@.len() as int) =~= checks@);
        }
        Ok(())
    }

    /// Whether counting `checks` at `now` keeps every counter within `usize`
    /// (the condition under which `check_and_increment_at` may be called).
    pub fn counts_fit_at(&self, checks: &[RateLimitCheck], now: u128) -> (r: bool)
        ensures
            r == counts_fit(self@, checks@, now),
    {
        let ghost m0 = self@;
        // The states counted so far, newest last, over those of `self`.
        let mut overlay: Vec<(String, RateLimitState)> = Vec::new();
        let mut i: usize = 0;
        while i < checks.len()
            invariant
                i <= checks.len(),
                self@ == m0,
                counts_fit(m0, checks@.take(i as int), now),
                overlaid(m0, overlay_view(overlay@)) == counted_all(m0, checks@.take(i as int), now),
            decreases checks.len() - i,
        {
            let check = &checks[i];
            proof {
                assert(checks@.take(i + 1).drop_last() =~= checks@.take(i as int));
                assert(checks@.take(i + 1).last() == checks@[i as int]);
            }
            let current = lookup(&overlay, &self.states, &check.key.0);
            let next = match current {
                Some(state) => {
                    let elapsed = if now >= state.window_started_at {
                        now - state.window_started_at
                    } else {
                        0
                    };
                    if elapsed >= check.window {
                        RateLimitState { count: 1, window_started_at: now }
                    } else {
                        if state.count == usize::MAX {
                            proof {
                                if counts_fit(m0, checks@, now) {
                                    lemma_counts_fit_prefix(m0, checks@, now, i + 1);
                                }
                            }
                            return false;
                        }
                        RateLimitState {
                            count: state.count + 1,
                            window_started_at: state.window_started_at,
                        }
                    }
                },
                None => RateLimitState { count: 1, window_started_at: now },
            };
            let ghost before = overlay@;
            overlay.push((check.key.0.clone(), next));
            proof {
                assert(overlay_view(overlay@) =~= overlay_view(before).push((check.key@, next)));
                assert(overlay_view(overlay@).drop_last() =~= overlay_view(before));
            }
            i = i + 1;
        }
        proof {
            assert(checks@.take(checks@.len() as int) =~= checks@);
        }
        true
    }

    /// Removes every counter.
    pub fn reset(&mut self)
        ensures
            final(self)@ == StateMap::empty(),
    {
        self.states.clear();
    }

    /// Removes the counter of `key`, leaving the others as they were.
    pub fn reset_key(&mut self, key: &RateLimitKey)
        ensures
            final(self)@ == old(self)@.remove(key@),
    {
        self.states.remove(key.0.as_str());
    }
}


/// The Retry-After value for a refused request: its longest wait in whole
/// seconds, and at least one second.
pub open spec fn retry_after_header_value(retry_after: u128) -> u128 {
    if retry_after / 1_000_000_000 >= 1 {
        retry_after / 1_000_000_000
    } else {
        1
    }
}

/// The number of seconds to put in the Retry-After header of a refused
/// request: the longest wait rounded down to whole seconds, at least one.
pub fn retry_after_header_seconds(exceeded: &RateLimitExceeded) -> (r: u128)
    ensures
        r == retry_after_header_value(exceeded.retry_after),
        r >= 1,
{
    let seconds = exceeded.retry_after / 1_000_000_000;
    if seconds >= 1 {
        seconds
    } else {
        1
    }
}

/// A request is checked all or nothing: when any of its checks is refused,
/// the check reports a refusal and no counter changes (none is created,
/// none is incremented).
pub proof fn law_refusal_changes_nothing(
    m: StateMap,
    checks: Seq<RateLimitCheck>,
    now: u128,
    r: RateLimitResult,
    after: StateMap,
)
    requires
        check_outcome(m, checks, now, r, after),
        exists|i: int| 0 <= i < checks.len() && is_exceeded(m, #[trigger] checks[i], now),
    ensures
        r is Err,
        after == m,
{
    let i = choose|i: int| 0 <= i < checks.len() && is_exceeded(m, #[trigger] checks[i], now);
    lemma_exceeded_reported(m, checks, now, i);
}

/// A check whose key's window is open and whose count has reached its limit
/// is reported among the refused checks.
pub proof fn lemma_exceeded_reported(m: StateMap, checks: Seq<RateLimitCheck>, now: u128, i: int)
    requires
        0 <= i < checks.len(),
        is_exceeded(m, checks[i], now),
    ensures
        exceeded_entries(m, checks, now).len() > 0,
        exists|k: int|
            0 <= k < exceeded_entries(m, checks, now).len() && #[trigger] exceeded_entries(
                m,
                checks,
                now,
            )[k] == exceeded_entry(m, checks[i], now),
    decreases checks.len(),
{
    let entries = exceeded_entries(m, checks, now);
    let prev = exceeded_entries(m, checks.drop_last(), now);
    if i < checks.len() - 1 {
        lemma_exceeded_reported(m, checks.drop_last(), now, i);
        assert(checks.drop_last()[i] == checks[i]);
        let k = choose|k: int|
            0 <= k < prev.len() && #[trigger] prev[k] == exceeded_entry(m, checks.drop_last()[i], now);
        assert(entries[k] == prev[k]);
    } else {
        assert(checks.last() == checks[i]);
        assert(entries[entries.len() - 1] == exceeded_entry(m, checks[i], now));
    }
}

/// When none of the checks is refused on its own, nothing is reported.
pub proof fn lemma_none_exceeded(m: StateMap, checks: Seq<RateLimitCheck>, now: u128)
    requires
        forall|i: int| 0 <= i < checks.len() ==> !is_exceeded(m, #[trigger] checks[i], now),
    ensures
        exceeded_entries(m, checks, now).len() == 0,
    decreases checks.len(),
{
    if checks.len() > 0 {
        assert forall|i: int| 0 <= i < checks.drop_last().len() implies !is_exceeded(
            m,
            #[trigger] checks.drop_last()[i],
            now,
        ) by {
            assert(checks.drop_last()[i] == checks[i]);
        }
        lemma_none_exceeded(m, checks.drop_last(), now);
        assert(checks.last() == checks[checks.len() - 1]);
    }
}

/// Counting two runs of checks one after the other is counting their
/// concatenation.
pub proof fn lemma_counted_all_append(
    m: StateMap,
    first: Seq<RateLimitCheck>,
    second: Seq<RateLimitCheck>,
    now: u128,
)
    ensures
        counted_all(m, first + second, now) == counted_all(counted_all(m, first, now), second, now),
    decreases second.len(),
{
    if second.len() == 0 {
        assert(first + second =~= first);
    } else {
        lemma_counted_all_append(m, first, second.drop_last(), now);
        assert((first + second).drop_last() =~= first + second.drop_last());
        assert((first + second).last() == second.last());
    }
}

/// When the key of `checks[i]` occurs nowhere else in `checks`, counting
/// all of them leaves that key's counter as counting `checks[i]` alone
/// would.
pub proof fn lemma_single_occurrence(m: StateMap, checks: Seq<RateLimitCheck>, now: u128, i: int)
    requires
        0 <= i < checks.len(),
        forall|j: int| 0 <= j < checks.len() && j != i ==> (#[trigger] checks[j]).key@ != checks[i].key@,
    ensures
        counted_all(m, checks, now).contains_key(checks[i].key@),
        counted_all(m, checks, now)[checks[i].key@] == counted(m, checks[i], now)[checks[i].key@],
{
    let key = checks[i].key@;
    let before = checks.take(i);
    let after = checks.skip(i + 1);
    assert(checks =~= before + seq![checks[i]] + after);
    assert forall|j: int| 0 <= j < before.len() implies (#[trigger] before[j]).key@ != key by {
        assert(before[j] == checks[j]);
    }
    assert forall|j: int| 0 <= j < after.len() implies (#[trigger] after[j]).key@ != key by {
        assert(after[j] == checks[i + 1 + j]);
    }
    law_other_keys_untouched(m, before, now, key);
    let m1 = counted_all(m, before, now);
    lemma_counted_all_append(m, before, seq![checks[i]], now);
    assert(seq![checks[i]].drop_last() =~= Seq::<RateLimitCheck>::empty());
    let m2 = counted_all(m1, seq![checks[i]], now);
    assert(counted_all(m1, seq![checks[i]].drop_last(), now) == m1);
    assert(seq![checks[i]].last() == checks[i]);
    assert(m2 == counted(m1, checks[i], now));
    lemma_counted_all_append(m, before + seq![checks[i]], after, now);
    law_other_keys_untouched(m2, after, now, key);
}

/// A request is refused only for a reason: every reported key is one of
/// its checks whose window is open and whose count has reached the limit,
/// and the wait it reports is the rest of that window, at least one
/// nanosecond and at most the window's length.
pub proof fn law_refusals_are_justified(m: StateMap, checks: Seq<RateLimitCheck>, now: u128, k: int)
    requires
        0 <= k < exceeded_entries(m, checks, now).len(),
    ensures
        exists|i: int|
            0 <= i < checks.len() && is_exceeded(m, #[trigger] checks[i], now)
                && exceeded_entries(m, checks, now)[k] == exceeded_entry(m, checks[i], now)
                && exceeded_entries(m, checks, now)[k].2 <= checks[i].window,
        0 < exceeded_entries(m, checks, now)[k].2,
    decreases checks.len(),
{
    let prev = exceeded_entries(m, checks.drop_last(), now);
    if k < prev.len() {
        law_refusals_are_justified(m, checks.drop_last(), now, k);
        let i = choose|i: int|
            0 <= i < checks.drop_last().len() && is_exceeded(m, #[trigger] checks.drop_last()[i], now)
                && prev[k] == exceeded_entry(m, checks.drop_last()[i], now);
        assert(checks.drop_last()[i] == checks[i]);
    } else {
        assert(is_exceeded(m, checks[checks.len() - 1], now));
    }
}

/// The wait reported for a refused request is the longest of the waits of
/// its refused keys: at least each of them, and equal to one of them.
pub proof fn law_retry_after_is_longest_wait(entries: Seq<(Seq<char>, usize, u128)>)
    requires
        entries.len() > 0,
    ensures
        forall|k: int| 0 <= k < entries.len() ==> (#[trigger] entries[k]).2 <= max_retry_after(entries),
        exists|k: int| 0 <= k < entries.len() && (#[trigger] entries[k]).2 == max_retry_after(entries),
    decreases entries.len(),
{
    if entries.len() > 1 {
        law_retry_after_is_longest_wait(entries.drop_last());
        let prev = entries.drop_last();
        assert forall|k: int| 0 <= k < entries.len() implies (#[trigger] entries[k]).2 <= max_retry_after(entries) by {
            if k < entries.len() - 1 {
                assert(prev[k] == entries[k]);
            }
        }
        if entries.last().2 <= max_retry_after(prev) {
            let k = choose|k: int| 0 <= k < prev.len() && (#[trigger] prev[k]).2 == max_retry_after(prev);
            assert(prev[k] == entries[k]);
            assert(max_retry_after(entries) == max_retry_after(prev));
            assert(entries[k].2 == max_retry_after(entries));
        } else {
            assert(entries[entries.len() - 1].2 == max_retry_after(entries));
        }
    } else {
        assert(entries.drop_last().len() == 0);
        assert(max_retry_after(entries.drop_last()) == 0);
        assert(entries[0] == entries.last());
        assert(entries[0].2 == max_retry_after(entries));
    }
}

/// Keys are independent: counting a request leaves the counter of every
/// key that none of its checks names exactly as it was.
pub proof fn law_other_keys_untouched(m: StateMap, checks: Seq<RateLimitCheck>, now: u128, key: Seq<char>)
    requires
        forall|i: int| 0 <= i < checks.len() ==> (#[trigger] checks[i]).key@ != key,
    ensures
        counted_all(m, checks, now).contains_key(key) == m.contains_key(key),
        m.contains_key(key) ==> counted_all(m, checks, now)[key] == m[key],
    decreases checks.len(),
{
    if checks.len() > 0 {
        assert forall|i: int| 0 <= i < checks.drop_last().len() implies (#[trigger] checks.drop_last()[i]).key@ != key by {
            assert(checks.drop_last()[i] == checks[i]);
        }
        law_other_keys_untouched(m, checks.drop_last(), now, key);
        assert(checks.last() == checks[checks.len() - 1]);
    }
}

/// After a counted request, every key that one of its checks names has a
/// counter of at least one.
pub proof fn law_checked_keys_are_counted(m: StateMap, checks: Seq<RateLimitCheck>, now: u128, i: int)
    requires
        0 <= i < checks.len(),
        counts_fit(m, checks, now),
    ensures
        counted_all(m, checks, now).contains_key(checks[i].key@),
        counted_all(m, checks, now)[checks[i].key@].count >= 1,
    decreases checks.len(),
{
    if i < checks.len() - 1 {
        law_checked_keys_are_counted(m, checks.drop_last(), now, i);
        assert(checks.drop_last()[i] == checks[i]);
    }
}

/// A single check whose key has no open window is never refused, and
/// counting it starts a new window at `now` with a count of one: a counter
/// starts over once its window has passed.
pub proof fn law_expired_window_starts_over(m: StateMap, check: RateLimitCheck, now: u128)
    requires
        !window_open(m, check, now),
    ensures
        exceeded_entries(m, seq![check], now).len() == 0,
        counts_fit(m, seq![check], now),
        counted_all(m, seq![check], now)[check.key@] == (RateLimitState {
            count: 1,
            window_started_at: now,
        }),
{
    reveal_with_fuel(exceeded_entries, 2);
    reveal_with_fuel(counts_fit, 2);
    reveal_with_fuel(counted_all, 2);
    assert(seq![check].drop_last() =~= Seq::<RateLimitCheck>::empty());
}

/// A single check whose key's window is open and below the check's limit
/// passes, and counting it adds one to the counter and keeps the window's
/// start.
pub proof fn law_open_window_counts_up(m: StateMap, check: RateLimitCheck, now: u128)
    requires
        window_open(m, check, now),
        m[check.key@].count < check.limit,
    ensures
        exceeded_entries(m, seq![check], now).len() == 0,
        counts_fit(m, seq![check], now),
        counted_all(m, seq![check], now)[check.key@] == (RateLimitState {
            count: (m[check.key@].count + 1) as usize,
            window_started_at: m[check.key@].window_started_at,
        }),
{
    reveal_with_fuel(exceeded_entries, 2);
    reveal_with_fuel(counts_fit, 2);
    reveal_with_fuel(counted_all, 2);
    assert(seq![check].drop_last() =~= Seq::<RateLimitCheck>::empty());
}

/// Some check of `checks` names `key`.
pub open spec fn names_key(checks: Seq<RateLimitCheck>, key: Seq<char>) -> bool {
    exists|i: int| 0 <= i < checks.len() && (#[trigger] checks[i]).key@ == key
}

/// At most one check of `checks` names `key`.
pub open spec fn key_at_most_once(checks: Seq<RateLimitCheck>, key: Seq<char>) -> bool {
    forall|i: int, j: int|
        0 <= i < checks.len() && 0 <= j < checks.len() && (#[trigger] checks[i]).key@ == key
            && (#[trigger] checks[j]).key@ == key ==> i == j
}

/// Every check of `checks` that names `key` has this limit and window.
pub open spec fn key_checked_with(
    checks: Seq<RateLimitCheck>,
    key: Seq<char>,
    limit: usize,
    window: u128,
) -> bool {
    forall|i: int|
        0 <= i < checks.len() && (#[trigger] checks[i]).key@ == key ==> checks[i].limit == limit
            && checks[i].window == window
}

/// The counter of `key`, if there is one, is between one and `limit`.
pub open spec fn within_limit(m: StateMap, key: Seq<char>, limit: usize) -> bool {
    m.contains_key(key) ==> 1 <= m[key].count <= limit
}

proof fn lemma_key_counted_once(
    m: StateMap,
    checks: Seq<RateLimitCheck>,
    now: u128,
    key: Seq<char>,
    i: int,
)
    requires
        0 <= i < checks.len(),
        checks[i].key@ == key,
        key_at_most_once(checks, key),
    ensures
        counted_all(m, checks, now).contains_key(key),
        counted_all(m, checks, now)[key] == counted(m, checks[i], now)[key],
{
    assert forall|j: int| 0 <= j < checks.len() && j != i implies (#[trigger] checks[j]).key@
        != checks[i].key@ by {
        if checks[j].key@ == key {
            assert(checks[i].key@ == key);
        }
    }
    lemma_single_occurrence(m, checks, now, i);
}

/// A counter never goes above its limit: when every check of a key has the
/// same limit (at least one) and no request checks the key twice, the
/// key's counter stays between one and the limit through every check. (A
/// new limiter has no counters, and `reset`/`reset_key` only remove them.)
pub proof fn law_counter_stays_within_limit(
    m: StateMap,
    checks: Seq<RateLimitCheck>,
    now: u128,
    r: RateLimitResult,
    after: StateMap,
    key: Seq<char>,
    limit: usize,
    window: u128,
)
    requires
        check_outcome(m, checks, now, r, after),
        within_limit(m, key, limit),
        limit >= 1,
        key_checked_with(checks, key, limit, window),
        key_at_most_once(checks, key),
    ensures
        within_limit(after, key, limit),
{
    if r is Ok {
        if names_key(checks, key) {
            let i = choose|i: int| 0 <= i < checks.len() && (#[trigger] checks[i]).key@ == key;
            lemma_key_counted_once(m, checks, now, key, i);
            if is_exceeded(m, checks[i], now) {
                lemma_exceeded_reported(m, checks, now, i);
            }
        } else {
            law_other_keys_untouched(m, checks, now, key);
        }
    }
}

/// A refused request passes once its reported wait is over, and not
/// before: checked again against the same counters, the same checks are
/// refused at every time from the refusal until the wait has passed, and
/// none is refused when it has. This holds when no counter of the request
/// started after the time of the refusal (a counter started later has, at
/// that time, a wait longer than its window left).
pub proof fn law_refused_request_passes_after_its_wait(
    m: StateMap,
    checks: Seq<RateLimitCheck>,
    now: u128,
    r: RateLimitResult,
    after: StateMap,
)
    requires
        check_outcome(m, checks, now, r, after),
        r is Err,
        forall|i: int|
            0 <= i < checks.len() && m.contains_key((#[trigger] checks[i]).key@)
                ==> m[checks[i].key@].window_started_at <= now,
        now + r->Err_0.retry_after <= u128::MAX,
    ensures
        after == m,
        exceeded_entries(after, checks, (now + r->Err_0.retry_after) as u128).len() == 0,
        forall|later: u128|
            now <= later < now + r->Err_0.retry_after ==> #[trigger] exceeded_entries(
                after,
                checks,
                later,
            ).len() > 0,
{
    let entries = exceeded_entries(m, checks, now);
    let wait = r->Err_0.retry_after;
    assert(wait == max_retry_after(entries));
    law_retry_after_is_longest_wait(entries);
    let k = choose|k: int| 0 <= k < entries.len() && (#[trigger] entries[k]).2 == max_retry_after(entries);
    law_refusals_are_justified(m, checks, now, k);
    let i = choose|i: int|
        0 <= i < checks.len() && is_exceeded(m, #[trigger] checks[i], now) && entries[k]
            == exceeded_entry(m, checks[i], now) && entries[k].2 <= checks[i].window;
    assert(m[checks[i].key@].window_started_at <= now);
    assert forall|later: u128| now <= later < now + wait implies #[trigger] exceeded_entries(
        after,
        checks,
        later,
    ).len() > 0 by {
        assert(is_exceeded(m, checks[i], later));
        lemma_exceeded_reported(m, checks, later, i);
    }
    let passed = (now + wait) as u128;
    assert forall|j: int| 0 <= j < checks.len() implies !is_exceeded(
        m,
        #[trigger] checks[j],
        passed,
    ) by {
        if is_exceeded(m, checks[j], now) {
            lemma_exceeded_reported(m, checks, now, j);
            let k2 = choose|k2: int|
                0 <= k2 < entries.len() && #[trigger] entries[k2] == exceeded_entry(m, checks[j], now);
            assert(entries[k2].2 <= max_retry_after(entries));
            assert(m[checks[j].key@].window_started_at <= now);
        } else if m.contains_key(checks[j].key@) {
            assert(m[checks[j].key@].window_started_at <= now);
        }
    }
    lemma_none_exceeded(m, checks, passed);
}

/// Checking is a function of the counters, the checks and the time: two
/// checks of the same request against the same counters at the same time
/// have the same outcome. So `check_and_increment`, whose outcome is that of
/// checking at the time it read from the clock, gives exactly what
/// `check_and_increment_at` gives at that time.
pub proof fn law_outcome_is_determined(
    m: StateMap,
    checks: Seq<RateLimitCheck>,
    now: u128,
    r1: RateLimitResult,
    after1: StateMap,
    r2: RateLimitResult,
    after2: StateMap,
)
    requires
        check_outcome(m, checks, now, r1, after1),
        check_outcome(m, checks, now, r2, after2),
    ensures
        after1 == after2,
        r1 is Ok <==> r2 is Ok,
        r1 is Err ==> exceeded_view(r1->Err_0.exceeded@) == exceeded_view(r2->Err_0.exceeded@)
            && r1->Err_0.retry_after == r2->Err_0.retry_after,
{
}

/// A run of checks against one limiter: before the `j`-th check the
/// counters are `states[j]`; it checks `calls[j].0` at time `calls[j].1`,
/// gives `results[j]` and leaves `states[j + 1]`.
pub open spec fn is_run(
    states: Seq<StateMap>,
    calls: Seq<(Seq<RateLimitCheck>, u128)>,
    results: Seq<RateLimitResult>,
) -> bool {
    &&& states.len() == calls.len() + 1
    &&& results.len() == calls.len()
    &&& forall|j: int|
        0 <= j < calls.len() ==> check_outcome(
            states[j],
            (#[trigger] calls[j]).0,
            calls[j].1,
            results[j],
            states[j + 1],
        )
}

/// The times of the checks of a run never go back.
pub open spec fn times_never_go_back(calls: Seq<(Seq<RateLimitCheck>, u128)>) -> bool {
    forall|i: int, j: int|
        0 <= i <= j < calls.len() ==> (#[trigger] calls[i]).1 <= (#[trigger] calls[j]).1
}

/// Among the checks `from..to` of a run, the number that passed, named
/// `key`, and were made in the window from `start` of length `window`.
pub open spec fn passes_in_window(
    calls: Seq<(Seq<RateLimitCheck>, u128)>,
    results: Seq<RateLimitResult>,
    key: Seq<char>,
    start: u128,
    window: u128,
    from: int,
    to: int,
) -> nat
    decreases to - from,
{
    if to <= from {
        0
    } else {
        passes_in_window(calls, results, key, start, window, from, to - 1) + (if results[to - 1] is Ok
            && names_key(calls[to - 1].0, key) && start <= calls[to - 1].1 && calls[to - 1].1
            < start + window {
            1nat
        } else {
            0nat
        })
    }
}

proof fn lemma_empty_window_has_no_passes(
    calls: Seq<(Seq<RateLimitCheck>, u128)>,
    results: Seq<RateLimitResult>,
    key: Seq<char>,
    start: u128,
    from: int,
    to: int,
)
    ensures
        passes_in_window(calls, results, key, start, 0, from, to) == 0,
    decreases to - from,
{
    if to > from {
        lemma_empty_window_has_no_passes(calls, results, key, start, from, to - 1);
    }
}

/// The conditions of `law_at_most_limit_passes_per_window`.
pub open spec fn window_run(
    states: Seq<StateMap>,
    calls: Seq<(Seq<RateLimitCheck>, u128)>,
    results: Seq<RateLimitResult>,
    key: Seq<char>,
    limit: usize,
    window: u128,
    first: int,
) -> bool {
    &&& is_run(states, calls, results)
    &&& limit >= 1
    &&& forall|j: int|
        0 <= j < calls.len() ==> key_checked_with((#[trigger] calls[j]).0, key, limit, window)
            && key_at_most_once(calls[j].0, key)
    &&& times_never_go_back(calls)
    &&& 0 <= first < calls.len()
    &&& results[first] is Ok
    &&& names_key(calls[first].0, key)
    &&& !(states[first].contains_key(key) && elapsed(
        calls[first].1,
        states[first][key].window_started_at,
    ) < window)
}

proof fn lemma_window_run(
    states: Seq<StateMap>,
    calls: Seq<(Seq<RateLimitCheck>, u128)>,
    results: Seq<RateLimitResult>,
    key: Seq<char>,
    limit: usize,
    window: u128,
    first: int,
    to: int,
)
    requires
        window_run(states, calls, results, key, limit, window, first),
        window > 0,
        first < to <= calls.len(),
    ensures
        passes_in_window(calls, results, key, calls[first].1, window, first, to) <= limit,
        (forall|i: int| first <= i < to ==> (#[trigger] calls[i]).1 < calls[first].1 + window) ==> {
            &&& states[to].contains_key(key)
            &&& states[to][key].window_started_at == calls[first].1
            &&& states[to][key].count == passes_in_window(
                calls,
                results,
                key,
                calls[first].1,
                window,
                first,
                to,
            )
        },
    decreases to - first,
{
    let start = calls[first].1;
    if to == first + 1 {
        let checks = calls[first].0;
        let i = choose|i: int| 0 <= i < checks.len() && (#[trigger] checks[i]).key@ == key;
        assert(check_outcome(states[first], calls[first].0, calls[first].1, results[first], states[first + 1]));
        lemma_key_counted_once(states[first], checks, start, key, i);
        assert(key_checked_with(calls[first].0, key, limit, window));
        assert(checks[i].window == window);
        assert(!window_open(states[first], checks[i], start));
        assert(passes_in_window(calls, results, key, start, window, first, first) == 0);
    } else {
        let j = to - 1;
        lemma_window_run(states, calls, results, key, limit, window, first, j);
        let checks = calls[j].0;
        let t = calls[j].1;
        assert(calls[first].1 <= calls[j].1);
        assert(check_outcome(states[j], calls[j].0, calls[j].1, results[j], states[j + 1]));
        if forall|i: int| first <= i < to ==> (#[trigger] calls[i]).1 < start + window {
            assert(forall|i: int| first <= i < j ==> (#[trigger] calls[i]).1 < start + window);
            assert(calls[j].1 < start + window);
            if results[j] is Ok {
                if names_key(checks, key) {
                    let i = choose|i: int| 0 <= i < checks.len() && (#[trigger] checks[i]).key@ == key;
                    lemma_key_counted_once(states[j], checks, t, key, i);
                    assert(key_checked_with(calls[j].0, key, limit, window));
                    assert(window_open(states[j], checks[i], t));
                    if is_exceeded(states[j], checks[i], t) {
                        lemma_exceeded_reported(states[j], checks, t, i);
                    }
                } else {
                    law_other_keys_untouched(states[j], checks, t, key);
                }
            }
        } else {
            let i = choose|i: int| first <= i < to && !((#[trigger] calls[i]).1 < start + window);
            assert(calls[i].1 <= calls[j].1);
        }
    }
}

/// At most `limit` requests that check a key pass in one window of that
/// key: in a run whose times never go back, where every check of the key
/// has the same limit (at least one) and window and no request checks the
/// key twice, once a request that checks the key passes while the key has
/// no open window (starting a window at its time), at most `limit` of the
/// requests from then on that check the key pass within that window.
pub proof fn law_at_most_limit_passes_per_window(
    states: Seq<StateMap>,
    calls: Seq<(Seq<RateLimitCheck>, u128)>,
    results: Seq<RateLimitResult>,
    key: Seq<char>,
    limit: usize,
    window: u128,
    first: int,
)
    requires
        window_run(states, calls, results, key, limit, window, first),
    ensures
        passes_in_window(
            calls,
            results,
            key,
            calls[first].1,
            window,
            first,
            calls.len() as int,
        ) <= limit,
{
    if window == 0 {
        lemma_empty_window_has_no_passes(calls, results, key, calls[first].1, first, calls.len() as int);
    } else {
        lemma_window_run(states, calls, results, key, limit, window, first, calls.len() as int);
    }
}

/// The Retry-After value is the wait in whole seconds, rounded down, and
/// one for a wait under a second, whatever the length of the wait; so a
/// longer wait never gives a smaller value.
pub proof fn law_retry_after_header_is_whole_seconds(retry_after: u128, longer: u128)
    requires
        retry_after <= longer,
    ensures
        retry_after >= 1_000_000_000 ==> retry_after_header_value(retry_after) * 1_000_000_000
            <= retry_after < retry_after_header_value(retry_after) * 1_000_000_000 + 1_000_000_000,
        retry_after < 1_000_000_000 ==> retry_after_header_value(retry_after) == 1,
        retry_after_header_value(retry_after) <= retry_after_header_value(longer),
{
    let q = retry_after / 1_000_000_000;
    assert(q * 1_000_000_000 <= retry_after < q * 1_000_000_000 + 1_000_000_000) by (nonlinear_arith)
        requires
            q == retry_after / 1_000_000_000,
    ;
    assert(retry_after / 1_000_000_000 <= longer / 1_000_000_000) by (nonlinear_arith)
        requires
            retry_after <= longer,
    ;
}

} // verus!
