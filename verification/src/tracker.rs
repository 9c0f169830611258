//! Session controllers: the tracking flag, the per-sample decision applied
//! to the stores, and the query and reset operations.

use crate::Position;
use crate::stats::{CombinedStats, KeyStats, MouseStats};
use vstd::prelude::*;

verus! {

/// One sampled device state: the pressed keys, the cursor, and the pressed
/// mouse buttons, each key or button as a stable label.
pub struct Snapshot {
    pub keys: Vec<String>,
    pub cursor: Position,
    pub buttons: Vec<String>,
}

/// What a start request does to the tracking flag: the flag is set either
/// way, and a sampling loop is to be spawned only when it was clear.
pub open spec fn start_step(was_tracking: bool) -> (bool, bool) {
    (true, !was_tracking)
}

/// Relies on std::time::SystemTime::now for the wall clock, read as whole
/// seconds since the Unix epoch (zero if the clock reads before the epoch).
#[verifier::external_body]
fn now_seconds() -> (t: u64) {
    match std::time::SystemTime::now().duration_since(std::time::UNIX_EPOCH) {
        Ok(d) => d.as_secs(),
        Err(_) => 0,
    }
}

/// A keys-only tracking session: its statistics store and its flag.
pub struct KeystrokeCounter {
    pub stats: KeyStats,
    pub is_tracking: bool,
}

impl KeystrokeCounter {
    /// A stopped session with an empty store stamped with the given time.
    pub fn new_at(now: u64) -> (r: KeystrokeCounter)
        ensures
            r.stats.wf(),
            r.stats.is_fresh(now),
            !r.is_tracking,
    {
        KeystrokeCounter { stats: KeyStats::new(now), is_tracking: false }
    }

    /// A stopped session with an empty store stamped with the current time.
    pub fn new() -> (r: KeystrokeCounter)
        ensures
            r.stats.wf(),
            r.stats.is_fresh(r.stats.start_time),
            !r.is_tracking,
    {
        let now = now_seconds();
        KeystrokeCounter::new_at(now)
    }

    /// Request tracking: the flag is set, the store is untouched, and the
    /// result says whether a sampling loop must be spawned — true exactly
    /// when the session was stopped, so a second request spawns nothing.
    pub fn start_tracking(&mut self) -> (spawn: bool)
        ensures
            (final(self).is_tracking, spawn) == start_step(old(self).is_tracking),
            final(self).stats == old(self).stats,
    {
        let was = self.is_tracking;
        self.is_tracking = true;
        !was
    }

    /// Stop tracking: the flag is cleared and the store is untouched.
    pub fn stop_tracking(&mut self)
        ensures
            !final(self).is_tracking,
            final(self).stats == old(self).stats,
    {
        self.is_tracking = false;
    }

    /// The total number of keystrokes counted so far.
    pub fn get_total_keystrokes(&self) -> (n: u64)
        ensures
            n == self.stats.total_keystrokes,
    {
        self.stats.total_keystrokes
    }

    /// A deep, independently owned copy of the current aggregate.
    pub fn get_stats(&self) -> (r: KeyStats)
        ensures
            r.total_keystrokes == self.stats.total_keystrokes,
            r.key_frequencies@ == self.stats.key_frequencies@,
            r.start_time == self.stats.start_time,
            r.last_keystroke_time == self.stats.last_keystroke_time,
            self.stats.wf() ==> r.wf(),
    {
        self.stats.snapshot()
    }

    /// Replace the aggregate with a fresh one stamped with the given time;
    /// the flag is untouched.
    pub fn reset_stats_at(&mut self, now: u64)
        ensures
            final(self).stats.wf(),
            final(self).stats.is_fresh(now),
            final(self).is_tracking == old(self).is_tracking,
    {
        self.stats.reset(now);
    }

    /// Replace the aggregate with a fresh one stamped with the current
    /// time; the flag is untouched.
    pub fn reset_stats(&mut self)
        ensures
            final(self).stats.wf(),
            final(self).stats.is_fresh(final(self).stats.start_time),
            final(self).is_tracking == old(self).is_tracking,
    {
        let now = now_seconds();
        self.reset_stats_at(now);
    }

    /// One iteration of the sampling loop's work: apply the rising edges
    /// between the previous and the current snapshot to the store.
    pub fn sample(&mut self, prev: &Vec<String>, curr: &Vec<String>, now: u64)
        requires
            old(self).stats.wf(),
            old(self).stats.total_keystrokes + curr@.len() <= u64::MAX,
        ensures
            final(self).stats.wf(),
            final(self).stats.key_frequencies@ == crate::freq::apply_bumps(
                old(self).stats.key_frequencies@,
                crate::edge::rising_edges(prev.deep_view(), curr.deep_view()),
            ),
            final(self).stats.total_keystrokes == old(self).stats.total_keystrokes
                + crate::edge::rising_edges(prev.deep_view(), curr.deep_view()).len(),
            final(self).stats.last_keystroke_time == (if crate::edge::rising_edges(
                prev.deep_view(),
                curr.deep_view(),
            ).len() == 0 {
                old(self).stats.last_keystroke_time
            } else {
                now
            }),
            final(self).stats.start_time == old(self).stats.start_time,
            final(self).is_tracking == old(self).is_tracking,
    {
        self.stats.apply_key_sample(prev, curr, now);
    }
}

/// A combined keyboard-and-mouse tracking session.
pub struct InputTracker {
    pub key_stats: KeyStats,
    pub mouse_stats: MouseStats,
    pub is_tracking: bool,
}

impl InputTracker {
    /// A stopped session with empty stores stamped with the given time.
    pub fn new_at(now: u64) -> (r: InputTracker)
        ensures
            r.key_stats.wf(),
            r.key_stats.is_fresh(now),
            r.mouse_stats.wf(),
            r.mouse_stats.is_fresh(now),
            !r.is_tracking,
    {
        InputTracker {
            key_stats: KeyStats::new(now),
            mouse_stats: MouseStats::new(now),
            is_tracking: false,
        }
    }

    /// A stopped session with empty stores stamped with the current time.
    pub fn new() -> (r: InputTracker)
        ensures
            r.key_stats.wf(),
            r.key_stats.is_fresh(r.key_stats.start_time),
            r.mouse_stats.wf(),
            r.mouse_stats.is_fresh(r.key_stats.start_time),
            !r.is_tracking,
    {
        let now = now_seconds();
        InputTracker::new_at(now)
    }

    /// Request tracking, as for the keys-only session: the result says
    /// whether a sampling loop must be spawned.
    pub fn start_tracking(&mut self) -> (spawn: bool)
        ensures
            (final(self).is_tracking, spawn) == start_step(old(self).is_tracking),
            final(self).key_stats == old(self).key_stats,
            final(self).mouse_stats == old(self).mouse_stats,
    {
        let was = self.is_tracking;
        self.is_tracking = true;
        !was
    }

    /// Stop tracking: the flag is cleared and the stores are untouched.
    pub fn stop_tracking(&mut self)
        ensures
            !final(self).is_tracking,
            final(self).key_stats == old(self).key_stats,
            final(self).mouse_stats == old(self).mouse_stats,
    {
        self.is_tracking = false;
    }

    /// A deep, independently owned copy of both current aggregates.
    pub fn get_stats(&self) -> (r: CombinedStats)
        ensures
            r.key_stats.total_keystrokes == self.key_stats.total_keystrokes,
            r.key_stats.key_frequencies@ == self.key_stats.key_frequencies@,
            r.key_stats.start_time == self.key_stats.start_time,
            r.key_stats.last_keystroke_time == self.key_stats.last_keystroke_time,
            r.mouse_stats.total_clicks == self.mouse_stats.total_clicks,
            r.mouse_stats.mouse_positions@ == self.mouse_stats.mouse_positions@,
            r.mouse_stats.click_positions@ == self.mouse_stats.click_positions@,
            r.mouse_stats.button_frequencies@ == self.mouse_stats.button_frequencies@,
            r.mouse_stats.last_click_time == self.mouse_stats.last_click_time,
            r.mouse_stats.last_move_time == self.mouse_stats.last_move_time,
            self.key_stats.wf() ==> r.key_stats.wf(),
            self.mouse_stats.wf() ==> r.mouse_stats.wf(),
    {
        CombinedStats { key_stats: self.key_stats.snapshot(), mouse_stats: self.mouse_stats.snapshot() }
    }

    /// Replace both aggregates with fresh ones stamped with the given time;
    /// the flag is untouched.
    pub fn reset_stats_at(&mut self, now: u64)
        ensures
            final(self).key_stats.wf(),
            final(self).key_stats.is_fresh(now),
            final(self).mouse_stats.wf(),
            final(self).mouse_stats.is_fresh(now),
            final(self).is_tracking == old(self).is_tracking,
    {
        self.key_stats.reset(now);
        self.mouse_stats.reset(now);
    }

    /// Replace both aggregates with fresh ones stamped with the current
    /// time; the flag is untouched.
    pub fn reset_stats(&mut self)
        ensures
            final(self).key_stats.wf(),
            final(self).key_stats.is_fresh(final(self).key_stats.start_time),
            final(self).mouse_stats.wf(),
            final(self).mouse_stats.is_fresh(final(self).key_stats.start_time),
            final(self).is_tracking == old(self).is_tracking,
    {
        let now = now_seconds();
        self.reset_stats_at(now);
    }

    /// One iteration of the sampling loop's work: key edges into the key
    /// store, then the movement event and the button edges into the mouse
    /// store, all from the same pair of snapshots.
    pub fn sample(&mut self, prev: &Snapshot, curr: &Snapshot, now: u64)
        requires
            old(self).key_stats.wf(),
            old(self).mouse_stats.wf(),
            old(self).key_stats.total_keystrokes + curr.keys@.len() <= u64::MAX,
            old(self).mouse_stats.total_clicks + curr.buttons@.len() <= u64::MAX,
        ensures
            final(self).key_stats.wf(),
            final(self).mouse_stats.wf(),
            final(self).key_stats.key_frequencies@ == crate::freq::apply_bumps(
                old(self).key_stats.key_frequencies@,
                crate::edge::rising_edges(prev.keys.deep_view(), curr.keys.deep_view()),
            ),
            final(self).key_stats.total_keystrokes == old(self).key_stats.total_keystrokes
                + crate::edge::rising_edges(prev.keys.deep_view(), curr.keys.deep_view()).len(),
            final(self).key_stats.start_time == old(self).key_stats.start_time,
            final(self).mouse_stats.mouse_positions@ == (if curr.cursor == prev.cursor {
                old(self).mouse_stats.mouse_positions@
            } else {
                crate::stats::pushed_trail(old(self).mouse_stats.mouse_positions@, curr.cursor)
            }),
            final(self).mouse_stats.button_frequencies@ == crate::freq::apply_bumps(
                old(self).mouse_stats.button_frequencies@,
                crate::edge::rising_edges(prev.buttons.deep_view(), curr.buttons.deep_view()),
            ),
            final(self).mouse_stats.total_clicks == old(self).mouse_stats.total_clicks
                + crate::edge::rising_edges(
                prev.buttons.deep_view(),
                curr.buttons.deep_view(),
            ).len(),
            final(self).mouse_stats.click_positions@ == old(self).mouse_stats.click_positions@
                + Seq::new(
                crate::edge::rising_edges(prev.buttons.deep_view(), curr.buttons.deep_view()).len(),
                |j: int| curr.cursor,
            ),
            final(self).key_stats.last_keystroke_time == (if crate::edge::rising_edges(
                prev.keys.deep_view(),
                curr.keys.deep_view(),
            ).len() == 0 {
                old(self).key_stats.last_keystroke_time
            } else {
                now
            }),
            final(self).mouse_stats.last_move_time == (if curr.cursor == prev.cursor {
                old(self).mouse_stats.last_move_time
            } else {
                now
            }),
            final(self).mouse_stats.last_click_time == (if crate::edge::rising_edges(
                prev.buttons.deep_view(),
                curr.buttons.deep_view(),
            ).len() == 0 {
                old(self).mouse_stats.last_click_time
            } else {
                now
            }),
            final(self).is_tracking == old(self).is_tracking,
    {
        self.key_stats.apply_key_sample(&prev.keys, &curr.keys, now);
        self.mouse_stats.apply_mouse_sample(
            prev.cursor,
            curr.cursor,
            &prev.buttons,
            &curr.buttons,
            now,
        );
    }
}

/// The effect of one sample on any single label's count: nothing when the
/// previous snapshot already held the label, else exactly its occurrences in
/// the current snapshot — so a held key adds nothing and a newly pressed key
/// adds one, and the table's total grows by exactly the number of edges.
pub proof fn lemma_sample_effect_on_counts(
    prev: Seq<Seq<char>>,
    curr: Seq<Seq<char>>,
    t: Seq<(Seq<char>, u64)>,
    k: Seq<char>,
)
    requires
        crate::freq::table_total(t) + curr.len() <= u64::MAX,
    ensures
        crate::freq::count_of(
            crate::freq::apply_bumps(t, crate::edge::rising_edges(prev, curr)),
            k,
        ) == crate::freq::count_of(t, k) + (if prev.contains(k) {
            0int
        } else {
            crate::freq::occurrences(curr, k)
        }),
        crate::freq::table_total(crate::freq::apply_bumps(t, crate::edge::rising_edges(prev, curr)))
            == crate::freq::table_total(t) + crate::edge::rising_edges(prev, curr).len(),
{
    crate::edge::lemma_rising_len(prev, curr);
    crate::edge::lemma_rising_count(prev, curr, k);
    crate::freq::lemma_apply_bumps_props(t, crate::edge::rising_edges(prev, curr), k);
}

/// Two start requests in a row set the flag once and spawn at most one
/// sampling loop: whatever the starting state, after the first request the
/// flag is set, so the second request never asks for a spawn.
pub proof fn lemma_double_start_single_spawn(was_tracking: bool)
    ensures
        ({
            let (flag1, spawn1) = start_step(was_tracking);
            let (flag2, spawn2) = start_step(flag1);
            flag2 && !spawn2 && spawn1 == !was_tracking
        }),
{
}

/// A reset store is indistinguishable from a freshly constructed one: any
/// two stores fresh at the same time agree on every field.
pub proof fn lemma_fresh_key_stats_unique(a: KeyStats, b: KeyStats, t: u64)
    requires
        a.is_fresh(t),
        b.is_fresh(t),
    ensures
        a.total_keystrokes == b.total_keystrokes,
        a.key_frequencies@ == b.key_frequencies@,
        a.start_time == b.start_time,
        a.last_keystroke_time == b.last_keystroke_time,
{
}

/// As above for the mouse store: a reset yields exactly the fields of a
/// fresh construction at the reset time.
pub proof fn lemma_fresh_mouse_stats_unique(a: MouseStats, b: MouseStats, t: u64)
    requires
        a.is_fresh(t),
        b.is_fresh(t),
    ensures
        a.total_clicks == b.total_clicks,
        a.mouse_positions@ == b.mouse_positions@,
        a.click_positions@ == b.click_positions@,
        a.button_frequencies@ == b.button_frequencies@,
        a.last_click_time == b.last_click_time,
        a.last_move_time == b.last_move_time,
{
}

/// In a well-formed key store the per-key counts always sum to the total:
/// every constructor establishes `wf` and every operation preserves it, so
/// this holds after any run of samples.
pub proof fn lemma_key_counts_sum_to_total(s: KeyStats)
    requires
        s.wf(),
    ensures
        crate::freq::table_total(s.key_frequencies@) == s.total_keystrokes,
{
}

/// As above for the mouse store: the per-button counts sum to the click
/// total, and the click positions hold exactly one entry per click.
pub proof fn lemma_click_counts_sum_to_total(s: MouseStats)
    requires
        s.wf(),
    ensures
        crate::freq::table_total(s.button_frequencies@) == s.total_clicks,
        s.click_positions@.len() == s.total_clicks,
{
}

} // verus!
