//! The aggregate statistics stores: keystroke counts, click counts, the
//! bounded trail of mouse positions, and the timestamps beside them.

use crate::Position;
use crate::edge::{newly_pressed, rising_edges};
use crate::freq::{
    FreqTable, apply_bumps, bump, lemma_apply_bumps_push, lemma_total_bump, lemma_wf_bump,
    table_total, table_wf,
};
use vstd::prelude::*;

verus! {

/// The most recent mouse positions kept; beyond this the oldest is dropped.
pub const MAX_POSITIONS: usize = 1000;

/// Aggregated keyboard statistics for one tracking session.
pub struct KeyStats {
    pub total_keystrokes: u64,
    pub key_frequencies: FreqTable,
    pub start_time: u64,
    pub last_keystroke_time: u64,
}

/// Aggregated mouse statistics for one tracking session.
pub struct MouseStats {
    pub total_clicks: u64,
    pub mouse_positions: Vec<Position>,
    pub click_positions: Vec<Position>,
    pub button_frequencies: FreqTable,
    pub last_click_time: u64,
    pub last_move_time: u64,
}

/// One keyboard aggregate paired with one mouse aggregate.
pub struct CombinedStats {
    pub key_stats: KeyStats,
    pub mouse_stats: MouseStats,
}

impl KeyStats {
    /// The store's invariant: the frequency table is well formed and its
    /// counts sum to the total keystroke count.
    pub open spec fn wf(&self) -> bool {
        &&& table_wf(self.key_frequencies@)
        &&& table_total(self.key_frequencies@) == self.total_keystrokes
    }

    /// A store as freshly constructed at time `now`: nothing counted, both
    /// timestamps stamped `now`.
    pub open spec fn is_fresh(&self, now: u64) -> bool {
        &&& self.total_keystrokes == 0
        &&& self.key_frequencies@ == Seq::<(Seq<char>, u64)>::empty()
        &&& self.start_time == now
        &&& self.last_keystroke_time == now
    }

    /// An empty store stamped with `now`.
    pub fn new(now: u64) -> (r: KeyStats)
        ensures
            r.wf(),
            r.is_fresh(now),
    {
        KeyStats {
            total_keystrokes: 0,
            key_frequencies: FreqTable::new(),
            start_time: now,
            last_keystroke_time: now,
        }
    }

    /// Record one detected key press of `label` at time `now`.
    pub fn record_key_press(&mut self, label: &String, now: u64)
        requires
            old(self).wf(),
            old(self).total_keystrokes < u64::MAX,
        ensures
            final(self).wf(),
            final(self).key_frequencies@ == bump(old(self).key_frequencies@, label@),
            final(self).total_keystrokes == old(self).total_keystrokes + 1,
            final(self).last_keystroke_time == now,
            final(self).start_time == old(self).start_time,
    {
        proof {
            lemma_total_bump(self.key_frequencies@, label@);
            lemma_wf_bump(self.key_frequencies@, label@);
        }
        self.key_frequencies.increment(label);
        self.total_keystrokes = self.total_keystrokes + 1;
        self.last_keystroke_time = now;
    }

    /// Apply one keyboard sample: record a press for every label of `curr`
    /// that `prev` did not hold, in `curr`'s order, stamping `now`.
    pub fn apply_key_sample(&mut self, prev: &Vec<String>, curr: &Vec<String>, now: u64)
        requires
            old(self).wf(),
            old(self).total_keystrokes + curr@.len() <= u64::MAX,
        ensures
            final(self).wf(),
            final(self).key_frequencies@ == apply_bumps(
                old(self).key_frequencies@,
                rising_edges(prev.deep_view(), curr.deep_view()),
            ),
            final(self).total_keystrokes == old(self).total_keystrokes + rising_edges(
                prev.deep_view(),
                curr.deep_view(),
            ).len(),
            final(self).last_keystroke_time == (if rising_edges(
                prev.deep_view(),
                curr.deep_view(),
            ).len() == 0 {
                old(self).last_keystroke_time
            } else {
                now
            }),
            final(self).start_time == old(self).start_time,
    {
        proof {
            crate::edge::lemma_rising_len(prev.deep_view(), curr.deep_view());
        }
        let ghost edges = rising_edges(prev.deep_view(), curr.deep_view());
        let news = newly_pressed(prev, curr);
        let n = news.len();
        let mut i: usize = 0;
        while i < n
            invariant
                n == news@.len(),
                news.deep_view() == edges,
                edges.len() <= curr@.len(),
                0 <= i <= n,
                old(self).wf(),
                old(self).total_keystrokes + curr@.len() <= u64::MAX,
                self.wf(),
                self.key_frequencies@ == apply_bumps(
                    old(self).key_frequencies@,
                    edges.take(i as int),
                ),
                self.total_keystrokes == old(self).total_keystrokes + i,
                self.last_keystroke_time == (if i == 0 {
                    old(self).last_keystroke_time
                } else {
                    now
                }),
                self.start_time == old(self).start_time,
            decreases n - i,
        {
            proof {
                assert(news.deep_view()[i as int] == news@[i as int]@);
            }
            self.record_key_press(&news[i], now);
            proof {
                lemma_apply_bumps_push(
                    old(self).key_frequencies@,
                    edges.take(i as int),
                    edges[i as int],
                );
                assert(edges.take(i + 1) =~= edges.take(i as int).push(edges[i as int]));
            }
            i = i + 1;
        }
        proof {
            assert(edges.take(n as int) =~= edges);
        }
    }

    /// A deep, independently owned copy of the store.
    pub fn snapshot(&self) -> (r: KeyStats)
        ensures
            r.total_keystrokes == self.total_keystrokes,
            r.key_frequencies@ == self.key_frequencies@,
            r.start_time == self.start_time,
            r.last_keystroke_time == self.last_keystroke_time,
    {
        KeyStats {
            total_keystrokes: self.total_keystrokes,
            key_frequencies: self.key_frequencies.duplicate(),
            start_time: self.start_time,
            last_keystroke_time: self.last_keystroke_time,
        }
    }

    /// Replace the whole store with a fresh one stamped `now`.
    pub fn reset(&mut self, now: u64)
        ensures
            final(self).wf(),
            final(self).is_fresh(now),
    {
        *self = KeyStats::new(now);
    }
}


/// The mouse trail after recording position `p`: appended, with the oldest
/// entry dropped once the trail is at capacity.
pub open spec fn pushed_trail(tr: Seq<Position>, p: Position) -> Seq<Position> {
    if tr.len() < MAX_POSITIONS {
        tr.push(p)
    } else {
        tr.drop_first().push(p)
    }
}

/// An equal, independently owned copy of a run of positions.
fn copy_positions(v: &Vec<Position>) -> (r: Vec<Position>)
    ensures
        r@ == v@,
{
    let n = v.len();
    let mut out: Vec<Position> = Vec::new();
    let mut i: usize = 0;
    while i < n
        invariant
            n == v@.len(),
            0 <= i <= n,
            out@ =~= v@.take(i as int),
        decreases n - i,
    {
        out.push(v[i]);
        proof {
            assert(out@ =~= v@.take(i + 1));
        }
        i = i + 1;
    }
    proof {
        assert(v@.take(n as int) =~= v@);
    }
    out
}

impl MouseStats {
    /// The store's invariant: the button table is well formed, its counts
    /// sum to the click total, the trail respects its capacity, and the
    /// click positions hold one entry per counted click.
    pub open spec fn wf(&self) -> bool {
        &&& table_wf(self.button_frequencies@)
        &&& table_total(self.button_frequencies@) == self.total_clicks
        &&& self.mouse_positions@.len() <= MAX_POSITIONS
        &&& self.click_positions@.len() == self.total_clicks
    }

    /// A store as freshly constructed at time `now`.
    pub open spec fn is_fresh(&self, now: u64) -> bool {
        &&& self.total_clicks == 0
        &&& self.mouse_positions@ == Seq::<Position>::empty()
        &&& self.click_positions@ == Seq::<Position>::empty()
        &&& self.button_frequencies@ == Seq::<(Seq<char>, u64)>::empty()
        &&& self.last_click_time == now
        &&& self.last_move_time == now
    }

    /// An empty store stamped with `now`.
    pub fn new(now: u64) -> (r: MouseStats)
        ensures
            r.wf(),
            r.is_fresh(now),
    {
        MouseStats {
            total_clicks: 0,
            mouse_positions: Vec::new(),
            click_positions: Vec::new(),
            button_frequencies: FreqTable::new(),
            last_click_time: now,
            last_move_time: now,
        }
    }

    /// Record one detected cursor movement to `pos` at time `now`.
    pub fn record_mouse_move(&mut self, pos: Position, now: u64)
        requires
            old(self).wf(),
        ensures
            final(self).wf(),
            final(self).mouse_positions@ == pushed_trail(old(self).mouse_positions@, pos),
            final(self).last_move_time == now,
            final(self).total_clicks == old(self).total_clicks,
            final(self).click_positions@ == old(self).click_positions@,
            final(self).button_frequencies@ == old(self).button_frequencies@,
            final(self).last_click_time == old(self).last_click_time,
    {
        if self.mouse_positions.len() >= MAX_POSITIONS {
            self.mouse_positions.remove(0);
        }
        self.mouse_positions.push(pos);
        self.last_move_time = now;
    }

    /// Record one detected press of `button` with the cursor at `pos`, at
    /// time `now`.
    pub fn record_click(&mut self, button: &String, pos: Position, now: u64)
        requires
            old(self).wf(),
            old(self).total_clicks < u64::MAX,
        ensures
            final(self).wf(),
            final(self).button_frequencies@ == bump(old(self).button_frequencies@, button@),
            final(self).total_clicks == old(self).total_clicks + 1,
            final(self).click_positions@ == old(self).click_positions@.push(pos),
            final(self).mouse_positions@ == old(self).mouse_positions@,
            final(self).last_click_time == now,
            final(self).last_move_time == old(self).last_move_time,
    {
        proof {
            lemma_total_bump(self.button_frequencies@, button@);
            lemma_wf_bump(self.button_frequencies@, button@);
        }
        self.button_frequencies.increment(button);
        self.total_clicks = self.total_clicks + 1;
        self.click_positions.push(pos);
        self.last_click_time = now;
    }

    /// Apply one mouse sample: a movement event when the coordinates
    /// changed, then a click for every button of `curr_buttons` that
    /// `prev_buttons` did not hold, each at the current coordinates.
    pub fn apply_mouse_sample(
        &mut self,
        prev_pos: Position,
        curr_pos: Position,
        prev_buttons: &Vec<String>,
        curr_buttons: &Vec<String>,
        now: u64,
    )
        requires
            old(self).wf(),
            old(self).total_clicks + curr_buttons@.len() <= u64::MAX,
        ensures
            final(self).wf(),
            final(self).mouse_positions@ == (if curr_pos == prev_pos {
                old(self).mouse_positions@
            } else {
                pushed_trail(old(self).mouse_positions@, curr_pos)
            }),
            final(self).last_move_time == (if curr_pos == prev_pos {
                old(self).last_move_time
            } else {
                now
            }),
            final(self).button_frequencies@ == apply_bumps(
                old(self).button_frequencies@,
                rising_edges(prev_buttons.deep_view(), curr_buttons.deep_view()),
            ),
            final(self).total_clicks == old(self).total_clicks + rising_edges(
                prev_buttons.deep_view(),
                curr_buttons.deep_view(),
            ).len(),
            final(self).click_positions@ == old(self).click_positions@ + Seq::new(
                rising_edges(prev_buttons.deep_view(), curr_buttons.deep_view()).len(),
                |j: int| curr_pos,
            ),
            final(self).last_click_time == (if rising_edges(
                prev_buttons.deep_view(),
                curr_buttons.deep_view(),
            ).len() == 0 {
                old(self).last_click_time
            } else {
                now
            }),
    {
        proof {
            crate::edge::lemma_rising_len(prev_buttons.deep_view(), curr_buttons.deep_view());
        }
        let ghost edges = rising_edges(prev_buttons.deep_view(), curr_buttons.deep_view());
        if !(curr_pos == prev_pos) {
            self.record_mouse_move(curr_pos, now);
        }
        let news = newly_pressed(prev_buttons, curr_buttons);
        let n = news.len();
        let ghost mid = *self;
        let mut i: usize = 0;
        while i < n
            invariant
                n == news@.len(),
                news.deep_view() == edges,
                edges.len() <= curr_buttons@.len(),
                0 <= i <= n,
                mid.wf(),
                mid.total_clicks + curr_buttons@.len() <= u64::MAX,
                self.wf(),
                self.button_frequencies@ == apply_bumps(mid.button_frequencies@, edges.take(i as int)),
                self.total_clicks == mid.total_clicks + i,
                self.click_positions@ == mid.click_positions@ + Seq::new(i as nat, |j: int| curr_pos),
                self.mouse_positions@ == mid.mouse_positions@,
                self.last_move_time == mid.last_move_time,
                self.last_click_time == (if i == 0 {
                    mid.last_click_time
                } else {
                    now
                }),
            decreases n - i,
        {
            proof {
                assert(news.deep_view()[i as int] == news@[i as int]@);
            }
            self.record_click(&news[i], curr_pos, now);
            proof {
                lemma_apply_bumps_push(mid.button_frequencies@, edges.take(i as int), edges[i as int]);
                assert(edges.take(i + 1) =~= edges.take(i as int).push(edges[i as int]));
                assert(mid.click_positions@ + Seq::new((i + 1) as nat, |j: int| curr_pos)
                    =~= (mid.click_positions@ + Seq::new(i as nat, |j: int| curr_pos)).push(curr_pos));
            }
            i = i + 1;
        }
        proof {
            assert(edges.take(n as int) =~= edges);
            assert(Seq::new(0, |j: int| curr_pos) =~= Seq::<Position>::empty());
            assert(mid.click_positions@ + Seq::new(0, |j: int| curr_pos) =~= mid.click_positions@);
        }
    }

    /// A deep, independently owned copy of the store.
    pub fn snapshot(&self) -> (r: MouseStats)
        ensures
            r.total_clicks == self.total_clicks,
            r.mouse_positions@ == self.mouse_positions@,
            r.click_positions@ == self.click_positions@,
            r.button_frequencies@ == self.button_frequencies@,
            r.last_click_time == self.last_click_time,
            r.last_move_time == self.last_move_time,
    {
        MouseStats {
            total_clicks: self.total_clicks,
            mouse_positions: copy_positions(&self.mouse_positions),
            click_positions: copy_positions(&self.click_positions),
            button_frequencies: self.button_frequencies.duplicate(),
            last_click_time: self.last_click_time,
            last_move_time: self.last_move_time,
        }
    }

    /// Replace the whole store with a fresh one stamped `now`.
    pub fn reset(&mut self, now: u64)
        ensures
            final(self).wf(),
            final(self).is_fresh(now),
    {
        *self = MouseStats::new(now);
    }
}

} // verus!

