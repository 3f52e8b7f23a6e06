//! Key-state timeline: which columns are held at any moment of a replay.
use vstd::prelude::*;
use crate::sorting::{
    SortKey, stable_sort, stable_sorted, keys_sorted, lemma_stable_sorted,
    lemma_stable_sorted_members,
};

verus! {

/// A press or release of one column at a replay time.
#[derive(Debug, Clone)]
pub struct KeyAction {
    pub time: i32,
    pub column: u8,
    pub pressed: bool,
}

/// The set of held columns (bit `c` for column `c`) from `time` on.
#[derive(Debug, Clone)]
pub struct KeyMaskEvent {
    pub time: i32,
    pub mask: u8,
}

impl SortKey for KeyAction {
    open spec fn sort_key(&self) -> int {
        self.time as int
    }

    fn key(&self) -> (k: i128) {
        self.time as i128
    }
}

/// The mask after one action.
pub open spec fn apply_action(mask: u8, a: KeyAction) -> u8 {
    if a.pressed {
        mask | (1u8 << a.column)
    } else {
        mask & !(1u8 << a.column)
    }
}

/// The mask after replaying `s` in order from nothing held.
pub open spec fn mask_after(s: Seq<KeyAction>) -> u8
    decreases s.len(),
{
    if s.len() == 0 {
        0
    } else {
        apply_action(mask_after(s.drop_last()), s.last())
    }
}

/// The entry that stands before every action: nothing held.
pub open spec fn sentinel_event() -> KeyMaskEvent {
    KeyMaskEvent { time: i32::MIN, mask: 0 }
}

/// The timeline of already ordered actions: the sentinel, then the mask after each action.
pub open spec fn timeline_of(sorted: Seq<KeyAction>) -> Seq<KeyMaskEvent>
    decreases sorted.len(),
{
    if sorted.len() == 0 {
        seq![sentinel_event()]
    } else {
        timeline_of(sorted.drop_last()).push(
            KeyMaskEvent { time: sorted.last().time, mask: mask_after(sorted) },
        )
    }
}

/// The timeline built from actions given in any order: they are replayed in stable time order.
pub open spec fn key_mask_timeline(actions: Seq<KeyAction>) -> Seq<KeyMaskEvent> {
    timeline_of(stable_sorted(actions))
}

/// Events ordered by time.
pub open spec fn events_time_sorted(ev: Seq<KeyMaskEvent>) -> bool {
    forall|i: int, j: int| 0 <= i <= j < ev.len() ==> #[trigger] ev[i].time <= #[trigger] ev[j].time
}

/// The mask of the last event (by position) at or before `t`, or nothing held.
pub open spec fn mask_at(t: i32, ev: Seq<KeyMaskEvent>) -> u8
    decreases ev.len(),
{
    if ev.len() == 0 {
        0
    } else if ev.last().time <= t {
        ev.last().mask
    } else {
        mask_at(t, ev.drop_last())
    }
}

/// The actions of `s` at or before `t`, in order.
pub open spec fn actions_up_to(s: Seq<KeyAction>, t: i32) -> Seq<KeyAction>
    decreases s.len(),
{
    if s.len() == 0 {
        seq![]
    } else if s.last().time <= t {
        actions_up_to(s.drop_last(), t).push(s.last())
    } else {
        actions_up_to(s.drop_last(), t)
    }
}

proof fn lemma_timeline_len(sorted: Seq<KeyAction>)
    ensures
        timeline_of(sorted).len() == sorted.len() + 1,
        timeline_of(sorted)[0] == sentinel_event(),
        forall|k: int|
            0 <= k < sorted.len() ==> #[trigger] timeline_of(sorted)[k + 1] == (KeyMaskEvent {
                time: sorted[k].time,
                mask: mask_after(sorted.take(k + 1)),
            }),
    decreases sorted.len(),
{
    if sorted.len() > 0 {
        lemma_timeline_len(sorted.drop_last());
        assert forall|k: int| 0 <= k < sorted.len() implies #[trigger] timeline_of(sorted)[k + 1]
            == (KeyMaskEvent { time: sorted[k].time, mask: mask_after(sorted.take(k + 1)) }) by {
            if k < sorted.len() - 1 {
                assert(sorted.drop_last().take(k + 1) =~= sorted.take(k + 1));
            } else {
                assert(sorted.take(k + 1) =~= sorted);
            }
        }
    }
}

proof fn lemma_timeline_sorted(sorted: Seq<KeyAction>)
    requires
        keys_sorted(sorted),
    ensures
        events_time_sorted(timeline_of(sorted)),
    decreases sorted.len(),
{
    lemma_timeline_len(sorted);
    let ev = timeline_of(sorted);
    assert forall|i: int, j: int| 0 <= i <= j < ev.len() implies #[trigger] ev[i].time
        <= #[trigger] ev[j].time by {
        if i > 0 {
            assert(ev[i] == timeline_of(sorted)[(i - 1) + 1]);
            assert(ev[j] == timeline_of(sorted)[(j - 1) + 1]);
            assert(sorted[i - 1].sort_key() <= sorted[j - 1].sort_key());
        }
    }
}

/// The timeline starts with the nothing-held entry and is ordered by time.
pub proof fn lemma_key_mask_timeline_sorted(actions: Seq<KeyAction>)
    ensures
        events_time_sorted(key_mask_timeline(actions)),
        key_mask_timeline(actions).len() == actions.len() + 1,
        key_mask_timeline(actions)[0] == sentinel_event(),
{
    lemma_stable_sorted(actions);
    lemma_timeline_sorted(stable_sorted(actions));
    lemma_timeline_len(stable_sorted(actions));
}

proof fn lemma_up_to_all(s: Seq<KeyAction>, t: i32)
    requires
        forall|k: int| 0 <= k < s.len() ==> #[trigger] s[k].time <= t,
    ensures
        actions_up_to(s, t) == s,
    decreases s.len(),
{
    if s.len() > 0 {
        lemma_up_to_all(s.drop_last(), t);
        assert(s.drop_last().push(s.last()) =~= s);
    }
}

proof fn lemma_lookup_replays(sorted: Seq<KeyAction>, t: i32)
    requires
        keys_sorted(sorted),
    ensures
        mask_at(t, timeline_of(sorted)) == mask_after(actions_up_to(sorted, t)),
    decreases sorted.len(),
{
    if sorted.len() == 0 {
        assert(timeline_of(sorted).drop_last() =~= Seq::<KeyMaskEvent>::empty());
    } else {
        let ev = timeline_of(sorted);
        assert(ev.last().time == sorted.last().time);
        if sorted.last().time <= t {
            assert forall|k: int| 0 <= k < sorted.len() implies #[trigger] sorted[k].time <= t by {
                assert(sorted[k].sort_key() <= sorted[sorted.len() - 1].sort_key());
            }
            lemma_up_to_all(sorted, t);
        } else {
            assert(ev.drop_last() =~= timeline_of(sorted.drop_last()));
            lemma_lookup_replays(sorted.drop_last(), t);
        }
    }
}

/// Looking up a time in a built timeline gives the mask that replaying, in stable
/// time order, every action at or before that time leaves.
pub proof fn lemma_mask_lookup_replays_actions(actions: Seq<KeyAction>, t: i32)
    ensures
        mask_at(t, key_mask_timeline(actions)) == mask_after(
            actions_up_to(stable_sorted(actions), t),
        ),
{
    lemma_stable_sorted(actions);
    lemma_lookup_replays(stable_sorted(actions), t);
}

/// Before any action nothing is held.
pub proof fn lemma_mask_before_first_action(actions: Seq<KeyAction>, t: i32)
    requires
        forall|k: int| 0 <= k < actions.len() ==> t < #[trigger] actions[k].time,
    ensures
        mask_at(t, key_mask_timeline(actions)) == 0,
{
    lemma_stable_sorted(actions);
    let s = stable_sorted(actions);
    lemma_stable_sorted_members(actions);
    assert forall|k: int| 0 <= k < s.len() implies t < #[trigger] s[k].time by {
        assert(actions.contains(s[k]));
    }
    lemma_none_up_to(s, t);
    lemma_lookup_replays(s, t);
}

proof fn lemma_none_up_to(s: Seq<KeyAction>, t: i32)
    requires
        forall|k: int| 0 <= k < s.len() ==> t < #[trigger] s[k].time,
    ensures
        actions_up_to(s, t) == Seq::<KeyAction>::empty(),
    decreases s.len(),
{
    if s.len() > 0 {
        lemma_none_up_to(s.drop_last(), t);
    }
}

fn copy_action(a: &KeyAction) -> (b: KeyAction)
    ensures
        b == *a,
{
    KeyAction { time: a.time, column: a.column, pressed: a.pressed }
}

/// Builds the timeline of held keys: a nothing-held entry at `i32::MIN`, then one
/// entry per action, in stable time order, holding the mask after that action.
pub fn build_key_mask_timeline(actions: &[KeyAction]) -> (events: Vec<KeyMaskEvent>)
    requires
        forall|k: int| 0 <= k < actions@.len() ==> #[trigger] actions@[k].column < 8,
    ensures
        events@ == key_mask_timeline(actions@),
{
    let mut sorted: Vec<KeyAction> = Vec::new();
    for k in 0..actions.len()
        invariant
            sorted@ == actions@.take(k as int),
    {
        sorted.push(copy_action(&actions[k]));
        assert(sorted@ =~= actions@.take(k + 1));
    }
    assert(sorted@ =~= actions@);
    stable_sort(&mut sorted);
    let ghost s = sorted@;
    proof {
        lemma_stable_sorted(actions@);
        lemma_timeline_len(s);
        lemma_stable_sorted_members(actions@);
        assert forall|k: int| 0 <= k < s.len() implies #[trigger] s[k].column < 8 by {
            assert(actions@.contains(s[k]));
        }
    }
    let mut events: Vec<KeyMaskEvent> = Vec::new();
    events.push(KeyMaskEvent { time: i32::MIN, mask: 0 });
    let mut mask: u8 = 0;
    assert(s.take(0) =~= Seq::<KeyAction>::empty());
    for k in 0..sorted.len()
        invariant
            sorted@ == s,
            forall|m: int| 0 <= m < s.len() ==> #[trigger] s[m].column < 8,
            timeline_of(s).len() == s.len() + 1,
            mask == mask_after(s.take(k as int)),
            events@ == timeline_of(s).take(k + 1),
    {
        let a = &sorted[k];
        let bit = 1u8 << a.column;
        if a.pressed {
            mask = mask | bit;
        } else {
            mask = mask & !bit;
        }
        assert(s.take(k + 1).drop_last() =~= s.take(k as int));
        events.push(KeyMaskEvent { time: a.time, mask });
        proof {
            lemma_timeline_len(s);
            assert(timeline_of(s)[k + 1] == (KeyMaskEvent {
                time: s[k as int].time,
                mask: mask_after(s.take(k + 1)),
            }));
            assert(events@ =~= timeline_of(s).take(k + 2));
        }
    }
    assert(events@ =~= timeline_of(s));
    events
}

/// The mask in force at `t`: that of the last event at or before `t`.
pub fn get_keys_mask_at(t: i32, events: &[KeyMaskEvent]) -> (m: u8)
    ensures
        events_time_sorted(events@) ==> m == mask_at(t, events@),
        m == 0 || exists|i: int| 0 <= i < events@.len() && m == #[trigger] events@[i].mask,
{
    if events.len() == 0 {
        return 0;
    }
    let mut lo: usize = 0;
    let mut hi: usize = events.len();
    while lo < hi
        invariant
            lo <= hi <= events@.len(),
            events_time_sorted(events@) ==> (forall|k: int| 0 <= k < lo ==> #[trigger] events@[k].time <= t),
            events_time_sorted(events@) ==> (forall|k: int| hi <= k < events@.len() ==> #[trigger] events@[k].time > t),
        decreases hi - lo,
    {
        let mid = lo + (hi - lo) / 2;
        if events[mid].time <= t {
            proof {
                if events_time_sorted(events@) {
                    assert forall|k: int| 0 <= k < mid + 1 implies #[trigger] events@[k].time <= t by {
                        assert(events@[k].time <= events@[mid as int].time);
                    }
                }
            }
            lo = mid + 1;
        } else {
            proof {
                if events_time_sorted(events@) {
                    assert forall|k: int| mid <= k < events@.len() implies #[trigger] events@[k].time > t by {
                        assert(events@[mid as int].time <= events@[k].time);
                    }
                }
            }
            hi = mid;
        }
    }
    proof {
        if events_time_sorted(events@) {
            lemma_mask_at_split(t, events@, lo as int);
        }
    }
    if lo == 0 {
        0
    } else {
        events[lo - 1].mask
    }
}

proof fn lemma_mask_at_split(t: i32, ev: Seq<KeyMaskEvent>, p: int)
    requires
        0 <= p <= ev.len(),
        forall|k: int| 0 <= k < p ==> #[trigger] ev[k].time <= t,
        forall|k: int| p <= k < ev.len() ==> #[trigger] ev[k].time > t,
    ensures
        mask_at(t, ev) == (if p == 0 { 0 } else { ev[p - 1].mask }),
    decreases ev.len(),
{
    if ev.len() > 0 && p < ev.len() {
        assert(ev.last().time > t);
        lemma_mask_at_split(t, ev.drop_last(), p);
    } else if ev.len() > 0 {
        assert(ev.last().time <= t);
    }
}

} // verus!
