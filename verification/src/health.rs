//! Health-bar events: which judgment lands when, in gameplay order.
use vstd::prelude::*;
use crate::beatmap::HitObject;
use crate::judgment::{JudgmentKind, rel_kind_to_judgment, judgment_of_release};
use crate::model::{RenderJudgment, LnReleaseInfo};
use crate::sorting::{SortKey, stable_sort, stable_sorted, keys_sorted, lemma_stable_sorted};

verus! {

#[derive(Debug, Clone, Copy, PartialEq, Eq, Structural)]
pub enum HealthEventKind {
    Tap,
    LnHead,
    LnTail,
    LnBodyTick,
    LnBodyBreak,
}

/// Order of events at the same time and note: heads and taps, body breaks, body
/// ticks, then tails.
pub open spec fn event_priority(kind: HealthEventKind) -> nat {
    match kind {
        HealthEventKind::Tap | HealthEventKind::LnHead => 0,
        HealthEventKind::LnBodyBreak => 1,
        HealthEventKind::LnBodyTick => 2,
        HealthEventKind::LnTail => 3,
    }
}

pub fn health_event_priority(kind: HealthEventKind) -> (p: u8)
    ensures
        p as nat == event_priority(kind),
{
    match kind {
        HealthEventKind::Tap | HealthEventKind::LnHead => 0,
        HealthEventKind::LnBodyBreak => 1,
        HealthEventKind::LnBodyTick => 2,
        HealthEventKind::LnTail => 3,
    }
}

/// A health change still to be applied: the judgment that lands at `time` for a note.
#[derive(Debug, Clone, Copy)]
pub struct PendingHealthEvent {
    pub time: i32,
    pub note_index: usize,
    pub kind: HealthEventKind,
    pub judgment: Option<JudgmentKind>,
}

/// 2^66: note index and priority together stay below it.
pub open spec fn key_scale() -> int {
    0x4_0000_0000_0000_0000
}

impl SortKey for PendingHealthEvent {
    /// Orders by time, then note index, then priority.
    open spec fn sort_key(&self) -> int {
        self.time * key_scale() + self.note_index * 4 + event_priority(self.kind)
    }

    fn key(&self) -> (k: i128) {
        let p = health_event_priority(self.kind);
        (self.time as i128) * 0x4_0000_0000_0000_0000i128 + (self.note_index as i128) * 4 + (p as i128)
    }
}

/// Entry `idx` of a per-note table, or none past its end.
pub open spec fn entry_at<T>(s: Seq<Option<T>>, idx: int) -> Option<T> {
    if 0 <= idx < s.len() {
        s[idx]
    } else {
        None
    }
}

/// The events one hit object contributes: a long note a head (at its press, or
/// its start) and a tail (at its release, or its end); any other note one tap (at
/// its press, or its start). A missing judgment counts as a miss.
pub open spec fn note_health_events(
    idx: int,
    ho: HitObject,
    judgments: Seq<Option<RenderJudgment>>,
    releases: Seq<Option<LnReleaseInfo>>,
) -> Seq<PendingHealthEvent> {
    let j = entry_at(judgments, idx);
    let press_time = match j {
        Some(rj) => match rj.press_time {
            Some(p) => p,
            None => ho.time,
        },
        None => ho.time,
    };
    let kind = match j {
        Some(rj) => rj.kind,
        None => JudgmentKind::Miss,
    };
    if ho.long_note {
        let end_time = match ho.end_time {
            Some(e) => e,
            None => ho.time,
        };
        let r = entry_at(releases, idx);
        let release_time = match r {
            Some(info) => match info.time {
                Some(t) => t,
                None => end_time,
            },
            None => end_time,
        };
        let release_kind = match r {
            Some(info) => judgment_of_release(info.kind),
            None => JudgmentKind::Miss,
        };
        seq![
            PendingHealthEvent {
                time: press_time,
                note_index: idx as usize,
                kind: HealthEventKind::LnHead,
                judgment: Some(kind),
            },
            PendingHealthEvent {
                time: release_time,
                note_index: idx as usize,
                kind: HealthEventKind::LnTail,
                judgment: Some(release_kind),
            },
        ]
    } else {
        seq![
            PendingHealthEvent {
                time: press_time,
                note_index: idx as usize,
                kind: HealthEventKind::Tap,
                judgment: Some(kind),
            },
        ]
    }
}

/// The events of the first `n` hit objects, in note order.
pub open spec fn notes_health_events(
    hit_objects: Seq<HitObject>,
    judgments: Seq<Option<RenderJudgment>>,
    releases: Seq<Option<LnReleaseInfo>>,
    n: nat,
) -> Seq<PendingHealthEvent>
    decreases n,
{
    if n == 0 {
        seq![]
    } else {
        notes_health_events(hit_objects, judgments, releases, (n - 1) as nat) + note_health_events(
            n - 1,
            hit_objects[n - 1],
            judgments,
            releases,
        )
    }
}

/// The health events of a replay in the order they apply: by time, then note,
/// then head before body before tail.
pub open spec fn health_events(
    hit_objects: Seq<HitObject>,
    judgments: Seq<Option<RenderJudgment>>,
    releases: Seq<Option<LnReleaseInfo>>,
) -> Seq<PendingHealthEvent> {
    stable_sorted(notes_health_events(hit_objects, judgments, releases, hit_objects.len()))
}

fn judgment_at(s: &[Option<RenderJudgment>], idx: usize) -> (r: Option<RenderJudgment>)
    ensures
        r == entry_at(s@, idx as int),
{
    if idx < s.len() {
        s[idx]
    } else {
        None
    }
}

fn release_at(s: &[Option<LnReleaseInfo>], idx: usize) -> (r: Option<LnReleaseInfo>)
    ensures
        r == entry_at(s@, idx as int),
{
    if idx < s.len() {
        s[idx]
    } else {
        None
    }
}

/// Collects every hit object's health events and orders them as they apply.
pub fn collect_pending_health_events(
    hit_objects: &[HitObject],
    judgments_by_idx: &[Option<RenderJudgment>],
    ln_releases_by_idx: &[Option<LnReleaseInfo>],
) -> (events: Vec<PendingHealthEvent>)
    ensures
        events@ == health_events(hit_objects@, judgments_by_idx@, ln_releases_by_idx@),
{
    let mut pending: Vec<PendingHealthEvent> = Vec::new();
    for idx in 0..hit_objects.len()
        invariant
            pending@ == notes_health_events(
                hit_objects@,
                judgments_by_idx@,
                ln_releases_by_idx@,
                idx as nat,
            ),
    {
        let ho = hit_objects[idx];
        let j = judgment_at(judgments_by_idx, idx);
        let press_time = match j {
            Some(rj) => match rj.press_time {
                Some(p) => p,
                None => ho.time,
            },
            None => ho.time,
        };
        let kind = match j {
            Some(rj) => rj.kind,
            None => JudgmentKind::Miss,
        };
        if ho.is_long_note() {
            pending.push(
                PendingHealthEvent {
                    time: press_time,
                    note_index: idx,
                    kind: HealthEventKind::LnHead,
                    judgment: Some(kind),
                },
            );
            let end_time = match ho.end_time {
                Some(e) => e,
                None => ho.time,
            };
            let r = release_at(ln_releases_by_idx, idx);
            let release_time = match r {
                Some(info) => match info.time {
                    Some(t) => t,
                    None => end_time,
                },
                None => end_time,
            };
            let release_kind = match r {
                Some(info) => rel_kind_to_judgment(info.kind),
                None => JudgmentKind::Miss,
            };
            pending.push(
                PendingHealthEvent {
                    time: release_time,
                    note_index: idx,
                    kind: HealthEventKind::LnTail,
                    judgment: Some(release_kind),
                },
            );
        } else {
            pending.push(
                PendingHealthEvent {
                    time: press_time,
                    note_index: idx,
                    kind: HealthEventKind::Tap,
                    judgment: Some(kind),
                },
            );
        }
        assert(pending@ =~= notes_health_events(
            hit_objects@,
            judgments_by_idx@,
            ln_releases_by_idx@,
            (idx + 1) as nat,
        ));
    }
    stable_sort(&mut pending);
    pending
}

/// A health change as applied: the life after it, in the caller's life unit.
#[derive(Debug, Clone, Copy)]
pub struct HealthEvent<L> {
    pub time: i32,
    pub note_index: usize,
    pub kind: HealthEventKind,
    pub delta: L,
    pub life_after: L,
}

/// The life bar over a replay: the starting life and every change in time order.
#[derive(Debug, Clone)]
pub struct HealthTimeline<L> {
    pub initial_life: L,
    pub events: Vec<HealthEvent<L>>,
    pub hp_multiplier_normal: L,
    pub fail_time_ms: Option<i32>,
}

/// The events are in time order.
pub open spec fn events_in_time_order<L>(events: Seq<HealthEvent<L>>) -> bool {
    forall|i: int, j: int| 0 <= i <= j < events.len() ==> events[i].time <= events[j].time
}

/// How many events have happened by `time` in a time-ordered list.
pub open spec fn applied_count<L>(events: Seq<HealthEvent<L>>, time: i32) -> nat
    decreases events.len(),
{
    if events.len() == 0 || events.last().time > time {
        if events.len() == 0 {
            0
        } else {
            applied_count(events.drop_last(), time)
        }
    } else {
        events.len()
    }
}

/// The life at `time`: after the last event at or before it, or the initial life.
pub open spec fn life_at<L>(initial: L, events: Seq<HealthEvent<L>>, time: i32) -> L {
    let n = applied_count(events, time);
    if n == 0 {
        initial
    } else {
        events[n - 1].life_after
    }
}

proof fn lemma_applied_count<L>(events: Seq<HealthEvent<L>>, time: i32, k: int)
    requires
        events_in_time_order(events),
        0 <= k <= events.len(),
        forall|i: int| 0 <= i < k ==> #[trigger] events[i].time <= time,
        forall|i: int| k <= i < events.len() ==> #[trigger] events[i].time > time,
    ensures
        applied_count(events, time) == k,
    decreases events.len(),
{
    if events.len() > 0 {
        if k == events.len() {
        } else {
            lemma_applied_count(events.drop_last(), time, k);
        }
    }
}

impl<L: Copy> HealthTimeline<L> {
    /// The life at `time`. For events out of time order the answer is the
    /// initial life or the life after one of the events.
    pub fn life_at_time(&self, time: i32) -> (life: L)
        ensures
            events_in_time_order(self.events@) ==> life == life_at(self.initial_life, self.events@, time),
            life == self.initial_life || exists|i: int|
                0 <= i < self.events@.len() && life == #[trigger] self.events@[i].life_after,
    {
        let mut lo: usize = 0;
        let mut hi: usize = self.events.len();
        while lo < hi
            invariant
                lo <= hi <= self.events@.len(),
                events_in_time_order(self.events@) ==> forall|k: int|
                    0 <= k < lo ==> #[trigger] self.events@[k].time <= time,
                events_in_time_order(self.events@) ==> forall|k: int|
                    hi <= k < self.events@.len() ==> #[trigger] self.events@[k].time > time,
            decreases hi - lo,
        {
            let mid = lo + (hi - lo) / 2;
            if self.events[mid].time <= time {
                lo = mid + 1;
            } else {
                hi = mid;
            }
        }
        proof {
            if events_in_time_order(self.events@) {
                lemma_applied_count(self.events@, time, lo as int);
            }
        }
        if lo == 0 {
            self.initial_life
        } else {
            self.events[lo - 1].life_after
        }
    }
}

/// Health events come out in gameplay order: by time, then by note, and for one
/// note at one time the head before the tail; none is lost or added.
pub proof fn lemma_health_events_in_gameplay_order(
    hit_objects: Seq<HitObject>,
    judgments: Seq<Option<RenderJudgment>>,
    releases: Seq<Option<LnReleaseInfo>>,
)
    ensures
        ({
            let ev = health_events(hit_objects, judgments, releases);
            &&& ev.to_multiset() == notes_health_events(
                hit_objects,
                judgments,
                releases,
                hit_objects.len(),
            ).to_multiset()
            &&& forall|i: int, j: int|
                0 <= i < j < ev.len() ==> {
                    ||| ev[i].time < ev[j].time
                    ||| ev[i].time == ev[j].time && ev[i].note_index < ev[j].note_index
                    ||| ev[i].time == ev[j].time && ev[i].note_index == ev[j].note_index
                        && event_priority(ev[i].kind) <= event_priority(ev[j].kind)
                }
        }),
{
    let raw = notes_health_events(hit_objects, judgments, releases, hit_objects.len());
    lemma_stable_sorted(raw);
    let ev = stable_sorted(raw);
    assert forall|i: int, j: int| 0 <= i < j < ev.len() implies {
        ||| ev[i].time < ev[j].time
        ||| ev[i].time == ev[j].time && ev[i].note_index < ev[j].note_index
        ||| ev[i].time == ev[j].time && ev[i].note_index == ev[j].note_index && event_priority(
            ev[i].kind,
        ) <= event_priority(ev[j].kind)
    } by {
        assert(ev[i].sort_key() <= ev[j].sort_key());
        lemma_key_order(ev[i], ev[j]);
    }
}

proof fn lemma_key_order(a: PendingHealthEvent, b: PendingHealthEvent)
    requires
        a.sort_key() <= b.sort_key(),
    ensures
        ({
            ||| a.time < b.time
            ||| a.time == b.time && a.note_index < b.note_index
            ||| a.time == b.time && a.note_index == b.note_index && event_priority(a.kind)
                <= event_priority(b.kind)
        }),
{
    let ra = a.note_index * 4 + event_priority(a.kind);
    let rb = b.note_index * 4 + event_priority(b.kind);
    assert(0 <= ra < key_scale());
    assert(0 <= rb < key_scale());
    if a.time > b.time {
        assert(a.time * key_scale() >= (b.time + 1) * key_scale()) by (nonlinear_arith)
            requires
                a.time >= b.time + 1,
                key_scale() > 0,
        ;
    } else if a.time == b.time {
        if a.note_index > b.note_index {
            assert(ra >= rb + 4);
        }
    }
}

} // verus!
