use replay_renderer::beatmap::{HitObject, HitSample};
use replay_renderer::health::{
    collect_pending_health_events, health_event_priority, HealthEventKind,
};
use replay_renderer::judgment::{JudgmentKind, ReleaseKind};
use replay_renderer::lru::{least_recently_used, LruStamp};
use replay_renderer::model::{LnReleaseInfo, RenderJudgment};

fn tap(time: i32) -> HitObject {
    HitObject { column: 0, time, end_time: None, long_note: false, hit_sound: 0, hit_sample: HitSample::default() }
}

fn hold(time: i32, end: i32) -> HitObject {
    HitObject { column: 0, time, end_time: Some(end), long_note: true, hit_sound: 0, hit_sample: HitSample::default() }
}

fn judged(idx: usize, kind: JudgmentKind, press_time: Option<i32>) -> Option<RenderJudgment> {
    Some(RenderJudgment { idx, column: 0, time: 0, kind, press_time, rel_time: None, is_ln: false })
}

#[test]
fn priorities_put_heads_first_and_tails_last() {
    assert_eq!(health_event_priority(HealthEventKind::Tap), 0);
    assert_eq!(health_event_priority(HealthEventKind::LnHead), 0);
    assert_eq!(health_event_priority(HealthEventKind::LnBodyBreak), 1);
    assert_eq!(health_event_priority(HealthEventKind::LnBodyTick), 2);
    assert_eq!(health_event_priority(HealthEventKind::LnTail), 3);
}

#[test]
fn health_events_come_out_in_gameplay_order() {
    let objects = vec![hold(100, 500), tap(300), tap(200), hold(500, 500)];
    let judgments = vec![
        judged(0, JudgmentKind::Max, Some(110)),
        judged(1, JudgmentKind::Hit100, Some(320)),
        None,
        judged(3, JudgmentKind::Hit300, None),
    ];
    let releases = vec![
        Some(LnReleaseInfo { kind: ReleaseKind::Hit200, time: Some(480), rescued: false, double_tap: false }),
        None,
        None,
        Some(LnReleaseInfo { kind: ReleaseKind::Unjudged, time: None, rescued: false, double_tap: false }),
    ];
    let events = collect_pending_health_events(&objects, &judgments, &releases);
    let got: Vec<(i32, usize, HealthEventKind, Option<JudgmentKind>)> =
        events.iter().map(|e| (e.time, e.note_index, e.kind, e.judgment)).collect();
    assert_eq!(
        got,
        vec![
            (110, 0, HealthEventKind::LnHead, Some(JudgmentKind::Max)),
            (200, 2, HealthEventKind::Tap, Some(JudgmentKind::Miss)),
            (320, 1, HealthEventKind::Tap, Some(JudgmentKind::Hit100)),
            (480, 0, HealthEventKind::LnTail, Some(JudgmentKind::Hit200)),
            (500, 3, HealthEventKind::LnHead, Some(JudgmentKind::Hit300)),
            (500, 3, HealthEventKind::LnTail, Some(JudgmentKind::Miss)),
        ]
    );
}

#[test]
fn missing_judgment_tables_count_as_misses() {
    let objects = vec![hold(10, 90)];
    let events = collect_pending_health_events(&objects, &[], &[]);
    let got: Vec<(i32, HealthEventKind, Option<JudgmentKind>)> =
        events.iter().map(|e| (e.time, e.kind, e.judgment)).collect();
    assert_eq!(
        got,
        vec![
            (10, HealthEventKind::LnHead, Some(JudgmentKind::Miss)),
            (90, HealthEventKind::LnTail, Some(JudgmentKind::Miss)),
        ]
    );
}

#[test]
fn eviction_takes_the_oldest_entries() {
    let stamps = vec![
        LruStamp { key: "a", last_used: 5 },
        LruStamp { key: "b", last_used: 1 },
        LruStamp { key: "c", last_used: 9 },
        LruStamp { key: "d", last_used: 1 },
        LruStamp { key: "e", last_used: 3 },
    ];
    assert_eq!(least_recently_used(stamps.clone(), 2), vec!["b", "d", "e"]);
    assert_eq!(least_recently_used(stamps.clone(), 4), vec!["b"]);
    assert!(least_recently_used(stamps.clone(), 5).is_empty());
    assert!(least_recently_used(stamps, 10).is_empty());
    assert_eq!(least_recently_used(vec![LruStamp { key: 1u32, last_used: 0 }], 0), vec![1]);
}
