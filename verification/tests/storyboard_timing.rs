use replay_renderer::beatmap::{HitObject, HitSample, TimingPoint};
use replay_renderer::storyboard::{
    animation_frame_index, animation_frame_path, checked_storyboard_time, collect_hitsound_events,
    command_time_bounds, flatten_commands, loop_total_iterations, normalize_path,
    resolve_sample_sets, timing_point_at, trigger_matches, AnimationLoopType, FlatCommand,
    HitSoundEvent, HitSoundType, LoopCommand, SampleSet, StoryboardCommand,
    StoryboardTimeError, StoryboardTriggerKind, TimedCommand, TriggerCommand,
};

fn cmd(source: usize, start_time: i32, end_time: i32) -> StoryboardCommand {
    StoryboardCommand::Command(TimedCommand { source, start_time, end_time })
}

fn flat(source: usize, start_time: i32, end_time: i32, origin: Option<i32>) -> FlatCommand {
    FlatCommand { source, start_time, end_time, trigger_origin: origin }
}

fn ev(time: i32, normal_set: u8, addition_set: u8, hit_sound: u8) -> HitSoundEvent {
    HitSoundEvent { time, normal_set, addition_set, hit_sound }
}

const ANY: StoryboardTriggerKind = StoryboardTriggerKind { any: true, sample_set: None, hit_sound: None };

#[test]
fn loops_run_at_least_once() {
    assert_eq!(loop_total_iterations(3), 3);
    assert_eq!(loop_total_iterations(1), 1);
    assert_eq!(loop_total_iterations(0), 1);
    assert_eq!(loop_total_iterations(-7), 1);
}

#[test]
fn absolute_times_must_fit_i32() {
    assert_eq!(checked_storyboard_time(1000, 250), Ok(1250));
    assert_eq!(checked_storyboard_time(-5, -10), Ok(-15));
    assert_eq!(
        checked_storyboard_time(i32::MAX as i64, 1),
        Err(StoryboardTimeError::CommandTimeOutOfRange)
    );
    assert_eq!(
        checked_storyboard_time(i64::MAX, 1),
        Err(StoryboardTimeError::CommandTimeOverflow)
    );
    assert_eq!(
        StoryboardTimeError::CommandTimeOverflow.message(),
        "storyboard command time overflowed"
    );
    assert_eq!(
        StoryboardTimeError::CommandTimeOutOfRange.message(),
        "storyboard command time does not fit in i32"
    );
}

#[test]
fn bounds_cover_commands_loops_and_triggers() {
    assert_eq!(command_time_bounds(&[]), None);
    let plain = vec![cmd(0, 100, 50), cmd(1, 20, 80)];
    // An end before its start counts as the start.
    assert_eq!(command_time_bounds(&plain), Some((20, 100)));
    let looped = vec![StoryboardCommand::Loop(LoopCommand {
        start_time: 1000,
        loop_count: 3,
        commands: vec![cmd(0, 0, 100), cmd(1, 50, 200)],
    })];
    assert_eq!(command_time_bounds(&looped), Some((1000, 1600)));
    let triggered = vec![StoryboardCommand::Trigger(TriggerCommand {
        trigger: ANY,
        start_time: 500,
        end_time: 900,
        commands: vec![cmd(0, 10, 20)],
    })];
    assert_eq!(command_time_bounds(&triggered), Some((510, 920)));
    let empty_loop = vec![StoryboardCommand::Loop(LoopCommand {
        start_time: 0,
        loop_count: 2,
        commands: vec![],
    })];
    assert_eq!(command_time_bounds(&empty_loop), None);
}

#[test]
fn loops_are_unrolled_back_to_back() {
    let commands = vec![
        cmd(9, 0, 10),
        StoryboardCommand::Loop(LoopCommand {
            start_time: 1000,
            loop_count: 3,
            commands: vec![cmd(0, 0, 100), cmd(1, 50, 200)],
        }),
    ];
    let out = flatten_commands(&commands, &[], 5).unwrap();
    assert_eq!(
        out,
        vec![
            flat(9, 5, 15, None),
            flat(0, 1005, 1105, None),
            flat(1, 1055, 1205, None),
            flat(0, 1205, 1305, None),
            flat(1, 1255, 1405, None),
            flat(0, 1405, 1505, None),
            flat(1, 1455, 1605, None),
        ]
    );
}

#[test]
fn command_ends_never_precede_starts() {
    let out = flatten_commands(&[cmd(4, 300, 100)], &[], 0).unwrap();
    assert_eq!(out, vec![flat(4, 300, 300, None)]);
}

#[test]
fn triggers_repeat_for_each_matching_hitsound_in_their_window() {
    let soft = StoryboardTriggerKind { any: false, sample_set: Some(SampleSet::Soft), hit_sound: None };
    let commands = vec![StoryboardCommand::Trigger(TriggerCommand {
        trigger: soft,
        start_time: 0,
        end_time: 5000,
        commands: vec![cmd(2, 0, 40)],
    })];
    let events = vec![
        ev(100, 1, 1, 1),
        ev(200, 2, 1, 1),
        ev(300, 1, 2, 8),
        ev(6000, 2, 2, 2),
    ];
    let out = flatten_commands(&commands, &events, 10).unwrap();
    assert_eq!(out, vec![flat(2, 210, 250, Some(200)), flat(2, 310, 350, Some(300))]);
}

#[test]
fn flattening_reports_each_kind_of_overflow() {
    assert_eq!(
        flatten_commands(&[cmd(0, 1, 2)], &[], i64::MAX),
        Err(StoryboardTimeError::CommandTimeOverflow)
    );
    assert_eq!(
        flatten_commands(&[cmd(0, 1, 2)], &[], i32::MAX as i64),
        Err(StoryboardTimeError::CommandTimeOutOfRange)
    );
    let looped = vec![StoryboardCommand::Loop(LoopCommand {
        start_time: 1,
        loop_count: 2,
        commands: vec![cmd(0, 0, 1)],
    })];
    assert_eq!(
        flatten_commands(&looped, &[], i64::MAX),
        Err(StoryboardTimeError::LoopTimeOverflow)
    );
    let triggered = vec![StoryboardCommand::Trigger(TriggerCommand {
        trigger: ANY,
        start_time: 0,
        end_time: 1000,
        commands: vec![cmd(0, 0, 1)],
    })];
    assert_eq!(
        flatten_commands(&triggered, &[ev(100, 1, 1, 1)], i64::MAX - 10),
        Err(StoryboardTimeError::TriggerTimeOverflow)
    );
    // A loop whose period is huge (a trigger over a long inner loop that never
    // fires) overflows when the fourth iteration is placed.
    let huge_inner = StoryboardCommand::Loop(LoopCommand {
        start_time: 0,
        loop_count: i32::MAX,
        commands: vec![cmd(0, 0, i32::MAX)],
    });
    let silent_trigger = StoryboardCommand::Trigger(TriggerCommand {
        trigger: ANY,
        start_time: 0,
        end_time: 0,
        commands: vec![huge_inner],
    });
    let outer = vec![StoryboardCommand::Loop(LoopCommand {
        start_time: 1,
        loop_count: 4,
        commands: vec![silent_trigger],
    })];
    assert_eq!(
        flatten_commands(&outer, &[], 0),
        Err(StoryboardTimeError::LoopExpansionOverflow)
    );
    assert_eq!(
        StoryboardTimeError::LoopExpansionOverflow.message(),
        "storyboard loop expansion overflowed"
    );
}

#[test]
fn trigger_matching_rules() {
    assert!(trigger_matches(ANY, &ev(0, 9, 9, 0)));
    let drum = StoryboardTriggerKind { any: false, sample_set: Some(SampleSet::Drum), hit_sound: None };
    assert!(trigger_matches(drum, &ev(0, 3, 1, 1)));
    assert!(trigger_matches(drum, &ev(0, 1, 3, 1)));
    assert!(!trigger_matches(drum, &ev(0, 1, 2, 1)));
    let drum_clap = StoryboardTriggerKind {
        any: false,
        sample_set: Some(SampleSet::Drum),
        hit_sound: Some(HitSoundType::Clap),
    };
    assert!(trigger_matches(drum_clap, &ev(0, 1, 3, 8)));
    assert!(!trigger_matches(drum_clap, &ev(0, 3, 1, 8)));
    assert!(!trigger_matches(drum_clap, &ev(0, 1, 3, 2)));
    let whistle = StoryboardTriggerKind { any: false, sample_set: None, hit_sound: Some(HitSoundType::Whistle) };
    assert!(trigger_matches(whistle, &ev(0, 1, 1, 2 | 4)));
    assert!(!trigger_matches(whistle, &ev(0, 1, 1, 4)));
    let plain = StoryboardTriggerKind { any: false, sample_set: None, hit_sound: None };
    assert!(trigger_matches(plain, &ev(0, 1, 1, 1)));
}

fn ho(time: i32, hit_sound: u8, normal_set: u8, addition_set: u8) -> HitObject {
    HitObject {
        column: 0,
        time,
        end_time: None,
        long_note: false,
        hit_sound,
        hit_sample: HitSample { normal_set, addition_set },
    }
}

#[test]
fn timing_points_and_sample_sets() {
    let tps = vec![
        TimingPoint { time: 0, sample_set: 2 },
        TimingPoint { time: 1000, sample_set: 0 },
        TimingPoint { time: 2000, sample_set: 3 },
    ];
    assert!(timing_point_at(&tps, -1).is_none());
    assert_eq!(timing_point_at(&tps, 0).unwrap().sample_set, 2);
    assert_eq!(timing_point_at(&tps, 1999).unwrap().time, 1000);
    assert_eq!(timing_point_at(&tps, 5000).unwrap().sample_set, 3);
    assert_eq!(resolve_sample_sets(&tps, &ho(500, 0, 0, 0)), (2, 2));
    assert_eq!(resolve_sample_sets(&tps, &ho(1500, 0, 0, 0)), (1, 1));
    assert_eq!(resolve_sample_sets(&tps, &ho(2500, 0, 0, 2)), (3, 2));
    assert_eq!(resolve_sample_sets(&tps, &ho(2500, 0, 1, 0)), (1, 1));
    assert_eq!(resolve_sample_sets(&tps, &ho(-10, 0, 0, 0)), (1, 1));
    assert_eq!(resolve_sample_sets(&[], &ho(10, 0, 0, 0)), (1, 1));
}

#[test]
fn hitsound_events_are_time_sorted_and_silent_objects_sound_normal() {
    let tps = vec![TimingPoint { time: 0, sample_set: 2 }];
    let objects = vec![ho(300, 0, 0, 0), ho(100, 8, 0, 3), ho(300, 2, 1, 0), ho(200, 4, 0, 0)];
    let events = collect_hitsound_events(&objects, &tps);
    let got: Vec<(i32, u8, u8, u8)> = events
        .iter()
        .map(|e| (e.time, e.normal_set, e.addition_set, e.hit_sound))
        .collect();
    assert_eq!(
        got,
        vec![(100, 2, 3, 8), (200, 2, 2, 4), (300, 2, 2, 1), (300, 1, 1, 2)]
    );
}

#[test]
fn animation_frames_loop_or_hold() {
    assert_eq!(animation_frame_index(1000, 1000, 50, 4, AnimationLoopType::LoopForever), 0);
    assert_eq!(animation_frame_index(1049, 1000, 50, 4, AnimationLoopType::LoopForever), 0);
    assert_eq!(animation_frame_index(1050, 1000, 50, 4, AnimationLoopType::LoopForever), 1);
    assert_eq!(animation_frame_index(1210, 1000, 50, 4, AnimationLoopType::LoopForever), 0);
    assert_eq!(animation_frame_index(1210, 1000, 50, 4, AnimationLoopType::LoopOnce), 3);
    assert_eq!(animation_frame_index(500, 1000, 50, 4, AnimationLoopType::LoopOnce), 0);
    assert_eq!(animation_frame_index(5000, 1000, 0, 4, AnimationLoopType::LoopForever), 0);
    assert_eq!(animation_frame_index(5000, 1000, 50, 0, AnimationLoopType::LoopForever), 0);
}

#[test]
fn frame_paths_put_the_index_before_each_dot() {
    assert_eq!(animation_frame_path("sb/sprite.png", 3), "sb/sprite3.png");
    assert_eq!(animation_frame_path("a.b.png", 12), "a12.b12.png");
    assert_eq!(animation_frame_path("nodot", 1), "nodot");
}

#[test]
fn paths_normalise_slashes_and_case() {
    assert_eq!(normalize_path("SB\\Sprites\\Star.PNG"), "sb/sprites/star.png");
    assert_eq!(normalize_path("ÄBC/d"), "äbc/d");
    assert_eq!(normalize_path(""), "");
}
