use replay_renderer::storyboard::FlatCommand;
use replay_renderer::tracks::{
    build_tracks, fade_source_at, param_active_at, select_effective_fade_command, sort_track,
    value_source_at, CommandKind, FadeSource, ParamFlags, TrackCommand, TrackSource, ValueSource,
    has_overlay_layer, should_suppress_life_bar_for_storyboard, sprite_live_at, sprite_time_span,
    storyboard_layer_z, StoryboardLayer,
};

fn cmd(source: usize, start: i32, end: i32, origin: Option<i32>) -> TrackCommand {
    TrackCommand {
        command: FlatCommand { source, start_time: start, end_time: end, trigger_origin: origin },
        value_index: 0,
    }
}

fn src(source: usize, kind: CommandKind, start: i32, end: i32, values: usize) -> TrackSource {
    TrackSource {
        command: FlatCommand { source, start_time: start, end_time: end, trigger_origin: None },
        kind,
        params: ParamFlags { h: false, v: false, a: false },
        start_values: values,
        end_values: values,
    }
}

fn sources(track: &[TrackCommand]) -> Vec<(usize, usize)> {
    track.iter().map(|c| (c.command.source, c.value_index)).collect()
}

#[test]
fn tracks_are_ordered_by_start_then_end_and_stable() {
    let mut t = vec![cmd(0, 100, 300, None), cmd(1, 0, 50, None), cmd(2, 100, 200, None), cmd(3, 100, 200, None)];
    sort_track(&mut t);
    assert_eq!(sources(&t), vec![(1, 0), (2, 0), (3, 0), (0, 0)]);
    let mut t = vec![cmd(0, -5, i32::MAX, None), cmd(1, -5, i32::MIN, None), cmd(2, i32::MIN, 0, None)];
    sort_track(&mut t);
    assert_eq!(sources(&t), vec![(2, 0), (1, 0), (0, 0)]);
}

#[test]
fn moves_feed_both_coordinate_tracks() {
    let items = vec![
        src(0, CommandKind::Move, 200, 300, 2),
        src(1, CommandKind::MoveX, 100, 150, 1),
        src(2, CommandKind::Move, 0, 10, 1),
        src(3, CommandKind::Fade, 0, 10, 1),
    ];
    let tracks = build_tracks(&items);
    assert_eq!(sources(&tracks.move_x), vec![(2, 0), (1, 0), (0, 0)]);
    assert_eq!(sources(&tracks.move_y), vec![(0, 1)]);
    assert_eq!(sources(&tracks.fade), vec![(3, 0)]);
    assert!(tracks.scale.is_empty() && tracks.rotate.is_empty());
}

#[test]
fn parameter_commands_feed_each_switch_they_turn_on() {
    let mut p = src(0, CommandKind::Param, 0, 100, 0);
    p.params = ParamFlags { h: true, v: false, a: true };
    let tracks = build_tracks(&[p]);
    assert_eq!(sources(&tracks.param_h), vec![(0, 0)]);
    assert!(tracks.param_v.is_empty());
    assert_eq!(sources(&tracks.param_a), vec![(0, 0)]);
}

#[test]
fn the_latest_started_command_decides_a_value() {
    let t = vec![cmd(0, 100, 200, None), cmd(1, 300, 400, None)];
    assert_eq!(value_source_at(&t, 50), ValueSource::FirstStart);
    assert_eq!(value_source_at(&t, 100), ValueSource::Command(0));
    assert_eq!(value_source_at(&t, 350), ValueSource::Command(1));
    assert_eq!(value_source_at(&t, 10_000), ValueSource::Command(1));
    assert_eq!(value_source_at(&[], 0), ValueSource::Default);
}

#[test]
fn plain_fades_take_control_back_from_triggers() {
    // A plain fade after the latest trigger wins.
    let t = vec![cmd(0, 0, 10, None), cmd(1, 500, 600, Some(500)), cmd(2, 550, 560, None)];
    assert_eq!(select_effective_fade_command(&t), 2);
    // A plain fade before the trigger does not.
    let t = vec![cmd(0, 0, 10, None), cmd(1, 500, 600, Some(500)), cmd(2, 400, 700, None)];
    assert_eq!(select_effective_fade_command(&t), 1);
    // Without triggers, the last started fade.
    let t = vec![cmd(0, 0, 10, None), cmd(1, 20, 30, None)];
    assert_eq!(select_effective_fade_command(&t), 1);
    // The latest trigger's own last command.
    let t = vec![cmd(0, 100, 110, Some(100)), cmd(1, 200, 210, Some(200)), cmd(2, 150, 160, Some(100))];
    assert_eq!(select_effective_fade_command(&t), 1);
}

#[test]
fn fade_source_hides_sprites_waiting_for_a_trigger() {
    let t = vec![cmd(0, 500, 600, Some(500))];
    assert_eq!(fade_source_at(&t, 100), FadeSource::Hidden);
    assert_eq!(fade_source_at(&t, 550), FadeSource::Command(0));
    let t = vec![cmd(0, 500, 600, None), cmd(1, 700, 800, None)];
    assert_eq!(fade_source_at(&t, 100), FadeSource::FirstStart);
    assert_eq!(fade_source_at(&t, 750), FadeSource::Command(1));
    assert_eq!(fade_source_at(&[], 0), FadeSource::Default);
}

#[test]
fn parameters_hold_for_their_duration_or_from_their_start() {
    let t = vec![cmd(0, 100, 200, None)];
    assert!(!param_active_at(&t, 99));
    assert!(param_active_at(&t, 150));
    assert!(param_active_at(&t, 200));
    assert!(!param_active_at(&t, 201));
    let t = vec![cmd(0, 100, 100, None)];
    assert!(param_active_at(&t, 5000));
    assert!(!param_active_at(&[], 0));
}

#[test]
fn a_sprite_lives_from_its_first_start_to_its_last_end() {
    let cmds = vec![
        FlatCommand { source: 0, start_time: 500, end_time: 900, trigger_origin: None },
        FlatCommand { source: 1, start_time: 100, end_time: 300, trigger_origin: None },
        FlatCommand { source: 2, start_time: 200, end_time: 1200, trigger_origin: Some(200) },
    ];
    assert_eq!(sprite_time_span(&cmds), Some((100, 1200)));
    assert_eq!(sprite_time_span(&[]), None);
    assert!(sprite_live_at(StoryboardLayer::Background, (100, 1200), 100));
    assert!(sprite_live_at(StoryboardLayer::Overlay, (100, 1200), 1200));
    assert!(!sprite_live_at(StoryboardLayer::Foreground, (100, 1200), 1201));
    assert!(!sprite_live_at(StoryboardLayer::Fail, (100, 1200), 500));
}

#[test]
fn overlay_storyboards_hide_the_life_bar() {
    assert!(has_overlay_layer(&[StoryboardLayer::Background, StoryboardLayer::Overlay]));
    assert!(!has_overlay_layer(&[StoryboardLayer::Background, StoryboardLayer::Pass]));
    assert!(should_suppress_life_bar_for_storyboard(true, Some(true)));
    assert!(!should_suppress_life_bar_for_storyboard(false, Some(true)));
    assert!(!should_suppress_life_bar_for_storyboard(true, Some(false)));
    assert!(!should_suppress_life_bar_for_storyboard(true, None));
    assert_eq!(storyboard_layer_z(StoryboardLayer::Background), -900);
    assert_eq!(storyboard_layer_z(StoryboardLayer::Overlay), 45);
}
