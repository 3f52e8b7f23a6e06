use replay_renderer::beatmap::{HitObject, HitSample};
use replay_renderer::stage_effects::{column_lighting, warning_arrow_wave, ColumnLighting};

fn tap(column: u8, time: i32) -> HitObject {
    HitObject { column, time, end_time: None, long_note: false, hit_sound: 0, hit_sample: HitSample::default() }
}

fn hold(column: u8, time: i32, end: i32) -> HitObject {
    HitObject { column, time, end_time: Some(end), long_note: true, hit_sound: 0, hit_sample: HitSample::default() }
}

#[test]
fn columns_light_up_for_taps_holds_and_releases() {
    let notes = [tap(0, 1000), hold(0, 900, 1500), tap(1, 1000), tap(0, 1050)];
    let all = [0usize, 1, 2, 3];
    assert_eq!(
        column_lighting(&notes, &all, 0, 1100, 200),
        ColumnLighting { one_shot_start: Some(1050), hold_start: Some(900), hold_end: Some(1500) }
    );
    assert_eq!(
        column_lighting(&notes, &all, 1, 1100, 200),
        ColumnLighting { one_shot_start: Some(1000), hold_start: None, hold_end: None }
    );
    assert_eq!(
        column_lighting(&notes, &all, 0, 1600, 200),
        ColumnLighting { one_shot_start: Some(1500), hold_start: None, hold_end: None }
    );
    // Only the notes on screen count.
    assert_eq!(
        column_lighting(&notes, &[2], 0, 1100, 200),
        ColumnLighting { one_shot_start: None, hold_start: None, hold_end: None }
    );
}

#[test]
fn warning_arrows_pulse_before_the_first_note() {
    assert_eq!(warning_arrow_wave(10_000, 5000, 8500), Some(8000));
    assert_eq!(warning_arrow_wave(10_000, 5000, 7500), Some(7000));
    assert_eq!(warning_arrow_wave(10_000, 5000, 6500), Some(6000));
    assert_eq!(warning_arrow_wave(10_000, 3500, 6500), None);
    assert_eq!(warning_arrow_wave(10_000, 3500, 7000), Some(7000));
    assert_eq!(warning_arrow_wave(10_000, 1999, 8500), None);
    assert_eq!(warning_arrow_wave(10_000, 5000, 9000), None);
    assert_eq!(warning_arrow_wave(10_000, 5000, 5999), None);
}
