use replay_renderer::effects::{build_key_mask_timeline, get_keys_mask_at, KeyAction, KeyMaskEvent};

fn act(time: i32, column: u8, pressed: bool) -> KeyAction {
    KeyAction { time, column, pressed }
}

fn masks(events: &[KeyMaskEvent]) -> Vec<(i32, u8)> {
    events.iter().map(|e| (e.time, e.mask)).collect()
}

#[test]
fn empty_actions_give_only_the_sentinel() {
    let events = build_key_mask_timeline(&[]);
    assert_eq!(masks(&events), vec![(i32::MIN, 0)]);
}

#[test]
fn timeline_sorts_actions_and_accumulates_masks() {
    let actions = vec![
        act(300, 0, false),
        act(100, 0, true),
        act(200, 3, true),
        act(400, 3, false),
    ];
    let events = build_key_mask_timeline(&actions);
    assert_eq!(
        masks(&events),
        vec![(i32::MIN, 0), (100, 0b0001), (200, 0b1001), (300, 0b1000), (400, 0)]
    );
}

#[test]
fn equal_times_keep_their_input_order() {
    // A press and a release of the same column at one time: the later one in
    // the input wins, because the sort is stable.
    let actions = vec![act(50, 2, true), act(50, 2, false)];
    let events = build_key_mask_timeline(&actions);
    assert_eq!(masks(&events), vec![(i32::MIN, 0), (50, 0b100), (50, 0)]);
    let actions = vec![act(50, 2, false), act(50, 2, true)];
    let events = build_key_mask_timeline(&actions);
    assert_eq!(masks(&events), vec![(i32::MIN, 0), (50, 0), (50, 0b100)]);
}

#[test]
fn lookup_uses_the_last_event_at_or_before_t() {
    let actions = vec![act(100, 1, true), act(200, 0, true), act(300, 1, false)];
    let events = build_key_mask_timeline(&actions);
    assert_eq!(get_keys_mask_at(0, &events), 0);
    assert_eq!(get_keys_mask_at(99, &events), 0);
    assert_eq!(get_keys_mask_at(100, &events), 0b10);
    assert_eq!(get_keys_mask_at(250, &events), 0b11);
    assert_eq!(get_keys_mask_at(300, &events), 0b01);
    assert_eq!(get_keys_mask_at(i32::MAX, &events), 0b01);
}

#[test]
fn lookup_before_everything_and_on_empty_input_is_zero() {
    assert_eq!(get_keys_mask_at(5, &[]), 0);
    let events = vec![KeyMaskEvent { time: 10, mask: 7 }];
    assert_eq!(get_keys_mask_at(9, &events), 0);
    assert_eq!(get_keys_mask_at(10, &events), 7);
}

#[test]
fn lookup_replays_the_actions_up_to_t() {
    // The mask found at t equals replaying every action at or before t.
    let actions = vec![
        act(10, 7, true),
        act(20, 0, true),
        act(30, 7, false),
        act(30, 4, true),
        act(40, 0, false),
    ];
    let events = build_key_mask_timeline(&actions);
    for t in [0, 10, 15, 20, 29, 30, 35, 40, 1000] {
        let mut mask = 0u8;
        for a in actions.iter().filter(|a| a.time <= t) {
            if a.pressed {
                mask |= 1 << a.column;
            } else {
                mask &= !(1 << a.column);
            }
        }
        assert_eq!(get_keys_mask_at(t, &events), mask, "t = {t}");
    }
}
