use replay_renderer::hud::{gameplay_animation_base_name, hidpi_texture_candidate};
use replay_renderer::state::{fail_piece_seed, resolve_frame_inputs, scatter_bits, FailFreeze};

#[test]
fn live_frames_use_the_live_inputs() {
    let r = resolve_frame_inputs(1234, 0b101, &[3, 4, 5], None);
    assert_eq!(r.state_time_ms, 1234);
    assert_eq!(r.position_time_ms, 1234);
    assert_eq!(r.key_mask, 0b101);
    assert_eq!(r.active_indices, vec![3, 4, 5]);
}

#[test]
fn an_inactive_fail_state_changes_nothing() {
    let fail = FailFreeze {
        active: false,
        fail_started_at: 900,
        visual_time_ms: 950,
        active_note_indices: vec![1],
        frozen_key_mask: 0b11,
    };
    let r = resolve_frame_inputs(1234, 0b101, &[3], Some(&fail));
    assert_eq!((r.state_time_ms, r.position_time_ms, r.key_mask), (1234, 1234, 0b101));
    assert_eq!(r.active_indices, vec![3]);
}

#[test]
fn a_running_fail_animation_freezes_the_frame() {
    let fail = FailFreeze {
        active: true,
        fail_started_at: 900,
        visual_time_ms: 950,
        active_note_indices: vec![1, 2],
        frozen_key_mask: 0b11,
    };
    let a = resolve_frame_inputs(1234, 0b101, &[3], Some(&fail));
    let b = resolve_frame_inputs(2000, 0, &[], Some(&fail));
    for r in [&a, &b] {
        assert_eq!(r.state_time_ms, 900);
        assert_eq!(r.position_time_ms, 950);
        assert_eq!(r.key_mask, 0b11);
        assert_eq!(r.active_indices, vec![1, 2]);
    }
}

#[test]
fn hidpi_candidate_goes_before_the_extension() {
    assert_eq!(
        hidpi_texture_candidate("Mania-Note1.PNG"),
        ("mania-note1.png".to_string(), "mania-note1@2x.png".to_string())
    );
    assert_eq!(
        hidpi_texture_candidate("a.b.png"),
        ("a.b.png".to_string(), "a.b@2x.png".to_string())
    );
    assert_eq!(
        hidpi_texture_candidate("lighting"),
        ("lighting".to_string(), "lighting@2x".to_string())
    );
}

#[test]
fn animation_base_name_drops_extensions_and_frame_numbers() {
    assert_eq!(gameplay_animation_base_name("mania-key1-0.png"), "mania-key1");
    assert_eq!(gameplay_animation_base_name("lightingn-12"), "lightingn");
    assert_eq!(gameplay_animation_base_name("mania-stage-left"), "mania-stage-left");
    assert_eq!(gameplay_animation_base_name("note.png.png"), "note");
    assert_eq!(gameplay_animation_base_name("hit-.jpg"), "hit");
    assert_eq!(gameplay_animation_base_name("x.jpeg"), "x");
    assert_eq!(gameplay_animation_base_name("plain"), "plain");
}

#[test]
fn fail_seeds_mix_note_and_piece() {
    assert_eq!(fail_piece_seed(0, 0), 0);
    assert_eq!(fail_piece_seed(1, 0), 0x9e37_79b9);
    assert_eq!(fail_piece_seed(0, 1), 0x85eb_ca6b);
    assert_eq!(fail_piece_seed(1, 1), 0x9e37_79b9u32.wrapping_add(0x85eb_ca6b));
    // Only the low 32 bits of the note index count.
    assert_eq!(fail_piece_seed((1usize << 32) + 1, 2), fail_piece_seed(1, 2));
    assert_eq!(scatter_bits(0), 0);
    assert_eq!(scatter_bits(1), 0x6889_90c0);
    assert_eq!(scatter_bits(2), 0xd113_2181);
    assert_ne!(scatter_bits(1), scatter_bits(2));
}
