use replay_renderer::debug_text::DebugTextCache;
use replay_renderer::judgment::JudgmentKind;

type Image = Option<(Vec<u8>, u32, u32)>;

/// A one-pixel text image whose four bytes are all `byte`.
fn rendered(byte: u8) -> Image {
    Some((vec![byte; 4], 1, 1))
}

/// The label a one-pixel text of `byte` becomes on a label `width` wide.
fn centred(byte: u8, width: usize) -> Vec<u8> {
    let mut label = vec![0u8; 4 * width];
    let off = (width - 1) / 2;
    if byte > 0 {
        label[4 * off..4 * off + 4].copy_from_slice(&[byte; 4]);
    }
    label
}

#[test]
fn labels_are_rendered_once_then_served_from_the_cache() {
    let mut cache = DebugTextCache::new();
    assert_eq!(cache.len(), 0);
    let first = cache.get_or_create_owned(7, JudgmentKind::Hit300, 64, |_, _, _| rendered(1));
    assert_eq!(first, Some((centred(1, 64), 64, 1)));
    assert_eq!(cache.len(), 1);
    let again = cache.get_or_create_owned(7, JudgmentKind::Hit300, 64, |_, _, _| -> Image {
        panic!("a cached label is not rendered again")
    });
    assert_eq!(again, Some((centred(1, 64), 64, 1)));
    assert_eq!(cache.len(), 1);
    // Another width or judgment is another label.
    let other = cache.get_or_create_owned(7, JudgmentKind::Hit300, 32, |_, _, _| rendered(2));
    assert_eq!(other, Some((centred(2, 32), 32, 1)));
    let tail = cache.get_or_create_tail_owned(JudgmentKind::Miss, 64, |_, _, _| rendered(3));
    assert_eq!(tail, Some((centred(3, 64), 64, 1)));
    assert_eq!(cache.len(), 3);
}

#[test]
fn the_renderer_is_handed_the_index_in_white_whatever_the_judgment() {
    let mut cache = DebugTextCache::new();
    for judgment in [JudgmentKind::Max, JudgmentKind::Miss] {
        let label = cache.get_or_create_owned(1234, judgment, 40, |text, color, width| {
            assert_eq!(text, "1234");
            assert_eq!(color, [255, 255, 255, 255]);
            assert_eq!(width, 40);
            rendered(9)
        });
        assert_eq!(label, Some((centred(9, 40), 40, 1)));
    }
    // The judgment is still part of the key: two labels are cached.
    assert_eq!(cache.len(), 2);
}

#[test]
fn the_tail_renderer_is_handed_the_judgment_text_and_colour() {
    let mut cache = DebugTextCache::new();
    let label = cache.get_or_create_tail_owned(JudgmentKind::Miss, 10, |text, color, width| {
        assert_eq!(text, "MISS");
        assert_eq!(color, [196, 29, 49, 255]);
        assert_eq!(width, 10);
        rendered(5)
    });
    assert_eq!(label, Some((centred(5, 10), 10, 1)));
}

#[test]
fn a_tail_text_wider_than_the_target_is_kept_as_rendered() {
    let mut cache = DebugTextCache::new();
    // Two pixels, the first fully transparent but coloured.
    let image = vec![10, 20, 30, 0, 1, 2, 3, 4];
    let label = cache.get_or_create_tail_owned(JudgmentKind::Hit50, 1, |_, _, _| Some((image.clone(), 2, 1)));
    assert_eq!(label, Some((image.clone(), 2, 1)));
    // A note label is always redrawn: transparent pixels become blank.
    let note = cache.get_or_create_owned(3, JudgmentKind::Hit50, 1, |_, _, _| Some((image.clone(), 2, 1)));
    assert_eq!(note, Some((vec![0, 0, 0, 0, 1, 2, 3, 4], 2, 1)));
}

#[test]
fn labels_are_centred_row_by_row() {
    let mut cache = DebugTextCache::new();
    // A 1x2 text on a label 4 wide: offset (4 - 1) / 2 = 1 in each row.
    let image = vec![1, 1, 1, 1, 2, 2, 2, 2];
    let label = cache.get_or_create_owned(0, JudgmentKind::Max, 4, |_, _, _| Some((image.clone(), 1, 2)));
    let mut expected = vec![0u8; 32];
    expected[4..8].copy_from_slice(&[1, 1, 1, 1]);
    expected[20..24].copy_from_slice(&[2, 2, 2, 2]);
    assert_eq!(label, Some((expected, 4, 2)));
}

#[test]
fn failed_or_malformed_renders_are_not_cached() {
    let mut cache = DebugTextCache::default();
    assert!(cache.get_or_create(1, JudgmentKind::Miss, 10, |_, _, _| None).is_none());
    assert_eq!(cache.len(), 0);
    // Three bytes cannot be a 1x1 RGBA image.
    assert!(cache.get_or_create(1, JudgmentKind::Miss, 10, |_, _, _| Some((vec![1, 2, 3], 1, 1))).is_none());
    assert_eq!(cache.len(), 0);
    let view = cache.get_or_create(1, JudgmentKind::Miss, 10, |_, _, _| rendered(9)).unwrap();
    assert_eq!((view.data.to_vec(), view.w, view.h), (centred(9, 10), 10, 1));
    assert!(cache.get_or_create_tail(JudgmentKind::Hit50, 10, |_, _, _| None).is_none());
    assert_eq!(cache.len(), 1);
}

#[test]
fn compaction_keeps_the_most_recently_used_labels() {
    let mut cache = DebugTextCache::new();
    cache.get_or_create_owned(0, JudgmentKind::Max, 8, |_, _, _| rendered(0));
    cache.get_or_create_owned(1, JudgmentKind::Max, 8, |_, _, _| rendered(1));
    cache.get_or_create_owned(2, JudgmentKind::Max, 8, |_, _, _| rendered(2));
    // Touch label 0 so that label 1 is now the oldest, then label 2.
    cache.get_or_create_owned(0, JudgmentKind::Max, 8, |_, _, _| rendered(99));
    cache.compact(3);
    assert_eq!(cache.len(), 3);
    cache.compact(1);
    assert_eq!(cache.len(), 1);
    let kept = cache.get_or_create_owned(0, JudgmentKind::Max, 8, |_, _, _| -> Image {
        panic!("label 0 was the most recently used and must survive")
    });
    assert_eq!(kept, Some((centred(0, 8), 8, 1)));
    let gone = cache.get_or_create_owned(1, JudgmentKind::Max, 8, |_, _, _| rendered(5));
    assert_eq!(gone, Some((centred(5, 8), 8, 1)));
    cache.compact(0);
    assert_eq!(cache.len(), 0);
}
