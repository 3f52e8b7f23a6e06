use replay_renderer::judgment::{
    judgment_binding_index, judgment_kind_index, judgment_to_color, judgment_to_string,
    rel_kind_to_judgment, JudgmentKind, ReleaseKind,
};

const ALL: [JudgmentKind; 6] = [
    JudgmentKind::Max,
    JudgmentKind::Hit300,
    JudgmentKind::Hit200,
    JudgmentKind::Hit100,
    JudgmentKind::Hit50,
    JudgmentKind::Miss,
];

#[test]
fn kinds_index_their_tables_best_first() {
    for (i, kind) in ALL.iter().enumerate() {
        assert_eq!(judgment_kind_index(*kind), i);
    }
}

#[test]
fn labels_and_colors() {
    let labels: Vec<String> = ALL.iter().map(|k| judgment_to_string(*k)).collect();
    assert_eq!(labels, vec!["MAX", "300", "200", "100", "50", "MISS"]);
    assert_eq!(judgment_to_color(JudgmentKind::Max), [255, 255, 255, 255]);
    assert_eq!(judgment_to_color(JudgmentKind::Hit300), [249, 164, 2, 255]);
    assert_eq!(judgment_to_color(JudgmentKind::Miss), [196, 29, 49, 255]);
}

#[test]
fn release_kinds_round_trip_and_unjudged_counts_as_miss() {
    for kind in ALL {
        assert_eq!(rel_kind_to_judgment(ReleaseKind::from_judgment(kind)), kind);
    }
    assert_eq!(rel_kind_to_judgment(ReleaseKind::Unjudged), JudgmentKind::Miss);
    assert_eq!(ReleaseKind::default(), ReleaseKind::Unjudged);
}

#[test]
fn binding_names_map_to_table_indices() {
    assert_eq!(judgment_binding_index("judgments.max"), Some(0));
    assert_eq!(judgment_binding_index("judgments.hit300"), Some(1));
    assert_eq!(judgment_binding_index("judgments.hit200"), Some(2));
    assert_eq!(judgment_binding_index("judgments.hit100"), Some(3));
    assert_eq!(judgment_binding_index("judgments.hit50"), Some(4));
    assert_eq!(judgment_binding_index("judgments.miss"), Some(5));
    assert_eq!(judgment_binding_index("judgments.Miss"), None);
    assert_eq!(judgment_binding_index("combo"), None);
    assert_eq!(judgment_binding_index(""), None);
}
