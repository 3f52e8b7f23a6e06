//! Per-frame note visibility decisions and painter ordering of frame layers.
use vstd::prelude::*;
use crate::judgment::JudgmentKind;
use crate::sorting::{SortKey, stable_sort, stable_sorted, keys_sorted, with_key,
    lemma_stable_sorted, lemma_stable_sorted_keeps_order};

verus! {

/// A judgment recorded for a note, as the frame logic reads it.
#[derive(Debug, Clone)]
pub struct InternalJudgment {
    pub index: usize,
    pub time: i32,
    pub kind: JudgmentKind,
    pub press_time: Option<i32>,
}

/// Frame layers in painter order: a lower layer is drawn first.
#[derive(Debug, Clone, Copy, PartialEq, Eq, PartialOrd, Ord, Structural)]
pub enum RenderLayer {
    StageBackground,
    ColumnBackground,
    Barlines,
    KeysUnder,
    Notes,
    LongNotes,
    StageBottom,
    Lighting,
    KeysOver,
    Hud,
}

/// Painter rank of a layer (its declaration position).
pub open spec fn layer_rank(layer: RenderLayer) -> int {
    match layer {
        RenderLayer::StageBackground => 0,
        RenderLayer::ColumnBackground => 1,
        RenderLayer::Barlines => 2,
        RenderLayer::KeysUnder => 3,
        RenderLayer::Notes => 4,
        RenderLayer::LongNotes => 5,
        RenderLayer::StageBottom => 6,
        RenderLayer::Lighting => 7,
        RenderLayer::KeysOver => 8,
        RenderLayer::Hud => 9,
    }
}

pub fn render_layer_rank(layer: RenderLayer) -> (r: u8)
    ensures
        r as int == layer_rank(layer),
{
    match layer {
        RenderLayer::StageBackground => 0,
        RenderLayer::ColumnBackground => 1,
        RenderLayer::Barlines => 2,
        RenderLayer::KeysUnder => 3,
        RenderLayer::Notes => 4,
        RenderLayer::LongNotes => 5,
        RenderLayer::StageBottom => 6,
        RenderLayer::Lighting => 7,
        RenderLayer::KeysOver => 8,
        RenderLayer::Hud => 9,
    }
}

/// Long-note state of one column during a frame.
#[derive(Debug, Default)]
pub struct ColumnLnState {
    pub has_active_ln: bool,
    pub held: bool,
}

/// The note's vertical span `[note_y, note_y + note_height]` meets the visible
/// band `[top_y - margin, bottom_y + margin]`.
pub fn is_note_visible(note_y: i32, note_height: i32, top_y: i32, bottom_y: i32, margin: i32) -> (v:
    bool)
    requires
        i32::MIN <= note_y + note_height <= i32::MAX,
        i32::MIN <= top_y - margin <= i32::MAX,
        i32::MIN <= bottom_y + margin <= i32::MAX,
    ensures
        v == (note_y + note_height >= top_y - margin && note_y <= bottom_y + margin),
{
    let note_bottom = note_y + note_height;
    note_bottom >= (top_y - margin) && note_y <= (bottom_y + margin)
}

/// A note is consumed (no longer drawn) once its hit time has passed, unless it
/// was judged Miss or 50, which stay visible to show their fade and dim.
pub open spec fn consumed(judgment: Option<InternalJudgment>, timestamp: i32, note_time: i32) -> bool {
    match judgment {
        Some(j) => {
            let is_miss_or_50 = j.kind == JudgmentKind::Miss || j.kind == JudgmentKind::Hit50;
            !is_miss_or_50 && (match j.press_time {
                Some(p) => p,
                None => note_time,
            }) <= timestamp
        },
        None => false,
    }
}

pub fn is_consumed(judgment: Option<&InternalJudgment>, timestamp: i32, note_time: i32) -> (c: bool)
    ensures
        c == consumed(
            match judgment {
                Some(j) => Some(*j),
                None => None,
            },
            timestamp,
            note_time,
        ),
{
    match judgment {
        Some(j) => {
            let is_miss_or_50 = match j.kind {
                JudgmentKind::Miss | JudgmentKind::Hit50 => true,
                _ => false,
            };
            let hit_time = match j.press_time {
                Some(p) => p,
                None => note_time,
            };
            !is_miss_or_50 && hit_time <= timestamp
        },
        None => false,
    }
}

/// A missed note dims once the later of its last 50 timing edge and its judgment time has passed.
pub open spec fn dim_miss(
    judgment: Option<InternalJudgment>,
    timestamp: i32,
    note_time: i32,
    hit50_window: i32,
) -> bool {
    match judgment {
        Some(j) => j.kind == JudgmentKind::Miss && {
            let edge = note_time + hit50_window;
            let miss_edge = if edge >= j.time {
                edge
            } else {
                j.time as int
            };
            timestamp >= miss_edge
        },
        None => false,
    }
}

pub fn should_dim_miss(
    judgment: Option<&InternalJudgment>,
    timestamp: i32,
    note_time: i32,
    hit50_window: i32,
) -> (d: bool)
    requires
        i32::MIN <= note_time + hit50_window <= i32::MAX,
    ensures
        d == dim_miss(
            match judgment {
                Some(j) => Some(*j),
                None => None,
            },
            timestamp,
            note_time,
            hit50_window,
        ),
{
    match judgment {
        Some(j) => {
            match j.kind {
                JudgmentKind::Miss => {
                    let edge = note_time + hit50_window;
                    let miss_edge = if edge >= j.time {
                        edge
                    } else {
                        j.time
                    };
                    timestamp >= miss_edge
                },
                _ => false,
            }
        },
        None => false,
    }
}

/// Layer order when the keys are drawn under the notes.
pub open spec fn layers_keys_under() -> Seq<RenderLayer> {
    seq![
        RenderLayer::StageBackground,
        RenderLayer::ColumnBackground,
        RenderLayer::Barlines,
        RenderLayer::KeysUnder,
        RenderLayer::Notes,
        RenderLayer::LongNotes,
        RenderLayer::StageBottom,
        RenderLayer::Lighting,
        RenderLayer::Hud,
    ]
}

/// Layer order when the keys are drawn over the notes.
pub open spec fn layers_keys_over() -> Seq<RenderLayer> {
    seq![
        RenderLayer::StageBackground,
        RenderLayer::ColumnBackground,
        RenderLayer::Barlines,
        RenderLayer::Notes,
        RenderLayer::LongNotes,
        RenderLayer::KeysOver,
        RenderLayer::StageBottom,
        RenderLayer::Lighting,
        RenderLayer::Hud,
    ]
}

pub fn get_layer_order_keys_under() -> (order: Vec<RenderLayer>)
    ensures
        order@ == layers_keys_under(),
{
    let order = vec![
        RenderLayer::StageBackground,
        RenderLayer::ColumnBackground,
        RenderLayer::Barlines,
        RenderLayer::KeysUnder,
        RenderLayer::Notes,
        RenderLayer::LongNotes,
        RenderLayer::StageBottom,
        RenderLayer::Lighting,
        RenderLayer::Hud,
    ];
    assert(order@ =~= layers_keys_under());
    order
}

pub fn get_layer_order_keys_over() -> (order: Vec<RenderLayer>)
    ensures
        order@ == layers_keys_over(),
{
    let order = vec![
        RenderLayer::StageBackground,
        RenderLayer::ColumnBackground,
        RenderLayer::Barlines,
        RenderLayer::Notes,
        RenderLayer::LongNotes,
        RenderLayer::KeysOver,
        RenderLayer::StageBottom,
        RenderLayer::Lighting,
        RenderLayer::Hud,
    ];
    assert(order@ =~= layers_keys_over());
    order
}

impl<O> SortKey for (RenderLayer, O) {
    open spec fn sort_key(&self) -> int {
        layer_rank(self.0)
    }

    fn key(&self) -> (k: i128) {
        render_layer_rank(self.0) as i128
    }
}

/// The overlays of `entries`, in order.
pub open spec fn payloads<O>(entries: Seq<(RenderLayer, O)>) -> Seq<O> {
    entries.map_values(|p: (RenderLayer, O)| p.1)
}

/// The overlays of a finished frame, in painter order.
pub struct FrameData<O> {
    pub overlays: Vec<O>,
    pub width: u32,
    pub height: u32,
    pub timestamp: i32,
}

/// Collects overlays tagged with their layer, in any order.
pub struct FrameBuilder<O> {
    layers: Vec<(RenderLayer, O)>,
}

impl<O> View for FrameBuilder<O> {
    type V = Seq<(RenderLayer, O)>;

    closed spec fn view(&self) -> Seq<(RenderLayer, O)> {
        self.layers@
    }
}

impl<O> FrameBuilder<O> {
    pub fn new() -> (b: Self)
        ensures
            b@ == Seq::<(RenderLayer, O)>::empty(),
    {
        FrameBuilder { layers: Vec::with_capacity(256) }
    }

    pub fn add(&mut self, layer: RenderLayer, overlay: O)
        ensures
            final(self)@ == old(self)@.push((layer, overlay)),
    {
        self.layers.push((layer, overlay));
    }

    /// The frame, its overlays ordered by layer; overlays of one layer keep the
    /// order in which they were added.
    pub fn build(self, width: u32, height: u32, timestamp: i32) -> (data: FrameData<O>)
        ensures
            data.overlays@ == payloads(stable_sorted(self@)),
            data.width == width,
            data.height == height,
            data.timestamp == timestamp,
    {
        let mut layers = self.layers;
        stable_sort(&mut layers);
        let ghost sorted = layers@;
        let n = layers.len();
        let mut rev: Vec<O> = Vec::new();
        while layers.len() > 0
            invariant
                layers.len() + rev.len() == n == sorted.len(),
                layers@ == sorted.take(layers.len() as int),
                forall|i: int| 0 <= i < rev.len() ==> #[trigger] rev@[i] == sorted[n - 1 - i].1,
            decreases layers.len(),
        {
            let p = layers.pop().unwrap();
            assert(layers@ =~= sorted.take(layers.len() as int));
            rev.push(p.1);
        }
        let mut overlays: Vec<O> = Vec::new();
        while rev.len() > 0
            invariant
                overlays.len() + rev.len() == n == sorted.len(),
                forall|i: int| 0 <= i < rev.len() ==> #[trigger] rev@[i] == sorted[n - 1 - i].1,
                forall|i: int| 0 <= i < overlays.len() ==> #[trigger] overlays@[i] == sorted[i].1,
            decreases rev.len(),
        {
            let x = rev.pop().unwrap();
            overlays.push(x);
        }
        assert(overlays@ =~= payloads(sorted));
        FrameData { overlays, width, height, timestamp }
    }

    pub fn clear(&mut self)
        ensures
            final(self)@ == Seq::<(RenderLayer, O)>::empty(),
    {
        self.layers.clear();
    }
}

/// Painter order: a built frame holds exactly the added overlays, ordered by
/// layer, and the overlays of each layer keep the order in which they were added.
pub proof fn lemma_frame_painter_order<O>(entries: Seq<(RenderLayer, O)>, layer: RenderLayer)
    ensures
        keys_sorted(stable_sorted(entries)),
        stable_sorted(entries).to_multiset() == entries.to_multiset(),
        with_key(stable_sorted(entries), layer_rank(layer)) == with_key(
            entries,
            layer_rank(layer),
        ),
{
    lemma_stable_sorted(entries);
    lemma_stable_sorted_keeps_order(entries, layer_rank(layer));
}


/// Layers are painted in declaration order, each strictly above the one
/// before: stage background, column backgrounds, barlines, keys under the
/// notes, notes, long notes, stage bottom, lighting, keys over the notes, HUD.
pub proof fn lemma_layer_ranks_increase()
    ensures
        layer_rank(RenderLayer::StageBackground) < layer_rank(RenderLayer::ColumnBackground),
        layer_rank(RenderLayer::ColumnBackground) < layer_rank(RenderLayer::Barlines),
        layer_rank(RenderLayer::Barlines) < layer_rank(RenderLayer::KeysUnder),
        layer_rank(RenderLayer::KeysUnder) < layer_rank(RenderLayer::Notes),
        layer_rank(RenderLayer::Notes) < layer_rank(RenderLayer::LongNotes),
        layer_rank(RenderLayer::LongNotes) < layer_rank(RenderLayer::StageBottom),
        layer_rank(RenderLayer::StageBottom) < layer_rank(RenderLayer::Lighting),
        layer_rank(RenderLayer::Lighting) < layer_rank(RenderLayer::KeysOver),
        layer_rank(RenderLayer::KeysOver) < layer_rank(RenderLayer::Hud),
        forall|a: RenderLayer, b: RenderLayer| a != b ==> layer_rank(a) != layer_rank(b),
{
}

/// The two layer orders differ only in where the keys go: without their key
/// layer they are the same order, from the stage background to the HUD; keys
/// under the notes come right before the notes, keys over the notes right
/// after the long notes; and each order holds each of its layers once.
pub proof fn lemma_layer_orders_differ_only_in_keys()
    ensures
        layers_keys_under().remove(3) == layers_keys_over().remove(5),
        layers_keys_under()[3] == RenderLayer::KeysUnder,
        layers_keys_under()[4] == RenderLayer::Notes,
        layers_keys_over()[4] == RenderLayer::LongNotes,
        layers_keys_over()[5] == RenderLayer::KeysOver,
        layers_keys_under()[0] == RenderLayer::StageBackground,
        layers_keys_under().last() == RenderLayer::Hud,
        layers_keys_under().no_duplicates(),
        layers_keys_over().no_duplicates(),
        !layers_keys_under().contains(RenderLayer::KeysOver),
        !layers_keys_over().contains(RenderLayer::KeysUnder),
{
    assert(layers_keys_under().remove(3) =~= layers_keys_over().remove(5));
    assert(!layers_keys_under().contains(RenderLayer::KeysOver)) by {
        if layers_keys_under().contains(RenderLayer::KeysOver) {
            let i = choose|i: int| 0 <= i < 9 && layers_keys_under()[i] == RenderLayer::KeysOver;
        }
    }
    assert(!layers_keys_over().contains(RenderLayer::KeysUnder)) by {
        if layers_keys_over().contains(RenderLayer::KeysUnder) {
            let i = choose|i: int| 0 <= i < 9 && layers_keys_over()[i] == RenderLayer::KeysUnder;
        }
    }
}

/// A note stops being drawn once it is hit (at its press, or its own time when
/// no press was recorded), unless it was judged Miss or 50; never before, never
/// without a judgment, and once gone it stays gone.
pub proof fn lemma_hit_notes_are_consumed(
    judgment: Option<InternalJudgment>,
    t1: i32,
    t2: i32,
    note_time: i32,
)
    ensures
        judgment matches Some(j) ==> ({
            let hit = match j.press_time {
                Some(p) => p,
                None => note_time,
            };
            &&& (j.kind != JudgmentKind::Miss && j.kind != JudgmentKind::Hit50 && hit <= t1) ==> consumed(
                judgment,
                t1,
                note_time,
            )
            &&& consumed(judgment, t1, note_time) ==> hit <= t1
            &&& (j.kind == JudgmentKind::Miss || j.kind == JudgmentKind::Hit50) ==> !consumed(
                judgment,
                t1,
                note_time,
            )
        }),
        judgment is None ==> !consumed(judgment, t1, note_time),
        t1 <= t2 && consumed(judgment, t1, note_time) ==> consumed(judgment, t2, note_time),
{
}

/// Only a missed note dims, and it dims from the later of its last 50 timing
/// edge (`note_time + hit50_window`) and its judgment time on, for good.
pub proof fn lemma_misses_dim_after_the_window(
    judgment: Option<InternalJudgment>,
    t1: i32,
    t2: i32,
    note_time: i32,
    hit50_window: i32,
)
    ensures
        judgment matches Some(j) ==> (dim_miss(judgment, t1, note_time, hit50_window) <==> (j.kind
            == JudgmentKind::Miss && t1 >= note_time + hit50_window && t1 >= j.time)),
        judgment is None ==> !dim_miss(judgment, t1, note_time, hit50_window),
        t1 <= t2 && dim_miss(judgment, t1, note_time, hit50_window) ==> dim_miss(
            judgment,
            t2,
            note_time,
            hit50_window,
        ),
{
}

} // verus!
