//! The custom HUD layer tree: which layers a configuration draws, what each
//! layer draws, and the tree flattened into draw order with effective z values.
use vstd::prelude::*;
use crate::text::{chars_equal_str, chars_of};

verus! {

/// A HUD layer as the flattening reads it: `id` names it for the caller.
#[derive(Debug)]
pub struct HudNode {
    pub id: usize,
    pub z_index: i32,
    pub visible: bool,
    pub is_group: bool,
    pub children: Vec<HudNode>,
}

pub open spec fn clamp_z(z: i32) -> int {
    if z < 0 {
        0
    } else if z > 999 {
        999
    } else {
        z as int
    }
}

pub open spec fn saturate_i32(x: int) -> int {
    if x > i32::MAX {
        i32::MAX as int
    } else if x < i32::MIN {
        i32::MIN as int
    } else {
        x
    }
}

/// A node's effective z: inside a group, the group's z plus the node's own
/// (kept to 0..=999); at the top, its own z times 1000 (saturating), so that
/// each top-level node reserves a range of a thousand values.
pub open spec fn effective_z(parent_z: Option<i32>, z: i32) -> int {
    match parent_z {
        Some(base) => base + clamp_z(z),
        None => saturate_i32(z * 1000),
    }
}

/// The layers of a list in draw order, each with its effective z: a node,
/// then its children (which a group places in its own z range, and which are
/// skipped altogether when the node is hidden). Nothing of a list under a
/// hidden parent is drawn.
pub open spec fn flatten_nodes(nodes: Seq<HudNode>, parent_z: Option<i32>, parent_visible: bool) -> Seq<(usize, int)>
    decreases nodes, 0int,
{
    if !parent_visible || nodes.len() == 0 {
        seq![]
    } else {
        flatten_nodes(nodes.drop_last(), parent_z, parent_visible) + flatten_node(nodes.last(), parent_z)
    }
}

pub open spec fn flatten_node(node: HudNode, parent_z: Option<i32>) -> Seq<(usize, int)>
    decreases node, 1int,
{
    let z = effective_z(parent_z, node.z_index);
    let child_base = if node.is_group {
        Some(z as i32)
    } else {
        parent_z
    };
    seq![(node.id, z)] + flatten_nodes(node.children@, child_base, node.visible)
}

/// Every group offset stays inside `i32` (outside this the addition overflows).
pub open spec fn z_fits_nodes(nodes: Seq<HudNode>, parent_z: Option<i32>, parent_visible: bool) -> bool
    decreases nodes, 0int,
{
    if !parent_visible || nodes.len() == 0 {
        true
    } else {
        z_fits_nodes(nodes.drop_last(), parent_z, parent_visible) && z_fits_node(nodes.last(), parent_z)
    }
}

pub open spec fn z_fits_node(node: HudNode, parent_z: Option<i32>) -> bool
    decreases node, 1int,
{
    let z = effective_z(parent_z, node.z_index);
    let child_base = if node.is_group {
        Some(z as i32)
    } else {
        parent_z
    };
    &&& i32::MIN <= z <= i32::MAX
    &&& z_fits_nodes(node.children@, child_base, node.visible)
}

pub open spec fn z_values(out: Seq<(usize, i32)>) -> Seq<(usize, int)> {
    out.map_values(|p: (usize, i32)| (p.0, p.1 as int))
}

proof fn lemma_fits_prefix(nodes: Seq<HudNode>, parent_z: Option<i32>, k: int)
    requires
        z_fits_nodes(nodes, parent_z, true),
        0 <= k < nodes.len(),
    ensures
        z_fits_nodes(nodes.take(k), parent_z, true),
        z_fits_node(nodes[k], parent_z),
    decreases nodes.len(),
{
    if k < nodes.len() - 1 {
        assert(nodes.drop_last().take(k) =~= nodes.take(k));
        lemma_fits_prefix(nodes.drop_last(), parent_z, k);
    } else {
        assert(nodes.drop_last() =~= nodes.take(k));
    }
}

fn node_z(parent_z: Option<i32>, z: i32) -> (r: i32)
    requires
        i32::MIN <= effective_z(parent_z, z) <= i32::MAX,
    ensures
        r as int == effective_z(parent_z, z),
{
    match parent_z {
        Some(base) => {
            let clamped = if z < 0 {
                0
            } else if z > 999 {
                999
            } else {
                z
            };
            base + clamped
        },
        None => {
            let wide = (z as i64) * 1000;
            if wide > i32::MAX as i64 {
                i32::MAX
            } else if wide < i32::MIN as i64 {
                i32::MIN
            } else {
                wide as i32
            }
        },
    }
}

fn collect_node(node: &HudNode, out: &mut Vec<(usize, i32)>, parent_z: Option<i32>)
    requires
        z_fits_node(*node, parent_z),
    ensures
        z_values(final(out)@) == z_values(old(out)@) + flatten_node(*node, parent_z),
    decreases *node, 1int,
{
    let z = node_z(parent_z, node.z_index);
    let ghost before = z_values(out@);
    out.push((node.id, z));
    assert(z_values(out@) =~= before + seq![(node.id, z as int)]);
    let child_base = if node.is_group {
        Some(z)
    } else {
        parent_z
    };
    collect_nodes(&node.children, out, child_base, node.visible);
    assert(z_values(out@) =~= before + flatten_node(*node, parent_z));
}

/// Appends the layers of `nodes` in draw order with their effective z values.
pub fn collect_nodes(nodes: &Vec<HudNode>, out: &mut Vec<(usize, i32)>, parent_z: Option<i32>, parent_visible: bool)
    requires
        z_fits_nodes(nodes@, parent_z, parent_visible),
    ensures
        z_values(final(out)@) == z_values(old(out)@) + flatten_nodes(nodes@, parent_z, parent_visible),
    decreases nodes@, 0int,
{
    if !parent_visible {
        assert(z_values(out@) =~= z_values(old(out)@) + flatten_nodes(nodes@, parent_z, parent_visible));
        return;
    }
    let ghost start = z_values(out@);
    assert(nodes@.take(0) =~= Seq::<HudNode>::empty());
    for k in 0..nodes.len()
        invariant
            parent_visible,
            z_fits_nodes(nodes@, parent_z, parent_visible),
            z_values(out@) == start + flatten_nodes(nodes@.take(k as int), parent_z, parent_visible),
    {
        proof {
            lemma_fits_prefix(nodes@, parent_z, k as int);
        }
        assert(nodes@.take(k + 1).drop_last() =~= nodes@.take(k as int));
        assert(nodes@.take(k + 1).last() == nodes@[k as int]);
        collect_node(&nodes[k], out, parent_z);
        assert(z_values(out@) =~= start + flatten_nodes(nodes@.take(k + 1), parent_z, parent_visible));
    }
    assert(nodes@.take(nodes@.len() as int) =~= nodes@);
}

/// The whole HUD tree in draw order: (layer id, effective z) for every layer
/// that is reached.
pub fn hud_draw_order(roots: &Vec<HudNode>) -> (order: Vec<(usize, i32)>)
    requires
        z_fits_nodes(roots@, None, true),
    ensures
        z_values(order@) == flatten_nodes(roots@, None, true),
{
    let mut order: Vec<(usize, i32)> = Vec::new();
    assert(z_values(order@) =~= Seq::<(usize, int)>::empty());
    collect_nodes(roots, &mut order, None, true);
    order
}

/// What a HUD layer draws, by its `type`.
#[derive(Debug, Clone, Copy, PartialEq, Eq, Structural)]
pub enum HudLayerKind {
    Group,
    Rect,
    Line,
    Media,
    Text,
    Bar,
    Sparkline,
    KeyCounter,
    JudgmentCounter,
    KeyPress,
    JudgmentCounterWidget,
    KpsBadge,
    PpBadge,
    KpsGraph,
    HitErrorMeter,
    Unknown,
}

/// The kind of a layer type name: images, GIFs and static icons are media;
/// static and bound text are text; key-column repeaters and key-press widgets
/// are key presses; both hit error meter names are the meter; anything else
/// draws nothing.
pub open spec fn layer_kind(layer_type: Seq<char>) -> HudLayerKind {
    if layer_type == "group"@ {
        HudLayerKind::Group
    } else if layer_type == "shape.rect"@ {
        HudLayerKind::Rect
    } else if layer_type == "shape.line"@ {
        HudLayerKind::Line
    } else if layer_type == "media.image"@ {
        HudLayerKind::Media
    } else if layer_type == "media.gif"@ {
        HudLayerKind::Media
    } else if layer_type == "icon.static"@ {
        HudLayerKind::Media
    } else if layer_type == "text.static"@ {
        HudLayerKind::Text
    } else if layer_type == "text.bound"@ {
        HudLayerKind::Text
    } else if layer_type == "graph.bar"@ {
        HudLayerKind::Bar
    } else if layer_type == "graph.sparkline"@ {
        HudLayerKind::Sparkline
    } else if layer_type == "component.keyCounter"@ {
        HudLayerKind::KeyCounter
    } else if layer_type == "component.judgmentCounter"@ {
        HudLayerKind::JudgmentCounter
    } else if layer_type == "repeater.keyColumns"@ {
        HudLayerKind::KeyPress
    } else if layer_type == "widget.judgmentCounter"@ {
        HudLayerKind::JudgmentCounterWidget
    } else if layer_type == "widget.keyPress"@ {
        HudLayerKind::KeyPress
    } else if layer_type == "widget.kpsCounter"@ {
        HudLayerKind::KpsBadge
    } else if layer_type == "widget.ppCounter"@ {
        HudLayerKind::PpBadge
    } else if layer_type == "widget.kpsGraph"@ {
        HudLayerKind::KpsGraph
    } else if layer_type == "widget.hitErrorMeter"@ {
        HudLayerKind::HitErrorMeter
    } else if layer_type == "component.hitErrorMeter"@ {
        HudLayerKind::HitErrorMeter
    } else {
        HudLayerKind::Unknown
    }
}

pub fn hud_layer_kind(layer_type: &str) -> (k: HudLayerKind)
    ensures
        k == layer_kind(layer_type@),
{
    let t = chars_of(layer_type);
    if chars_equal_str(&t, "group") {
        HudLayerKind::Group
    } else if chars_equal_str(&t, "shape.rect") {
        HudLayerKind::Rect
    } else if chars_equal_str(&t, "shape.line") {
        HudLayerKind::Line
    } else if chars_equal_str(&t, "media.image") {
        HudLayerKind::Media
    } else if chars_equal_str(&t, "media.gif") {
        HudLayerKind::Media
    } else if chars_equal_str(&t, "icon.static") {
        HudLayerKind::Media
    } else if chars_equal_str(&t, "text.static") {
        HudLayerKind::Text
    } else if chars_equal_str(&t, "text.bound") {
        HudLayerKind::Text
    } else if chars_equal_str(&t, "graph.bar") {
        HudLayerKind::Bar
    } else if chars_equal_str(&t, "graph.sparkline") {
        HudLayerKind::Sparkline
    } else if chars_equal_str(&t, "component.keyCounter") {
        HudLayerKind::KeyCounter
    } else if chars_equal_str(&t, "component.judgmentCounter") {
        HudLayerKind::JudgmentCounter
    } else if chars_equal_str(&t, "repeater.keyColumns") {
        HudLayerKind::KeyPress
    } else if chars_equal_str(&t, "widget.judgmentCounter") {
        HudLayerKind::JudgmentCounterWidget
    } else if chars_equal_str(&t, "widget.keyPress") {
        HudLayerKind::KeyPress
    } else if chars_equal_str(&t, "widget.kpsCounter") {
        HudLayerKind::KpsBadge
    } else if chars_equal_str(&t, "widget.ppCounter") {
        HudLayerKind::PpBadge
    } else if chars_equal_str(&t, "widget.kpsGraph") {
        HudLayerKind::KpsGraph
    } else if chars_equal_str(&t, "widget.hitErrorMeter") {
        HudLayerKind::HitErrorMeter
    } else if chars_equal_str(&t, "component.hitErrorMeter") {
        HudLayerKind::HitErrorMeter
    } else {
        HudLayerKind::Unknown
    }
}

/// Where a HUD configuration's layers come from.
#[derive(Debug, Clone, Copy, PartialEq, Eq, Structural)]
pub enum HudRoots {
    /// Nothing is drawn: not a version 4 configuration, or no layers.
    Nothing,
    /// The layer tree.
    Nodes,
    /// The older flat layer list.
    Layers,
}

/// Version 4 configurations are drawn, from their layer tree when it has any
/// nodes and from the flat layer list otherwise.
pub open spec fn roots_of(version: Option<u32>, node_count: nat, layer_count: nat) -> HudRoots {
    if version != Some(4u32) {
        HudRoots::Nothing
    } else if node_count > 0 {
        HudRoots::Nodes
    } else if layer_count > 0 {
        HudRoots::Layers
    } else {
        HudRoots::Nothing
    }
}

pub fn hud_roots(version: Option<u32>, node_count: usize, layer_count: usize) -> (r: HudRoots)
    ensures
        r == roots_of(version, node_count as nat, layer_count as nat),
{
    let v4 = match version {
        Some(v) => v == 4,
        None => false,
    };
    if !v4 {
        HudRoots::Nothing
    } else if node_count > 0 {
        HudRoots::Nodes
    } else if layer_count > 0 {
        HudRoots::Layers
    } else {
        HudRoots::Nothing
    }
}


/// Layer types that name the same thing draw the same thing: images, GIFs and
/// static icons are all media, and no other type is; static and bound text
/// are both text; the key-column repeater and the key-press widget both draw
/// key presses; the widget and component hit error meters are the same meter.
pub proof fn lemma_layer_kind_families(layer_type: Seq<char>)
    ensures
        layer_kind(layer_type) == HudLayerKind::Media <==> (layer_type == "media.image"@ || layer_type
            == "media.gif"@ || layer_type == "icon.static"@),
        layer_kind(layer_type) == HudLayerKind::Text <==> (layer_type == "text.static"@ || layer_type
            == "text.bound"@),
        layer_kind(layer_type) == HudLayerKind::KeyPress <==> (layer_type == "repeater.keyColumns"@
            || layer_type == "widget.keyPress"@),
        layer_kind(layer_type) == HudLayerKind::HitErrorMeter <==> (layer_type == "widget.hitErrorMeter"@
            || layer_type == "component.hitErrorMeter"@),
{
    reveal_strlit("group");
    reveal_strlit("shape.rect");
    reveal_strlit("shape.line");
    reveal_strlit("media.image");
    reveal_strlit("media.gif");
    reveal_strlit("icon.static");
    reveal_strlit("text.static");
    reveal_strlit("text.bound");
    reveal_strlit("graph.bar");
    reveal_strlit("graph.sparkline");
    reveal_strlit("component.keyCounter");
    reveal_strlit("component.judgmentCounter");
    reveal_strlit("repeater.keyColumns");
    reveal_strlit("widget.judgmentCounter");
    reveal_strlit("widget.keyPress");
    reveal_strlit("widget.kpsCounter");
    reveal_strlit("widget.ppCounter");
    reveal_strlit("widget.kpsGraph");
    reveal_strlit("widget.hitErrorMeter");
    reveal_strlit("component.hitErrorMeter");
    if layer_type == "media.image"@ {
        assert("media.image"@.len() != "group"@.len());
        assert("media.image"@.len() != "shape.rect"@.len());
        assert("media.image"@.len() != "shape.line"@.len());
    }
    if layer_type == "media.gif"@ {
        assert("media.gif"@.len() != "group"@.len());
        assert("media.gif"@.len() != "shape.rect"@.len());
        assert("media.gif"@.len() != "shape.line"@.len());
        assert("media.gif"@.len() != "media.image"@.len());
    }
    if layer_type == "icon.static"@ {
        assert("icon.static"@.len() != "group"@.len());
        assert("icon.static"@.len() != "shape.rect"@.len());
        assert("icon.static"@.len() != "shape.line"@.len());
        assert("icon.static"@[0] != "media.image"@[0]);
        assert("icon.static"@.len() != "media.gif"@.len());
    }
    if layer_type == "text.static"@ {
        assert("text.static"@.len() != "group"@.len());
        assert("text.static"@.len() != "shape.rect"@.len());
        assert("text.static"@.len() != "shape.line"@.len());
        assert("text.static"@[0] != "media.image"@[0]);
        assert("text.static"@.len() != "media.gif"@.len());
        assert("text.static"@[0] != "icon.static"@[0]);
    }
    if layer_type == "text.bound"@ {
        assert("text.bound"@.len() != "group"@.len());
        assert("text.bound"@[0] != "shape.rect"@[0]);
        assert("text.bound"@[0] != "shape.line"@[0]);
        assert("text.bound"@.len() != "media.image"@.len());
        assert("text.bound"@.len() != "media.gif"@.len());
        assert("text.bound"@.len() != "icon.static"@.len());
        assert("text.bound"@.len() != "text.static"@.len());
    }
    if layer_type == "repeater.keyColumns"@ {
        assert("repeater.keyColumns"@.len() != "group"@.len());
        assert("repeater.keyColumns"@.len() != "shape.rect"@.len());
        assert("repeater.keyColumns"@.len() != "shape.line"@.len());
        assert("repeater.keyColumns"@.len() != "media.image"@.len());
        assert("repeater.keyColumns"@.len() != "media.gif"@.len());
        assert("repeater.keyColumns"@.len() != "icon.static"@.len());
        assert("repeater.keyColumns"@.len() != "text.static"@.len());
        assert("repeater.keyColumns"@.len() != "text.bound"@.len());
        assert("repeater.keyColumns"@.len() != "graph.bar"@.len());
        assert("repeater.keyColumns"@.len() != "graph.sparkline"@.len());
        assert("repeater.keyColumns"@.len() != "component.keyCounter"@.len());
        assert("repeater.keyColumns"@.len() != "component.judgmentCounter"@.len());
    }
    if layer_type == "widget.keyPress"@ {
        assert("widget.keyPress"@.len() != "group"@.len());
        assert("widget.keyPress"@.len() != "shape.rect"@.len());
        assert("widget.keyPress"@.len() != "shape.line"@.len());
        assert("widget.keyPress"@.len() != "media.image"@.len());
        assert("widget.keyPress"@.len() != "media.gif"@.len());
        assert("widget.keyPress"@.len() != "icon.static"@.len());
        assert("widget.keyPress"@.len() != "text.static"@.len());
        assert("widget.keyPress"@.len() != "text.bound"@.len());
        assert("widget.keyPress"@.len() != "graph.bar"@.len());
        assert("widget.keyPress"@[0] != "graph.sparkline"@[0]);
        assert("widget.keyPress"@.len() != "component.keyCounter"@.len());
        assert("widget.keyPress"@.len() != "component.judgmentCounter"@.len());
        assert("widget.keyPress"@.len() != "repeater.keyColumns"@.len());
        assert("widget.keyPress"@.len() != "widget.judgmentCounter"@.len());
    }
    if layer_type == "widget.hitErrorMeter"@ {
        assert("widget.hitErrorMeter"@.len() != "group"@.len());
        assert("widget.hitErrorMeter"@.len() != "shape.rect"@.len());
        assert("widget.hitErrorMeter"@.len() != "shape.line"@.len());
        assert("widget.hitErrorMeter"@.len() != "media.image"@.len());
        assert("widget.hitErrorMeter"@.len() != "media.gif"@.len());
        assert("widget.hitErrorMeter"@.len() != "icon.static"@.len());
        assert("widget.hitErrorMeter"@.len() != "text.static"@.len());
        assert("widget.hitErrorMeter"@.len() != "text.bound"@.len());
        assert("widget.hitErrorMeter"@.len() != "graph.bar"@.len());
        assert("widget.hitErrorMeter"@.len() != "graph.sparkline"@.len());
        assert("widget.hitErrorMeter"@[0] != "component.keyCounter"@[0]);
        assert("widget.hitErrorMeter"@.len() != "component.judgmentCounter"@.len());
        assert("widget.hitErrorMeter"@.len() != "repeater.keyColumns"@.len());
        assert("widget.hitErrorMeter"@.len() != "widget.judgmentCounter"@.len());
        assert("widget.hitErrorMeter"@.len() != "widget.keyPress"@.len());
        assert("widget.hitErrorMeter"@.len() != "widget.kpsCounter"@.len());
        assert("widget.hitErrorMeter"@.len() != "widget.ppCounter"@.len());
        assert("widget.hitErrorMeter"@.len() != "widget.kpsGraph"@.len());
    }
    if layer_type == "component.hitErrorMeter"@ {
        assert("component.hitErrorMeter"@.len() != "group"@.len());
        assert("component.hitErrorMeter"@.len() != "shape.rect"@.len());
        assert("component.hitErrorMeter"@.len() != "shape.line"@.len());
        assert("component.hitErrorMeter"@.len() != "media.image"@.len());
        assert("component.hitErrorMeter"@.len() != "media.gif"@.len());
        assert("component.hitErrorMeter"@.len() != "icon.static"@.len());
        assert("component.hitErrorMeter"@.len() != "text.static"@.len());
        assert("component.hitErrorMeter"@.len() != "text.bound"@.len());
        assert("component.hitErrorMeter"@.len() != "graph.bar"@.len());
        assert("component.hitErrorMeter"@.len() != "graph.sparkline"@.len());
        assert("component.hitErrorMeter"@.len() != "component.keyCounter"@.len());
        assert("component.hitErrorMeter"@.len() != "component.judgmentCounter"@.len());
        assert("component.hitErrorMeter"@.len() != "repeater.keyColumns"@.len());
        assert("component.hitErrorMeter"@.len() != "widget.judgmentCounter"@.len());
        assert("component.hitErrorMeter"@.len() != "widget.keyPress"@.len());
        assert("component.hitErrorMeter"@.len() != "widget.kpsCounter"@.len());
        assert("component.hitErrorMeter"@.len() != "widget.ppCounter"@.len());
        assert("component.hitErrorMeter"@.len() != "widget.kpsGraph"@.len());
        assert("component.hitErrorMeter"@.len() != "widget.hitErrorMeter"@.len());
    }
}


/// Z values of the HUD tree: inside a group a layer's z is the group's plus
/// its own kept to 0..=999, so the group's children stay within the thousand
/// values from the group's own z, in the order of their own z; at the top a
/// layer's z is a thousand times its own (saturating at the ends of `i32`),
/// so top-level layers keep their order and each has a thousand values to itself.
pub proof fn lemma_hud_z_ranges(base: i32, z1: i32, z2: i32)
    ensures
        base <= effective_z(Some(base), z1) <= base + 999,
        z1 <= z2 ==> effective_z(Some(base), z1) <= effective_z(Some(base), z2),
        0 <= z1 < z2 <= 999 ==> effective_z(Some(base), z1) < effective_z(Some(base), z2),
        z1 <= z2 ==> effective_z(None, z1) <= effective_z(None, z2),
        -2147483 <= z1 <= 2147483 ==> effective_z(None, z1) == z1 * 1000,
        (-2147483 <= z1 && z1 < z2 && z2 <= 2147483) ==> effective_z(None, z1) + 1000 <= effective_z(None, z2),
{
    if z1 <= z2 {
        assert(z1 * 1000 <= z2 * 1000);
    }
}

} // verus!
