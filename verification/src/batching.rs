//! Turning planned draw commands into GPU batches: draw order by z, runs of
//! commands that share a texture, sampler and blend mode, and the tiles of a
//! long-note body.
use vstd::prelude::*;
use crate::gpu::{SpriteBlendMode, TextureSampling};
use crate::sorting::{
    SortKey, stable_sort, stable_sorted, keys_sorted, with_key, lemma_stable_sorted,
    lemma_stable_sorted_keeps_order,
};
use crate::text::{chars_of, has_prefix, starts_with_chars};

verus! {

/// A draw command's position in the plan and its z layer.
#[derive(Debug, Clone, Copy)]
pub struct ZEntry {
    pub index: usize,
    pub z: i32,
}

impl SortKey for ZEntry {
    open spec fn sort_key(&self) -> int {
        self.z as int
    }

    fn key(&self) -> (k: i128) {
        self.z as i128
    }
}

pub open spec fn z_entries(z_orders: Seq<i32>) -> Seq<ZEntry> {
    Seq::new(z_orders.len(), |i: int| ZEntry { index: i as usize, z: z_orders[i] })
}

/// The plan's commands in draw order: by z, and in plan order within a z.
pub open spec fn draw_order(z_orders: Seq<i32>) -> Seq<usize> {
    stable_sorted(z_entries(z_orders)).map_values(|e: ZEntry| e.index)
}

pub fn render_order(z_orders: &[i32]) -> (order: Vec<usize>)
    ensures
        order@ == draw_order(z_orders@),
{
    let mut entries: Vec<ZEntry> = Vec::new();
    for i in 0..z_orders.len()
        invariant
            entries@ == z_entries(z_orders@).take(i as int),
    {
        entries.push(ZEntry { index: i, z: z_orders[i] });
        assert(entries@ =~= z_entries(z_orders@).take(i + 1));
    }
    assert(entries@ =~= z_entries(z_orders@));
    stable_sort(&mut entries);
    let mut order: Vec<usize> = Vec::new();
    for k in 0..entries.len()
        invariant
            order@ == entries@.take(k as int).map_values(|e: ZEntry| e.index),
    {
        order.push(entries[k].index);
        assert(order@ =~= entries@.take(k + 1).map_values(|e: ZEntry| e.index));
    }
    assert(entries@.take(entries@.len() as int) =~= entries@);
    order
}

/// Commands are drawn by z layer, lowest first; the draw order holds every
/// command once; and within one z layer commands keep their plan order.
pub proof fn lemma_draw_order_by_z(z_orders: Seq<i32>, z: i32)
    ensures
        keys_sorted(stable_sorted(z_entries(z_orders))),
        stable_sorted(z_entries(z_orders)).to_multiset() == z_entries(z_orders).to_multiset(),
        with_key(stable_sorted(z_entries(z_orders)), z as int) == with_key(z_entries(z_orders), z as int),
        draw_order(z_orders).len() == z_orders.len(),
{
    lemma_stable_sorted(z_entries(z_orders));
    lemma_stable_sorted_keeps_order(z_entries(z_orders), z as int);
}

/// What a batch is drawn with.
#[derive(Debug, Clone, Copy, PartialEq, Eq, Structural)]
pub struct BatchKey {
    pub texture: usize,
    pub sampling: TextureSampling,
    pub blend: SpriteBlendMode,
}

/// Grouping so far: the runs closed, the open run's key, where it starts, how
/// many instances it has, and how many instances were seen in all.
pub struct RunState {
    pub runs: Seq<(BatchKey, nat, nat)>,
    pub current: Option<BatchKey>,
    pub start: nat,
    pub count: nat,
    pub total: nat,
}

/// The open run, as a closed run when it has instances.
pub open spec fn open_run(s: RunState) -> Seq<(BatchKey, nat, nat)> {
    match s.current {
        Some(k) => if s.count > 0 {
            seq![(k, s.start, s.count)]
        } else {
            seq![]
        },
        None => seq![],
    }
}

/// Commands in draw order, each with its key (none when its texture is not
/// loaded, and the command is skipped) and its number of instances. A command
/// with another key than the open run closes that run and opens its own, even
/// when it adds no instance.
pub open spec fn run_state(items: Seq<(Option<BatchKey>, usize)>) -> RunState
    decreases items.len(),
{
    if items.len() == 0 {
        RunState { runs: seq![], current: None, start: 0, count: 0, total: 0 }
    } else {
        let s = run_state(items.drop_last());
        let (key, n) = items.last();
        match key {
            None => s,
            Some(k) => if s.current == Some(k) {
                RunState { count: s.count + n as nat, total: s.total + n as nat, ..s }
            } else {
                RunState {
                    runs: s.runs + open_run(s),
                    current: Some(k),
                    start: s.total,
                    count: n as nat,
                    total: s.total + n as nat,
                }
            },
        }
    }
}

/// The batches: (key, first instance, instance count), empty runs dropped.
pub open spec fn batch_runs(items: Seq<(Option<BatchKey>, usize)>) -> Seq<(BatchKey, nat, nat)> {
    run_state(items).runs + open_run(run_state(items))
}

pub open spec fn runs_view(v: Seq<(BatchKey, usize, usize)>) -> Seq<(BatchKey, nat, nat)> {
    v.map_values(|r: (BatchKey, usize, usize)| (r.0, r.1 as nat, r.2 as nat))
}

/// The instance counts add up without overflowing `usize`.
pub open spec fn total_instances(items: Seq<(Option<BatchKey>, usize)>) -> nat {
    run_state(items).total
}

proof fn lemma_total_grows(items: Seq<(Option<BatchKey>, usize)>, k: int)
    requires
        0 <= k <= items.len(),
    ensures
        run_state(items.take(k)).total <= run_state(items).total,
        run_state(items.take(k)).count <= run_state(items.take(k)).total,
        run_state(items.take(k)).start + run_state(items.take(k)).count == run_state(items.take(k)).total,
    decreases items.len(),
{
    if items.len() > 0 {
        if k < items.len() {
            assert(items.drop_last().take(k) =~= items.take(k));
            lemma_total_grows(items.drop_last(), k);
        } else {
            assert(items.take(k) =~= items);
            if items.len() > 0 {
                lemma_total_grows(items.drop_last(), items.len() - 1);
                assert(items.drop_last().take(items.len() - 1) =~= items.drop_last());
            }
        }
    }
}

/// Runs that tile `[0, end)`: each non-empty, each starting where the one
/// before it ends, the first at 0.
pub open spec fn tiles_instances(runs: Seq<(BatchKey, nat, nat)>, end: nat) -> bool {
    &&& forall|k: int| 0 <= k < runs.len() ==> #[trigger] runs[k].2 > 0
    &&& forall|k: int| 0 <= k < runs.len() - 1 ==> #[trigger] runs[k].1 + runs[k].2 == runs[k + 1].1
    &&& runs.len() > 0 ==> runs[0].1 == 0
    &&& runs.len() > 0 ==> runs.last().1 + runs.last().2 == end
    &&& runs.len() == 0 ==> end == 0
}

proof fn lemma_run_state_tiles(items: Seq<(Option<BatchKey>, usize)>)
    ensures
        ({
            let s = run_state(items);
            &&& tiles_instances(s.runs, s.start)
            &&& s.start + s.count == s.total
            &&& s.current is None ==> s.count == 0 && s.runs.len() == 0 && s.start == 0
        }),
    decreases items.len(),
{
    if items.len() > 0 {
        let prev = run_state(items.drop_last());
        lemma_run_state_tiles(items.drop_last());
        let s = run_state(items);
        if s.runs != prev.runs {
            let closed = open_run(prev);
            assert(s.runs == prev.runs + closed);
            if closed.len() > 0 {
                assert(closed.len() == 1);
                let r = s.runs;
                assert forall|k: int| 0 <= k < r.len() implies #[trigger] r[k].2 > 0 by {
                    if k < prev.runs.len() {
                        assert(r[k] == prev.runs[k]);
                    }
                }
                assert forall|k: int| 0 <= k < r.len() - 1 implies #[trigger] r[k].1 + r[k].2 == r[k
                    + 1].1 by {
                    if k + 1 < prev.runs.len() {
                        assert(r[k] == prev.runs[k]);
                        assert(r[k + 1] == prev.runs[k + 1]);
                    } else {
                        assert(r[k + 1] == closed[0]);
                        assert(r[k] == prev.runs.last());
                    }
                }
                if prev.runs.len() > 0 {
                    assert(r[0] == prev.runs[0]);
                }
            } else {
                assert(s.runs =~= prev.runs);
            }
        }
    }
}

/// The batches split the drawn instances into consecutive non-empty runs, in
/// draw order, that together cover every instance.
pub proof fn lemma_batches_tile_instances(items: Seq<(Option<BatchKey>, usize)>)
    ensures
        tiles_instances(batch_runs(items), total_instances(items)),
{
    let s = run_state(items);
    lemma_run_state_tiles(items);
    let closed = open_run(s);
    let r = batch_runs(items);
    assert(r == s.runs + closed);
    if closed.len() > 0 {
        assert forall|k: int| 0 <= k < r.len() implies #[trigger] r[k].2 > 0 by {
            if k < s.runs.len() {
                assert(r[k] == s.runs[k]);
            }
        }
        assert forall|k: int| 0 <= k < r.len() - 1 implies #[trigger] r[k].1 + r[k].2 == r[k + 1].1 by {
            if k + 1 < s.runs.len() {
                assert(r[k] == s.runs[k]);
                assert(r[k + 1] == s.runs[k + 1]);
            } else {
                assert(r[k + 1] == closed[0]);
                assert(r[k] == s.runs.last());
            }
        }
        if s.runs.len() > 0 {
            assert(r[0] == s.runs[0]);
        }
    } else {
        assert(r =~= s.runs);
    }
}

/// Groups commands into batches (see `batch_runs`).
pub fn group_runs(items: &[(Option<BatchKey>, usize)]) -> (runs: Vec<(BatchKey, usize, usize)>)
    requires
        total_instances(items@) <= usize::MAX,
    ensures
        runs_view(runs@) == batch_runs(items@),
{
    let mut runs: Vec<(BatchKey, usize, usize)> = Vec::new();
    let mut current: Option<BatchKey> = None;
    let mut start: usize = 0;
    let mut count: usize = 0;
    let mut total: usize = 0;
    for i in 0..items.len()
        invariant
            total_instances(items@) <= usize::MAX,
            ({
                let s = run_state(items@.take(i as int));
                &&& runs_view(runs@) == s.runs
                &&& current == s.current
                &&& start == s.start
                &&& count == s.count
                &&& total == s.total
            }),
    {
        proof {
            lemma_total_grows(items@, i + 1);
        }
        assert(items@.take(i + 1).drop_last() =~= items@.take(i as int));
        assert(items@.take(i + 1).last() == items@[i as int]);
        let (key, n) = items[i];
        match key {
            None => {},
            Some(k) => {
                if current == Some(k) {
                    count = count + n;
                    total = total + n;
                } else {
                    let ghost before = runs_view(runs@);
                    if let Some(c) = current {
                        if count > 0 {
                            runs.push((c, start, count));
                        }
                    }
                    assert(runs_view(runs@) =~= before + open_run(run_state(items@.take(i as int))));
                    current = Some(k);
                    start = total;
                    count = n;
                    total = total + n;
                }
            },
        }
    }
    assert(items@.take(items@.len() as int) =~= items@);
    let ghost before = runs_view(runs@);
    if let Some(c) = current {
        if count > 0 {
            runs.push((c, start, count));
        }
    }
    assert(runs_view(runs@) =~= before + open_run(run_state(items@)));
    runs
}

// ---------------------------------------------------------------------------
// Long-note body tiles.

/// One tile of a long-note body: where it is drawn, its drawn height, and how
/// many pixels of the tile's top are cut off above the body.
#[derive(Debug, Clone, Copy, PartialEq, Eq, Structural)]
pub struct BodyTile {
    pub draw_y: i32,
    pub draw_h: u32,
    pub skip: i32,
}

/// `a % b` for `b > 0` rounded toward zero, as `%` on integers in Rust.
pub open spec fn trunc_rem(a: int, b: int) -> int {
    if a >= 0 {
        a % b
    } else {
        -((-a) % b)
    }
}

/// Tiles of height `t` from `y` on, down to `bottom`, cut to `[top, bottom)`;
/// tiles with nothing left are skipped.
pub open spec fn tiles_from(y: int, top: int, bottom: int, t: nat) -> Seq<BodyTile>
    decreases (if y < bottom {
        bottom - y
    } else {
        0
    }),
{
    if t == 0 || y >= bottom {
        seq![]
    } else {
        let draw_y = if y >= top {
            y
        } else {
            top
        };
        let end = if y + t <= bottom {
            y + t
        } else {
            bottom
        };
        let rest = tiles_from(y + t, top, bottom, t);
        if end - draw_y > 0 {
            seq![
                BodyTile {
                    draw_y: draw_y as i32,
                    draw_h: (end - draw_y) as u32,
                    skip: if y < top {
                        (top - y) as i32
                    } else {
                        0
                    },
                },
            ] + rest
        } else {
            rest
        }
    }
}

/// The tiles of a body from `top_y` to `bottom_y`: tiles of `tile_h` pixels (at
/// least one), the first shifted up by `phase` (taken as `i32`) modulo the tile
/// height; none for an empty body.
pub open spec fn body_tiles(top_y: i32, bottom_y: i32, tile_h: u32, phase: u32) -> Seq<BodyTile> {
    let t: int = if tile_h >= 1 {
        tile_h as int
    } else {
        1
    };
    if bottom_y - top_y <= 0 {
        seq![]
    } else {
        tiles_from(top_y - trunc_rem(phase as i32 as int, t), top_y as int, bottom_y as int, t as nat)
    }
}

/// The arithmetic of tiling stays inside `i32` (the tile height must be a
/// positive `i32`, and the last tile's end must fit).
pub open spec fn tiles_fit(top_y: i32, bottom_y: i32, tile_h: u32, phase: u32) -> bool {
    let t: int = if tile_h >= 1 {
        tile_h as int
    } else {
        1
    };
    bottom_y - top_y > 0 ==> {
        &&& t <= i32::MAX
        &&& i32::MIN <= top_y - trunc_rem(phase as i32 as int, t)
        &&& bottom_y + t <= i32::MAX + 1
    }
}

proof fn lemma_tiles_step(y: int, top: int, bottom: int, t: nat)
    requires
        t > 0,
        y < bottom,
    ensures
        tiles_from(y, top, bottom, t) == (if (if y + t <= bottom { y + t } else { bottom }) - (if y
            >= top { y } else { top }) > 0 {
            seq![
                BodyTile {
                    draw_y: (if y >= top { y } else { top }) as i32,
                    draw_h: ((if y + t <= bottom { y + t } else { bottom }) - (if y >= top { y } else { top })) as u32,
                    skip: if y < top { (top - y) as i32 } else { 0 },
                },
            ] + tiles_from(y + t, top, bottom, t)
        } else {
            tiles_from(y + t, top, bottom, t)
        }),
{
}

pub fn ln_body_tiles(top_y: i32, bottom_y: i32, tile_h: u32, phase: u32) -> (tiles: Vec<BodyTile>)
    requires
        tiles_fit(top_y, bottom_y, tile_h, phase),
    ensures
        tiles@ == body_tiles(top_y, bottom_y, tile_h, phase),
{
    let mut tiles: Vec<BodyTile> = Vec::new();
    if bottom_y <= top_y {
        return tiles;
    }
    let t: i32 = if tile_h >= 1 {
        tile_h as i32
    } else {
        1
    };
    let p = phase as i32;
    let rem: i32 = if p >= 0 {
        p % t
    } else {
        let pos: i64 = 0 - (p as i64);
        (0 - pos % (t as i64)) as i32
    };
    assert(rem == trunc_rem(p as int, t as int));
    let mut y: i32 = top_y - rem;
    let ghost y0 = y as int;
    while y < bottom_y
        invariant
            t >= 1,
            bottom_y as int + t as int <= i32::MAX + 1,
            y as int > top_y as int - t as int,
            tiles@ + tiles_from(y as int, top_y as int, bottom_y as int, t as nat) == tiles_from(
                y0,
                top_y as int,
                bottom_y as int,
                t as nat,
            ),
        decreases (if y < bottom_y {
            bottom_y as int - y as int
        } else {
            0
        }),
    {
        proof {
            lemma_tiles_step(y as int, top_y as int, bottom_y as int, t as nat);
        }
        let draw_y = if y >= top_y {
            y
        } else {
            top_y
        };
        let end = if y + t <= bottom_y {
            y + t
        } else {
            bottom_y
        };
        if end - draw_y > 0 {
            let skip = if y < top_y {
                top_y - y
            } else {
                0
            };
            let ghost before = tiles@;
            tiles.push(BodyTile { draw_y, draw_h: (end - draw_y) as u32, skip });
            assert(before + tiles_from(y as int, top_y as int, bottom_y as int, t as nat) =~= tiles@
                + tiles_from(y + t, top_y as int, bottom_y as int, t as nat));
        }
        y = y + t;
    }
    assert(tiles_from(y as int, top_y as int, bottom_y as int, t as nat) =~= Seq::<BodyTile>::empty());
    assert(tiles@ =~= tiles@ + Seq::<BodyTile>::empty());
    tiles
}

// ---------------------------------------------------------------------------
// Samplers.

/// HUD and score-bar textures are always sampled smoothly.
pub open spec fn always_linear(texture_id: Seq<char>) -> bool {
    has_prefix(texture_id, "scorebar-"@) || has_prefix(texture_id, "hud_"@)
}

/// A texture is sampled smoothly when it is a HUD texture or listed for smooth
/// sampling; pixel-sharp otherwise.
pub open spec fn texture_sampling(texture_id: Seq<char>, listed_linear: bool) -> TextureSampling {
    if always_linear(texture_id) || listed_linear {
        TextureSampling::Linear
    } else {
        TextureSampling::Nearest
    }
}

fn hud_texture(texture_id: &str) -> (b: bool)
    ensures
        b == always_linear(texture_id@),
{
    let id = chars_of(texture_id);
    starts_with_chars(&id, &chars_of("scorebar-")) || starts_with_chars(&id, &chars_of("hud_"))
}

pub fn texture_sampling_for_texture(texture_id: &str, listed_linear: bool) -> (s: TextureSampling)
    ensures
        s == texture_sampling(texture_id@, listed_linear),
{
    if hud_texture(texture_id) || listed_linear {
        TextureSampling::Linear
    } else {
        TextureSampling::Nearest
    }
}

/// For a sprite, a listed texture drawn at exactly its region's size stays
/// pixel-sharp.
pub open spec fn sprite_sampling(texture_id: Seq<char>, listed_linear: bool, exact_region: bool) -> TextureSampling {
    if always_linear(texture_id) {
        TextureSampling::Linear
    } else if !listed_linear || exact_region {
        TextureSampling::Nearest
    } else {
        TextureSampling::Linear
    }
}

pub fn texture_sampling_for_sprite(texture_id: &str, listed_linear: bool, exact_region: bool) -> (s: TextureSampling)
    ensures
        s == sprite_sampling(texture_id@, listed_linear, exact_region),
{
    if hud_texture(texture_id) {
        return TextureSampling::Linear;
    }
    if !listed_linear {
        return TextureSampling::Nearest;
    }
    if exact_region {
        TextureSampling::Nearest
    } else {
        TextureSampling::Linear
    }
}


/// HUD and score-bar textures are always smooth. Any other texture is smooth
/// exactly when it is listed, and a sprite of it is too unless it is drawn at
/// exactly its region's size, where it stays pixel-sharp.
pub proof fn lemma_sampling_choices(texture_id: Seq<char>, listed_linear: bool, exact_region: bool)
    ensures
        always_linear(texture_id) ==> texture_sampling(texture_id, listed_linear) == TextureSampling::Linear
            && sprite_sampling(texture_id, listed_linear, exact_region) == TextureSampling::Linear,
        !always_linear(texture_id) ==> (texture_sampling(texture_id, listed_linear) == TextureSampling::Linear
            <==> listed_linear),
        !always_linear(texture_id) ==> (sprite_sampling(texture_id, listed_linear, exact_region)
            == TextureSampling::Linear <==> listed_linear && !exact_region),
        sprite_sampling(texture_id, listed_linear, false) == texture_sampling(texture_id, listed_linear),
        has_prefix("hud_"@ + texture_id, "hud_"@) && always_linear("hud_"@ + texture_id),
        always_linear("scorebar-"@ + texture_id),
{
    reveal_strlit("hud_");
    reveal_strlit("scorebar-");
    assert(("hud_"@ + texture_id).take(4) =~= "hud_"@);
    assert(("scorebar-"@ + texture_id).take(9) =~= "scorebar-"@);
}

} // verus!
