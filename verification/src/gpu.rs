//! GPU-side decisions that do not need the device: adapter preference, readback
//! row layout, instance-buffer growth, batch clipping and in-order frame delivery.
use vstd::prelude::*;
use std::collections::{BTreeMap, VecDeque};
use crate::text::{
    chars_of, trim_white_space, to_ascii_lower, trimmed, ascii_lower_seq, chars_equal_str,
    contains_chars, contains_seq, push_str, string_from_chars,
};

verus! {

/// Which kind of adapter to try first.
#[derive(Debug, Clone, Copy, PartialEq, Eq, Structural)]
pub enum GpuPreference {
    High,
    Low,
    Auto,
}

/// How a preference is written: trimmed, in any ASCII case.
pub open spec fn preference_named(s: Seq<char>) -> Option<GpuPreference> {
    let key = ascii_lower_seq(trimmed(s));
    if key == "high"@ {
        Some(GpuPreference::High)
    } else if key == "low"@ {
        Some(GpuPreference::Low)
    } else if key == "auto"@ {
        Some(GpuPreference::Auto)
    } else {
        None
    }
}

/// Parses a GPU preference (`high`, `low` or `auto`); anything else is an error
/// naming the input.
pub fn parse_gpu_preference(s: &str) -> (r: Result<GpuPreference, String>)
    ensures
        match r {
            Ok(p) => preference_named(s@) == Some(p),
            Err(msg) => preference_named(s@) is None && msg@ == "unknown gpu preference: "@ + s@,
        },
{
    let raw = chars_of(s);
    let key = to_ascii_lower(&trim_white_space(&raw));
    if chars_equal_str(&key, "high") {
        Ok(GpuPreference::High)
    } else if chars_equal_str(&key, "low") {
        Ok(GpuPreference::Low)
    } else if chars_equal_str(&key, "auto") {
        Ok(GpuPreference::Auto)
    } else {
        let mut msg: Vec<char> = Vec::new();
        push_str(&mut msg, "unknown gpu preference: ");
        push_str(&mut msg, s);
        Err(string_from_chars(&msg))
    }
}

impl std::str::FromStr for GpuPreference {
    type Err = String;

    fn from_str(s: &str) -> (r: Result<Self, Self::Err>)
        ensures
            match r {
                Ok(p) => preference_named(s@) == Some(p),
                Err(msg) => preference_named(s@) is None && msg@ == "unknown gpu preference: "@ + s@,
            },
    {
        parse_gpu_preference(s)
    }
}

#[derive(Debug)]
pub enum GpuError {
    NoAdapter,
    DeviceRequest(String),
}

impl GpuError {
    /// The error's message.
    pub fn message(&self) -> (m: String)
        ensures
            m@ == gpu_error_text(*self),
    {
        match self {
            GpuError::NoAdapter => String::from_str("No suitable GPU adapter found"),
            GpuError::DeviceRequest(e) => {
                let mut out: Vec<char> = Vec::new();
                push_str(&mut out, "Failed to create device: ");
                push_str(&mut out, e.as_str());
                string_from_chars(&out)
            },
        }
    }
}

pub open spec fn gpu_error_text(e: GpuError) -> Seq<char> {
    match e {
        GpuError::NoAdapter => "No suitable GPU adapter found"@,
        GpuError::DeviceRequest(s) => "Failed to create device: "@ + s@,
    }
}

/// How a texture is sampled.
#[derive(Debug, Clone, Copy, PartialEq, Eq, Hash, Structural)]
pub enum TextureSampling {
    Nearest,
    Linear,
}

/// How a sprite is blended onto what is below it.
#[derive(Debug, Clone, Copy, PartialEq, Eq, Hash, Default, Structural)]
pub enum SpriteBlendMode {
    #[default]
    Alpha,
    Additive,
}

/// A run of `count` instances from `start`, all drawn with one texture.
pub struct SpriteBatch {
    pub texture_key: usize,
    pub start: u32,
    pub count: u32,
}

/// Sprite instances gathered into per-texture runs: each batch is a texture key,
/// the index of its first instance and its instance count.
pub struct BatchBuilder<T> {
    pub instances: Vec<T>,
    pub batches: Vec<(usize, u32, u32)>,
}

impl<T: Copy> BatchBuilder<T> {
    pub fn new() -> (b: Self)
        ensures
            b.instances@.len() == 0,
            b.batches@.len() == 0,
    {
        BatchBuilder { instances: Vec::new(), batches: Vec::new() }
    }

    pub fn clear(&mut self)
        ensures
            final(self).instances@.len() == 0,
            final(self).batches@.len() == 0,
    {
        self.instances.clear();
        self.batches.clear();
    }

    /// Appends a run of instances drawn with one texture; an empty run adds
    /// nothing. Start and count are stored as `u32` (wrapping past `u32::MAX`).
    pub fn add_batch(&mut self, texture_key: usize, sprites: &[T])
        ensures
            sprites@.len() == 0 ==> *final(self) == *old(self),
            sprites@.len() > 0 ==> final(self).instances@ == old(self).instances@ + sprites@,
            sprites@.len() > 0 ==> final(self).batches@ == old(self).batches@.push(
                (texture_key, old(self).instances.len() as u32, sprites.len() as u32),
            ),
    {
        if sprites.len() == 0 {
            return;
        }
        let start = self.instances.len() as u32;
        let count = sprites.len() as u32;
        let ghost before = self.instances@;
        for k in 0..sprites.len()
            invariant
                self.instances@ == before + sprites@.take(k as int),
                self.batches@ == old(self).batches@,
        {
            self.instances.push(sprites[k]);
            assert(self.instances@ =~= before + sprites@.take(k + 1));
        }
        assert(sprites@.take(sprites@.len() as int) =~= sprites@);
        self.batches.push((texture_key, start, count));
    }

    pub fn instance_count(&self) -> (n: usize)
        ensures
            n == self.instances@.len(),
    {
        self.instances.len()
    }
}

// ---------------------------------------------------------------------------
// Readback buffer ring.

/// What a frame readback buffer is doing.
#[derive(Debug, Clone, Copy, PartialEq, Eq, Structural)]
pub enum BufferState {
    Available,
    Rendering,
    Reading,
}

/// The position after `pos` in a ring of `n` buffers.
pub open spec fn ring_next(pos: nat, n: nat) -> nat {
    if pos + 1 >= n {
        0
    } else {
        pos + 1
    }
}

/// Looking at up to `remaining` buffers round-robin from `pos`: the first
/// available one and the position after it, or nothing and `current`.
pub open spec fn scan_available(states: Seq<BufferState>, pos: nat, remaining: nat, current: nat) -> (Option<nat>, nat)
    decreases remaining,
{
    if remaining == 0 || pos >= states.len() {
        (None, current)
    } else if states[pos as int] == BufferState::Available {
        (Some(pos), ring_next(pos, states.len()))
    } else {
        scan_available(states, ring_next(pos, states.len()), (remaining - 1) as nat, current)
    }
}

/// The next buffer to render into: the first available one going once round
/// the ring from `current`, and where the next search starts (just after it);
/// when none is available the search position stays at `current`.
pub fn next_available_buffer(states: &[BufferState], current: usize) -> (r: (Option<usize>, usize))
    requires
        current < states@.len(),
    ensures
        (match r.0 {
            Some(i) => Some(i as nat),
            None => None,
        }, r.1 as nat) == scan_available(states@, current as nat, states@.len(), current as nat),
{
    let n = states.len();
    let mut pos = current;
    let mut k: usize = 0;
    while k < n
        invariant
            n == states@.len(),
            k <= n,
            pos < n,
            scan_available(states@, pos as nat, (n - k) as nat, current as nat) == scan_available(
                states@,
                current as nat,
                states@.len(),
                current as nat,
            ),
        decreases n - k,
    {
        let idx = pos;
        pos = if pos + 1 >= n {
            0
        } else {
            pos + 1
        };
        if states[idx] == BufferState::Available {
            return (Some(idx), pos);
        }
        k = k + 1;
    }
    (None, current)
}

// ---------------------------------------------------------------------------
// Readback rows.

/// Bytes per row of an RGBA readback, rounded up to the 256-byte copy alignment.
pub open spec fn padded_row_bytes(width: nat) -> nat {
    (((width * 4 + 255) / 256) * 256) as nat
}

pub fn padded_bytes_per_row(width: u32) -> (b: u32)
    requires
        padded_row_bytes(width as nat) <= u32::MAX,
    ensures
        b as nat == padded_row_bytes(width as nat),
        b >= width * 4,
        b % 256 == 0,
{
    let unpadded = width as u64 * 4;
    let padded = (unpadded + 255) / 256 * 256;
    padded as u32
}

/// Copies a padded readback into tightly packed RGBA rows: row `r` of the frame
/// gets the first `4 * width` bytes of row `r` of the readback.
pub fn unpad_readback_rows(
    frame: &mut Vec<u8>,
    data: &[u8],
    width: u32,
    height: u32,
    padded_bytes_per_row: u32,
)
    requires
        padded_bytes_per_row >= width * 4,
        old(frame)@.len() == width * 4 * height,
        height > 0 ==> data@.len() >= (height - 1) * padded_bytes_per_row + width * 4,
        old(frame)@.len() <= usize::MAX,
        data@.len() <= usize::MAX,
    ensures
        final(frame)@.len() == old(frame)@.len(),
        forall|r: int, x: int|
            0 <= r < height && 0 <= x < width * 4 ==> #[trigger] final(frame)@[r * (width * 4) + x]
                == data@[r * padded_bytes_per_row + x],
{
    let row_bytes = width as usize * 4;
    let padded = padded_bytes_per_row as usize;
    let h = height as usize;
    let mut row: usize = 0;
    while row < h
        invariant
            row <= h == height,
            row_bytes == width * 4,
            padded == padded_bytes_per_row,
            padded >= row_bytes,
            frame@.len() == row_bytes * h,
            row_bytes * h <= usize::MAX,
            data@.len() <= usize::MAX,
            h > 0 ==> data@.len() >= (h - 1) * padded + row_bytes,
            forall|r: int, x: int|
                0 <= r < row && 0 <= x < row_bytes ==> #[trigger] frame@[r * row_bytes + x]
                    == data@[r * padded + x],
        decreases h - row,
    {
        proof {
            assert(row * row_bytes + row_bytes <= h * row_bytes) by (nonlinear_arith)
                requires
                    row < h,
            ;
            assert(row * padded + row_bytes <= (h - 1) * padded + row_bytes) by (nonlinear_arith)
                requires
                    row <= h - 1,
            ;
            assert(row * row_bytes + row_bytes <= usize::MAX);
            assert(row * padded + row_bytes <= usize::MAX);
        }
        let dst = row * row_bytes;
        let src = row * padded;
        let mut x: usize = 0;
        while x < row_bytes
            invariant
                row < h,
                row_bytes == width * 4,
                padded >= row_bytes,
                dst == row * row_bytes,
                src == row * padded,
                dst + row_bytes <= frame@.len() == row_bytes * h,
                row_bytes * h <= usize::MAX,
                data@.len() <= usize::MAX,
                src + row_bytes <= data@.len(),
                forall|r: int, x2: int|
                    0 <= r < row && 0 <= x2 < row_bytes ==> #[trigger] frame@[r * row_bytes + x2]
                        == data@[r * padded + x2],
                forall|x2: int| 0 <= x2 < x ==> #[trigger] frame@[dst + x2] == data@[src + x2],
            decreases row_bytes - x,
        {
            let ghost before = frame@;
            frame[dst + x] = data[src + x];
            proof {
                assert forall|r: int, x2: int|
                    0 <= r < row && 0 <= x2 < row_bytes implies #[trigger] frame@[r * row_bytes + x2]
                    == data@[r * padded + x2] by {
                    assert(r * row_bytes + x2 < dst) by (nonlinear_arith)
                        requires
                            r < row,
                            0 <= x2 < row_bytes,
                            dst == row * row_bytes,
                    ;
                    assert(frame@[r * row_bytes + x2] == before[r * row_bytes + x2]);
                }
            }
            x = x + 1;
        }
        proof {
            assert forall|r: int, x2: int|
                0 <= r < row + 1 && 0 <= x2 < row_bytes implies #[trigger] frame@[r * row_bytes + x2]
                == data@[r * padded + x2] by {
                if r == row {
                    assert(frame@[dst + x2] == data@[src + x2]);
                }
            }
        }
        row = row + 1;
    }
}

// ---------------------------------------------------------------------------
// Instance buffer growth.

/// Doubling (saturating) from `c` until the capacity covers `required` or
/// reaches `max`.
pub open spec fn doubled_capacity(c: nat, required: nat, max: nat) -> nat
    decreases usize::MAX - c,
{
    if 1 <= c < required && c < max && c < usize::MAX {
        let next = if c * 2 > usize::MAX {
            usize::MAX as nat
        } else {
            c * 2
        };
        doubled_capacity(next, required, max)
    } else {
        c
    }
}

/// The capacity to reallocate a pass's instance buffer to, or none when it must
/// stay: it grows by doubling to cover `required`, capped at the device's limit
/// (at least one instance).
pub open spec fn grown_capacity(current: nat, required: nat, device_max: nat) -> Option<nat> {
    let max = if device_max >= 1 {
        device_max
    } else {
        1
    };
    if required <= current || max <= current {
        None
    } else {
        let start = if current >= 1 {
            current
        } else {
            1
        };
        let doubled = doubled_capacity(start, required, max);
        let capped = if doubled > max {
            max
        } else {
            doubled
        };
        if capped <= current {
            None
        } else {
            Some(capped)
        }
    }
}

pub fn next_instance_capacity(current: usize, required: usize, device_max: usize) -> (r: Option<usize>)
    ensures
        match r {
            Some(c) => grown_capacity(current as nat, required as nat, device_max as nat) == Some(
                c as nat,
            ),
            None => grown_capacity(current as nat, required as nat, device_max as nat) is None,
        },
{
    if required <= current {
        return None;
    }
    let max_instances = if device_max >= 1 {
        device_max
    } else {
        1
    };
    if max_instances <= current {
        return None;
    }
    let mut new_capacity = if current >= 1 {
        current
    } else {
        1
    };
    let ghost start = new_capacity as nat;
    while new_capacity < required && new_capacity < max_instances
        invariant
            new_capacity >= 1,
            doubled_capacity(new_capacity as nat, required as nat, max_instances as nat)
                == doubled_capacity(start, required as nat, max_instances as nat),
        decreases usize::MAX - new_capacity,
    {
        new_capacity = if new_capacity > usize::MAX / 2 {
            usize::MAX
        } else {
            new_capacity * 2
        };
    }
    if new_capacity > max_instances {
        new_capacity = max_instances;
    }
    if new_capacity <= current {
        return None;
    }
    Some(new_capacity)
}

// ---------------------------------------------------------------------------
// Batch clipping.

/// Number of leading batches that start inside the first `max` instances.
pub open spec fn batches_in_range<K>(ranges: Seq<(K, SpriteBlendMode, u32, u32)>, max: u32) -> nat
    decreases ranges.len(),
{
    if ranges.len() == 0 || ranges[0].2 >= max {
        0
    } else {
        1 + batches_in_range(ranges.drop_first(), max)
    }
}

/// A batch cut at `max` instances, or nothing when none of it is left.
pub open spec fn clip_batch<K>(b: (K, SpriteBlendMode, u32, u32), max: u32) -> Seq<(K, SpriteBlendMode, u32, u32)> {
    let end = if b.2 + b.3 > u32::MAX {
        u32::MAX as int
    } else {
        b.2 + b.3
    };
    let clamped_end = if end < max {
        end
    } else {
        max as int
    };
    if clamped_end > b.2 {
        seq![(b.0, b.1, b.2, (clamped_end - b.2) as u32)]
    } else {
        seq![]
    }
}

pub open spec fn clip_all<K>(ranges: Seq<(K, SpriteBlendMode, u32, u32)>, max: u32) -> Seq<(K, SpriteBlendMode, u32, u32)>
    decreases ranges.len(),
{
    if ranges.len() == 0 {
        seq![]
    } else {
        clip_all(ranges.drop_last(), max) + clip_batch(ranges.last(), max)
    }
}

/// The batches that still fit when only `max` instances can be drawn: batches
/// up to the first that starts past the limit, each cut at the limit.
pub open spec fn clipped_batches<K>(ranges: Seq<(K, SpriteBlendMode, u32, u32)>, max: u32) -> Seq<(K, SpriteBlendMode, u32, u32)> {
    clip_all(ranges.take(batches_in_range(ranges, max) as int), max)
}

proof fn lemma_batches_in_range_step<K>(ranges: Seq<(K, SpriteBlendMode, u32, u32)>, max: u32, i: int)
    requires
        0 <= i <= ranges.len(),
        forall|k: int| 0 <= k < i ==> #[trigger] ranges[k].2 < max,
    ensures
        batches_in_range(ranges, max) == i + batches_in_range(ranges.skip(i), max),
    decreases i,
{
    if i > 0 {
        assert(ranges[0].2 < max);
        let d = ranges.drop_first();
        assert forall|k: int| 0 <= k < i - 1 implies #[trigger] d[k].2 < max by {
            assert(d[k] == ranges[k + 1]);
        }
        lemma_batches_in_range_step(d, max, i - 1);
        assert(d.skip(i - 1) =~= ranges.skip(i));
    } else {
        assert(ranges.skip(0) =~= ranges);
    }
}

pub fn clip_batch_ranges<K: Copy>(ranges: &[(K, SpriteBlendMode, u32, u32)], max_instances: u32) -> (out: Vec<(K, SpriteBlendMode, u32, u32)>)
    ensures
        out@ == clipped_batches(ranges@, max_instances),
{
    let mut out: Vec<(K, SpriteBlendMode, u32, u32)> = Vec::new();
    let mut i: usize = 0;
    while i < ranges.len() && ranges[i].2 < max_instances
        invariant
            i <= ranges@.len(),
            forall|k: int| 0 <= k < i ==> #[trigger] ranges@[k].2 < max_instances,
            out@ == clip_all(ranges@.take(i as int), max_instances),
        decreases ranges.len() - i,
    {
        let (key, blend, start, count) = ranges[i];
        let end: u32 = if start as u64 + count as u64 > u32::MAX as u64 {
            u32::MAX
        } else {
            start + count
        };
        let clamped_end = if end < max_instances {
            end
        } else {
            max_instances
        };
        assert(ranges@.take(i + 1).drop_last() =~= ranges@.take(i as int));
        assert(ranges@.take(i + 1).last() == ranges@[i as int]);
        if clamped_end > start {
            out.push((key, blend, start, clamped_end - start));
        }
        assert(out@ =~= clip_all(ranges@.take(i + 1), max_instances));
        i = i + 1;
    }
    proof {
        lemma_batches_in_range_step(ranges@, max_instances, i as int);
        if i < ranges@.len() {
            assert(ranges@.skip(i as int)[0] == ranges@[i as int]);
        }
    }
    out
}

// ---------------------------------------------------------------------------
// In-order delivery of finished readbacks.

/// The frames that can be delivered from `next` on: as long as the next
/// sequence number is ready, it is taken out and the number advances (wrapping).
pub open spec fn drained_frames(m: Map<u64, Vec<u8>>, next: u64) -> Seq<Vec<u8>>
    decreases m.dom().len(),
    when m.dom().finite()
{
    if m.contains_key(next) {
        seq![m[next]] + drained_frames(m.remove(next), next.wrapping_add(1))
    } else {
        seq![]
    }
}

/// What stays waiting after the contiguous run from `next` is delivered.
pub open spec fn still_waiting(m: Map<u64, Vec<u8>>, next: u64) -> Map<u64, Vec<u8>>
    decreases m.dom().len(),
    when m.dom().finite()
{
    if m.contains_key(next) {
        still_waiting(m.remove(next), next.wrapping_add(1))
    } else {
        m
    }
}

/// The sequence number expected next after the contiguous run from `next`.
pub open spec fn next_after_run(m: Map<u64, Vec<u8>>, next: u64) -> u64
    decreases m.dom().len(),
    when m.dom().finite()
{
    if m.contains_key(next) {
        next_after_run(m.remove(next), next.wrapping_add(1))
    } else {
        next
    }
}

/// Moves every frame whose sequence number comes next, in order, from the
/// waiting map to the ready queue; readbacks that finish out of order wait for
/// their predecessors.
pub fn drain_contiguous_ready_sequences(
    next_ready_sequence: &mut u64,
    ready_by_sequence: &mut BTreeMap<u64, Vec<u8>>,
    ready_frames: &mut VecDeque<Vec<u8>>,
)
    ensures
        final(ready_frames)@ == old(ready_frames)@ + drained_frames(
            old(ready_by_sequence)@,
            *old(next_ready_sequence),
        ),
        final(ready_by_sequence)@ == still_waiting(old(ready_by_sequence)@, *old(next_ready_sequence)),
        *final(next_ready_sequence) == next_after_run(
            old(ready_by_sequence)@,
            *old(next_ready_sequence),
        ),
{
    loop
        invariant
            ready_by_sequence@.dom().finite(),
            old(ready_frames)@ + drained_frames(old(ready_by_sequence)@, *old(next_ready_sequence))
                == ready_frames@ + drained_frames(ready_by_sequence@, *next_ready_sequence),
            still_waiting(old(ready_by_sequence)@, *old(next_ready_sequence)) == still_waiting(
                ready_by_sequence@,
                *next_ready_sequence,
            ),
            next_after_run(old(ready_by_sequence)@, *old(next_ready_sequence)) == next_after_run(
                ready_by_sequence@,
                *next_ready_sequence,
            ),
        ensures
            !ready_by_sequence@.contains_key(*next_ready_sequence),
        decreases ready_by_sequence@.dom().len(),
    {
        let key = *next_ready_sequence;
        let ghost m = ready_by_sequence@;
        match ready_by_sequence.remove(&key) {
            Some(frame) => {
                assert(m.contains_key(key));
                let ghost before = ready_frames@;
                ready_frames.push_back(frame);
                *next_ready_sequence = key.wrapping_add(1);
                assert(before + drained_frames(m, key) =~= ready_frames@ + drained_frames(
                    m.remove(key),
                    key.wrapping_add(1),
                ));
            },
            None => {
                break;
            },
        }
    }
}

// ---------------------------------------------------------------------------
// The ring of frame readback buffers.

/// One readback buffer: what it is doing, and the submit sequence number of
/// the frame it holds.
#[derive(Debug, Clone, Copy, PartialEq, Eq, Structural)]
pub struct OutputSlot {
    pub state: BufferState,
    pub sequence: Option<u64>,
}

/// How many buffers are being read back.
pub open spec fn reading_count(slots: Seq<OutputSlot>) -> nat
    decreases slots.len(),
{
    if slots.len() == 0 {
        0
    } else {
        reading_count(slots.drop_last()) + if slots.last().state == BufferState::Reading {
            1nat
        } else {
            0nat
        }
    }
}

proof fn lemma_no_reading(slots: Seq<OutputSlot>)
    requires
        forall|i: int| 0 <= i < slots.len() ==> (#[trigger] slots[i]).state != BufferState::Reading,
    ensures
        reading_count(slots) == 0,
    decreases slots.len(),
{
    if slots.len() > 0 {
        lemma_no_reading(slots.drop_last());
    }
}

proof fn lemma_reading_count_bound(slots: Seq<OutputSlot>)
    ensures
        reading_count(slots) <= slots.len(),
    decreases slots.len(),
{
    if slots.len() > 0 {
        lemma_reading_count_bound(slots.drop_last());
    }
}

proof fn lemma_reading_count_update(slots: Seq<OutputSlot>, i: int, s: OutputSlot)
    requires
        0 <= i < slots.len(),
    ensures
        reading_count(slots.update(i, s)) + (if slots[i].state == BufferState::Reading {
            1int
        } else {
            0int
        }) == reading_count(slots) + (if s.state == BufferState::Reading {
            1int
        } else {
            0int
        }),
    decreases slots.len(),
{
    if i < slots.len() - 1 {
        lemma_reading_count_update(slots.drop_last(), i, s);
        assert(slots.update(i, s).drop_last() =~= slots.drop_last().update(i, s));
    } else {
        assert(slots.update(i, s).drop_last() =~= slots.drop_last());
    }
}

/// The readback side of frame submission: a ring of output buffers, the
/// sequence numbers that keep frames in submit order, the readbacks in
/// flight, and the frames finished so far (waiting for their predecessors,
/// or ready in order).
pub struct ReadbackRing {
    pub slots: Vec<OutputSlot>,
    pub current: usize,
    pub next_submit_sequence: u64,
    pub next_ready_sequence: u64,
    pub pending_readbacks: usize,
    pub ready_by_sequence: BTreeMap<u64, Vec<u8>>,
    pub ready_frames: VecDeque<Vec<u8>>,
}

impl ReadbackRing {
    /// The ring is non-empty, its search position is inside it, the
    /// readbacks in flight are counted, and every busy buffer knows its frame.
    pub open spec fn wf(&self) -> bool {
        &&& self.slots@.len() > 0
        &&& self.current < self.slots@.len()
        &&& self.pending_readbacks == reading_count(self.slots@)
        &&& forall|i: int|
            0 <= i < self.slots@.len() ==> (#[trigger] self.slots@[i]).state != BufferState::Available
                ==> self.slots@[i].sequence is Some
    }

    pub open spec fn states(&self) -> Seq<BufferState> {
        self.slots@.map_values(|s: OutputSlot| s.state)
    }

    /// A ring of `n` available buffers, nothing submitted.
    pub fn new(n: usize) -> (r: Self)
        requires
            n > 0,
        ensures
            r.wf(),
            r.slots@ == Seq::new(n as nat, |i: int| OutputSlot { state: BufferState::Available, sequence: None }),
            r.current == 0,
            r.next_submit_sequence == 0,
            r.next_ready_sequence == 0,
            r.ready_by_sequence@ == Map::<u64, Vec<u8>>::empty(),
            r.ready_frames@.len() == 0,
    {
        let mut slots: Vec<OutputSlot> = Vec::new();
        for i in 0..n
            invariant
                slots@ == Seq::new(i as nat, |j: int| OutputSlot { state: BufferState::Available, sequence: None }),
        {
            slots.push(OutputSlot { state: BufferState::Available, sequence: None });
            assert(slots@ =~= Seq::new((i + 1) as nat, |j: int| OutputSlot { state: BufferState::Available, sequence: None }));
        }
        proof {
            lemma_no_reading(slots@);
        }
        ReadbackRing {
            slots,
            current: 0,
            next_submit_sequence: 0,
            next_ready_sequence: 0,
            pending_readbacks: 0,
            ready_by_sequence: BTreeMap::new(),
            ready_frames: VecDeque::new(),
        }
    }

    /// Claims the next available buffer for a frame, round-robin from the
    /// search position, and numbers the frame; when every buffer is busy
    /// nothing changes (the caller waits for a readback and tries again).
    pub fn start_frame(&mut self) -> (idx: Option<usize>)
        requires
            old(self).wf(),
        ensures
            final(self).wf(),
            ({
                let (found, next) = scan_available(old(self).states(), old(self).current as nat, old(self).slots@.len(), old(self).current as nat);
                &&& match idx {
                    Some(i) => found == Some(i as nat),
                    None => found is None,
                }
                &&& final(self).current == next
            }),
            match idx {
                Some(i) => {
                    &&& i < old(self).slots@.len()
                    &&& old(self).slots@[i as int].state == BufferState::Available
                    &&& final(self).slots@ == old(self).slots@.update(
                        i as int,
                        OutputSlot { state: BufferState::Rendering, sequence: Some(old(self).next_submit_sequence) },
                    )
                    &&& final(self).next_submit_sequence == old(self).next_submit_sequence.wrapping_add(1)
                },
                None => final(self).slots@ == old(self).slots@ && final(self).next_submit_sequence
                    == old(self).next_submit_sequence,
            },
            final(self).next_ready_sequence == old(self).next_ready_sequence,
            final(self).ready_by_sequence@ == old(self).ready_by_sequence@,
            final(self).ready_frames@ == old(self).ready_frames@,
    {
        let mut states: Vec<BufferState> = Vec::new();
        for i in 0..self.slots.len()
            invariant
                states@ == self.slots@.take(i as int).map_values(|s: OutputSlot| s.state),
        {
            states.push(self.slots[i].state);
            assert(states@ =~= self.slots@.take(i + 1).map_values(|s: OutputSlot| s.state));
        }
        assert(self.slots@.take(self.slots@.len() as int) =~= self.slots@);
        let (found, next) = next_available_buffer(&states, self.current);
        proof {
            lemma_scan_in_range(states@, self.current as nat, states@.len(), self.current as nat);
            lemma_next_buffer_is_available(states@, self.current as nat);
            assert(states@ == self.states());
        }
        self.current = next;
        match found {
            Some(i) => {
                assert(states@[i as int] == self.slots@[i as int].state);
                let seq = self.next_submit_sequence;
                let ghost before = self.slots@;
                self.slots.set(i, OutputSlot { state: BufferState::Rendering, sequence: Some(seq) });
                proof {
                    lemma_reading_count_update(before, i as int, OutputSlot { state: BufferState::Rendering, sequence: Some(seq) });
                }
                self.next_submit_sequence = seq.wrapping_add(1);
                Some(i)
            },
            None => None,
        }
    }

    /// The frame in buffer `idx` has been rendered and its readback starts.
    pub fn begin_readback(&mut self, idx: usize)
        requires
            old(self).wf(),
            idx < old(self).slots@.len(),
            old(self).slots@[idx as int].state == BufferState::Rendering,
        ensures
            final(self).wf(),
            final(self).slots@ == old(self).slots@.update(
                idx as int,
                OutputSlot { state: BufferState::Reading, sequence: old(self).slots@[idx as int].sequence },
            ),
            final(self).pending_readbacks == old(self).pending_readbacks + 1,
            final(self).current == old(self).current,
            final(self).next_submit_sequence == old(self).next_submit_sequence,
            final(self).next_ready_sequence == old(self).next_ready_sequence,
            final(self).ready_by_sequence@ == old(self).ready_by_sequence@,
            final(self).ready_frames@ == old(self).ready_frames@,
    {
        let ghost before = self.slots@;
        let n: usize = self.slots.len();
        let seq = self.slots[idx].sequence;
        let new_slot = OutputSlot { state: BufferState::Reading, sequence: seq };
        proof {
            lemma_reading_count_update(before, idx as int, new_slot);
            lemma_reading_count_bound(before.update(idx as int, new_slot));
        }
        assert(self.pending_readbacks + 1 <= n);
        self.slots.set(idx, new_slot);
        self.pending_readbacks = self.pending_readbacks + 1;
    }

    /// The readback of buffer `idx` has finished with `frame`: the buffer is
    /// free again, and the frame waits under its sequence number until every
    /// frame before it is ready.
    pub fn finish_readback(&mut self, idx: usize, frame: Vec<u8>)
        requires
            old(self).wf(),
            idx < old(self).slots@.len(),
            old(self).slots@[idx as int].state == BufferState::Reading,
        ensures
            final(self).wf(),
            final(self).slots@ == old(self).slots@.update(
                idx as int,
                OutputSlot { state: BufferState::Available, sequence: None },
            ),
            final(self).pending_readbacks == old(self).pending_readbacks - 1,
            ({
                let waiting = old(self).ready_by_sequence@.insert(
                    old(self).slots@[idx as int].sequence.unwrap(),
                    frame,
                );
                &&& final(self).ready_frames@ == old(self).ready_frames@ + drained_frames(
                    waiting,
                    old(self).next_ready_sequence,
                )
                &&& final(self).ready_by_sequence@ == still_waiting(waiting, old(self).next_ready_sequence)
                &&& final(self).next_ready_sequence == next_after_run(waiting, old(self).next_ready_sequence)
            }),
            final(self).current == old(self).current,
            final(self).next_submit_sequence == old(self).next_submit_sequence,
    {
        let ghost before = self.slots@;
        let seq = match self.slots[idx].sequence {
            Some(s) => s,
            None => self.next_ready_sequence,
        };
        let new_slot = OutputSlot { state: BufferState::Available, sequence: None };
        proof {
            lemma_reading_count_update(before, idx as int, new_slot);
        }
        self.slots.set(idx, new_slot);
        self.pending_readbacks = self.pending_readbacks - 1;
        self.ready_by_sequence.insert(seq, frame);
        drain_contiguous_ready_sequences(
            &mut self.next_ready_sequence,
            &mut self.ready_by_sequence,
            &mut self.ready_frames,
        );
    }

    /// The oldest ready frame, taken out of the queue.
    pub fn take_next_ready_frame(&mut self) -> (f: Option<Vec<u8>>)
        requires
            old(self).wf(),
        ensures
            final(self).wf(),
            old(self).ready_frames@.len() == 0 ==> f is None && final(self).ready_frames@.len() == 0,
            old(self).ready_frames@.len() > 0 ==> f == Some(old(self).ready_frames@[0])
                && final(self).ready_frames@ == old(self).ready_frames@.drop_first(),
            final(self).slots@ == old(self).slots@,
            final(self).pending_readbacks == old(self).pending_readbacks,
    {
        self.ready_frames.pop_front()
    }
}

// ---------------------------------------------------------------------------
// Adapter preference.

/// The kind of an adapter, as far as preference ordering cares.
#[derive(Debug, Clone, Copy, PartialEq, Eq, Structural)]
pub enum AdapterKind {
    IntegratedGpu,
    DiscreteGpu,
    Other,
}

/// An enumerated adapter: its name and kind.
pub struct AdapterDesc {
    pub name: String,
    pub kind: AdapterKind,
}

/// The adapters (by index, in enumeration order) whose lower-cased name holds
/// the lower-cased hint; all of them without a hint.
pub open spec fn hinted(adapters: Seq<AdapterDesc>, hint: Option<Seq<char>>, n: nat) -> Seq<nat>
    decreases n,
{
    if n == 0 {
        seq![]
    } else {
        let rest = hinted(adapters, hint, (n - 1) as nat);
        let keep = match hint {
            None => true,
            Some(h) => contains_seq(ascii_lower_seq(adapters[n - 1].name@), ascii_lower_seq(h)),
        };
        if keep {
            rest.push((n - 1) as nat)
        } else {
            rest
        }
    }
}

/// The indices in `idx` whose adapter has kind `kind` (or, when `kind` is none,
/// neither integrated nor discrete), in order.
pub open spec fn of_kind(adapters: Seq<AdapterDesc>, idx: Seq<nat>, kind: Option<AdapterKind>) -> Seq<nat>
    decreases idx.len(),
{
    if idx.len() == 0 {
        seq![]
    } else {
        let rest = of_kind(adapters, idx.drop_last(), kind);
        let k = adapters[idx.last() as int].kind;
        let keep = match kind {
            Some(want) => k == want,
            None => k != AdapterKind::IntegratedGpu && k != AdapterKind::DiscreteGpu,
        };
        if keep {
            rest.push(idx.last())
        } else {
            rest
        }
    }
}

/// The order in which adapters are tried: those matching the hint, the preferred
/// kind first (integrated for `Low` and `Auto`, discrete for `High`), then the
/// other of the two, then the rest, each group in enumeration order.
pub open spec fn adapter_order(adapters: Seq<AdapterDesc>, preference: GpuPreference, hint: Option<Seq<char>>) -> Seq<nat> {
    let h = hinted(adapters, hint, adapters.len());
    let (first, second) = match preference {
        GpuPreference::High => (AdapterKind::DiscreteGpu, AdapterKind::IntegratedGpu),
        _ => (AdapterKind::IntegratedGpu, AdapterKind::DiscreteGpu),
    };
    of_kind(adapters, h, Some(first)) + of_kind(adapters, h, Some(second)) + of_kind(adapters, h, None)
}

fn kind_matches(k: AdapterKind, kind: Option<AdapterKind>) -> (b: bool)
    ensures
        b == match kind {
            Some(want) => k == want,
            None => k != AdapterKind::IntegratedGpu && k != AdapterKind::DiscreteGpu,
        },
{
    match kind {
        Some(want) => k == want,
        None => k != AdapterKind::IntegratedGpu && k != AdapterKind::DiscreteGpu,
    }
}

fn select_kind(adapters: &[AdapterDesc], idx: &Vec<usize>, kind: Option<AdapterKind>, out: &mut Vec<usize>)
    requires
        forall|i: int| 0 <= i < idx@.len() ==> #[trigger] idx@[i] < adapters@.len(),
    ensures
        final(out)@.map_values(|x: usize| x as nat) == old(out)@.map_values(|x: usize| x as nat) + of_kind(
            adapters@,
            idx@.map_values(|x: usize| x as nat),
            kind,
        ),
{
    let ghost start = out@.map_values(|x: usize| x as nat);
    let ghost all = idx@.map_values(|x: usize| x as nat);
    for k in 0..idx.len()
        invariant
            forall|i: int| 0 <= i < idx@.len() ==> #[trigger] idx@[i] < adapters@.len(),
            all == idx@.map_values(|x: usize| x as nat),
            out@.map_values(|x: usize| x as nat) == start + of_kind(adapters@, all.take(k as int), kind),
    {
        assert(all.take(k + 1).drop_last() =~= all.take(k as int));
        assert(all.take(k + 1).last() == idx@[k as int] as nat);
        let a = idx[k];
        let ghost before = out@;
        if kind_matches(adapters[a].kind, kind) {
            out.push(a);
            assert(out@.map_values(|x: usize| x as nat) =~= before.map_values(|x: usize| x as nat).push(a as nat));
        } else {
            assert(out@ == before);
        }
        assert(out@.map_values(|x: usize| x as nat) =~= start + of_kind(adapters@, all.take(k + 1), kind));
    }
    assert(all.take(idx.len() as int) =~= all);
}

/// The adapter indices in the order they are tried.
pub fn order_adapters(adapters: &[AdapterDesc], preference: GpuPreference, hint: Option<&str>) -> (order: Vec<usize>)
    ensures
        order@.map_values(|x: usize| x as nat) == adapter_order(
            adapters@,
            preference,
            match hint {
                Some(h) => Some(h@),
                None => None,
            },
        ),
{
    let ghost hint_view = match hint {
        Some(h) => Some(h@),
        None => None::<Seq<char>>,
    };
    let hint_lower: Option<Vec<char>> = match hint {
        Some(h) => Some(to_ascii_lower(&chars_of(h))),
        None => None,
    };
    let mut idx: Vec<usize> = Vec::new();
    for k in 0..adapters.len()
        invariant
            hint_lower matches Some(hl) ==> hint_view matches Some(hv) && hl@ == ascii_lower_seq(hv),
            hint_lower is None ==> hint_view is None,
            forall|i: int| 0 <= i < idx@.len() ==> #[trigger] idx@[i] < k,
            idx@.map_values(|x: usize| x as nat) == hinted(adapters@, hint_view, k as nat),
    {
        let keep = match &hint_lower {
            None => true,
            Some(hl) => {
                let name = to_ascii_lower(&chars_of(adapters[k].name.as_str()));
                contains_chars(&name, hl)
            },
        };
        if keep {
            idx.push(k);
        }
        assert(idx@.map_values(|x: usize| x as nat) =~= hinted(adapters@, hint_view, (k + 1) as nat));
    }
    let (first, second) = match preference {
        GpuPreference::High => (AdapterKind::DiscreteGpu, AdapterKind::IntegratedGpu),
        _ => (AdapterKind::IntegratedGpu, AdapterKind::DiscreteGpu),
    };
    let mut order: Vec<usize> = Vec::new();
    select_kind(adapters, &idx, Some(first), &mut order);
    select_kind(adapters, &idx, Some(second), &mut order);
    select_kind(adapters, &idx, None, &mut order);
    assert(Seq::<usize>::empty().map_values(|x: usize| x as nat) =~= Seq::<nat>::empty());
    order
}


// ---------------------------------------------------------------------------
// Laws.

proof fn lemma_clip_all_fits<K>(ranges: Seq<(K, SpriteBlendMode, u32, u32)>, max: u32)
    ensures
        forall|i: int|
            0 <= i < clip_all(ranges, max).len() ==> #[trigger] clip_all(ranges, max)[i].3 > 0
                && clip_all(ranges, max)[i].2 + clip_all(ranges, max)[i].3 <= max,
    decreases ranges.len(),
{
    if ranges.len() > 0 {
        lemma_clip_all_fits(ranges.drop_last(), max);
        let a = clip_all(ranges.drop_last(), max);
        let b = clip_batch(ranges.last(), max);
        assert forall|i: int| 0 <= i < clip_all(ranges, max).len() implies #[trigger] clip_all(
            ranges,
            max,
        )[i].3 > 0 && clip_all(ranges, max)[i].2 + clip_all(ranges, max)[i].3 <= max by {
            if i < a.len() {
                assert(clip_all(ranges, max)[i] == a[i]);
            } else {
                assert(clip_all(ranges, max)[i] == b[i - a.len()]);
            }
        }
    }
}

/// Clipping never leaves a batch that reaches past the instance limit, nor an
/// empty batch.
pub proof fn lemma_clipped_batches_fit<K>(ranges: Seq<(K, SpriteBlendMode, u32, u32)>, max: u32)
    ensures
        forall|i: int|
            0 <= i < clipped_batches(ranges, max).len() ==> #[trigger] clipped_batches(ranges, max)[i].3
                > 0 && clipped_batches(ranges, max)[i].2 + clipped_batches(ranges, max)[i].3 <= max,
{
    lemma_clip_all_fits(ranges.take(batches_in_range(ranges, max) as int), max);
}

proof fn lemma_doubling_reaches(c: nat, required: nat, max: nat)
    requires
        1 <= c,
        max <= usize::MAX,
    ensures
        doubled_capacity(c, required, max) >= c,
        doubled_capacity(c, required, max) >= required || doubled_capacity(c, required, max) >= max,
    decreases usize::MAX - c,
{
    if 1 <= c < required && c < max && c < usize::MAX {
        let next = if c * 2 > usize::MAX {
            usize::MAX as nat
        } else {
            c * 2
        };
        lemma_doubling_reaches(next, required, max);
    }
}

/// A grown instance buffer is larger than before, within the device limit (at
/// least one instance), and covers what is required unless the limit stops it;
/// it does not grow when it already covers the requirement or the limit.
pub proof fn lemma_capacity_growth(current: nat, required: nat, device_max: nat)
    requires
        device_max <= usize::MAX,
    ensures
        ({
            let max = if device_max >= 1 {
                device_max
            } else {
                1
            };
            match grown_capacity(current, required, device_max) {
                Some(n) => current < n <= max && (n >= required || n == max),
                None => required <= current || max <= current,
            }
        }),
{
    let max = if device_max >= 1 {
        device_max
    } else {
        1
    };
    let start = if current >= 1 {
        current
    } else {
        1
    };
    lemma_doubling_reaches(start, required, max);
}

proof fn lemma_kinds_partition(
    adapters: Seq<AdapterDesc>,
    idx: Seq<nat>,
    first: AdapterKind,
    second: AdapterKind,
)
    requires
        (first == AdapterKind::IntegratedGpu && second == AdapterKind::DiscreteGpu) || (first
            == AdapterKind::DiscreteGpu && second == AdapterKind::IntegratedGpu),
    ensures
        of_kind(adapters, idx, Some(first)).to_multiset().add(
            of_kind(adapters, idx, Some(second)).to_multiset(),
        ).add(of_kind(adapters, idx, None).to_multiset()) =~= idx.to_multiset(),
    decreases idx.len(),
{
    broadcast use vstd::multiset::group_multiset_axioms;
    broadcast use vstd::seq_lib::group_to_multiset_ensures;

    if idx.len() > 0 {
        lemma_kinds_partition(adapters, idx.drop_last(), first, second);
        assert(idx =~= idx.drop_last().push(idx.last()));
    }
}

/// Preference only reorders: every adapter that matches the hint is tried
/// exactly once, fallback kinds included.
pub proof fn lemma_adapter_order_is_permutation(
    adapters: Seq<AdapterDesc>,
    preference: GpuPreference,
    hint: Option<Seq<char>>,
)
    ensures
        adapter_order(adapters, preference, hint).to_multiset() =~= hinted(
            adapters,
            hint,
            adapters.len(),
        ).to_multiset(),
{
    broadcast use vstd::seq_lib::lemma_multiset_commutative;

    let h = hinted(adapters, hint, adapters.len());
    let (first, second) = match preference {
        GpuPreference::High => (AdapterKind::DiscreteGpu, AdapterKind::IntegratedGpu),
        _ => (AdapterKind::IntegratedGpu, AdapterKind::DiscreteGpu),
    };
    lemma_kinds_partition(adapters, h, first, second);
    let a = of_kind(adapters, h, Some(first));
    let b = of_kind(adapters, h, Some(second));
    let c = of_kind(adapters, h, None);
    assert((a + b + c).to_multiset() =~= (a + b).to_multiset().add(c.to_multiset()));
    assert((a + b).to_multiset() =~= a.to_multiset().add(b.to_multiset()));
}


/// Delivery loses nothing and stops at a gap: every waiting frame is either
/// delivered or still waiting, nothing new appears among the waiting ones, and
/// the frame expected next is not left waiting.
pub proof fn lemma_drain_stops_at_gap(m: Map<u64, Vec<u8>>, next: u64)
    requires
        m.dom().finite(),
    ensures
        !still_waiting(m, next).contains_key(next_after_run(m, next)),
        still_waiting(m, next).dom().subset_of(m.dom()),
        still_waiting(m, next).dom().finite(),
        drained_frames(m, next).len() + still_waiting(m, next).dom().len() == m.dom().len(),
    decreases m.dom().len(),
{
    broadcast use vstd::set::group_set_axioms;

    if m.contains_key(next) {
        let r = m.remove(next);
        assert(r.dom() =~= m.dom().remove(next));
        lemma_drain_stops_at_gap(r, next.wrapping_add(1));
    }
}


/// The position `j` steps round a ring of `n` from `start`.
pub open spec fn ring_pos(start: nat, j: nat, n: nat) -> int {
    (start + j) as int % (n as int)
}

proof fn lemma_ring_next(x: int, n: nat)
    requires
        n > 0,
        x >= 0,
    ensures
        0 <= x % (n as int) < n,
        ring_next((x % (n as int)) as nat, n) as int == (x + 1) % (n as int),
{
    let q = x / (n as int);
    let r = x % (n as int);
    vstd::arithmetic::div_mod::lemma_fundamental_div_mod(x, n as int);
    vstd::arithmetic::div_mod::lemma_mod_bound(x, n as int);
    if r + 1 < n {
        vstd::arithmetic::div_mod::lemma_fundamental_div_mod_converse(x + 1, n as int, q, r + 1);
    } else {
        assert(x + 1 == (q + 1) * (n as int) + 0) by (nonlinear_arith)
            requires
                x == (n as int) * q + r,
                r + 1 == n,
        ;
        vstd::arithmetic::div_mod::lemma_fundamental_div_mod_converse(x + 1, n as int, q + 1, 0);
    }
}

proof fn lemma_scan_steps(states: Seq<BufferState>, pos: nat, remaining: nat, current: nat, start: nat, done: nat)
    requires
        states.len() > 0,
        start < states.len(),
        pos as int == ring_pos(start, done, states.len()),
        done + remaining <= states.len(),
    ensures
        scan_available(states, pos, remaining, current).0 matches Some(i) ==> i < states.len()
            && states[i as int] == BufferState::Available,
        scan_available(states, pos, remaining, current).0 is None ==> forall|j: nat|
            done <= j < done + remaining ==> states[#[trigger] ring_pos(start, j, states.len())]
                != BufferState::Available,
    decreases remaining,
{
    let n = states.len();
    lemma_ring_next((start + done) as int, n);
    if remaining > 0 && states[pos as int] != BufferState::Available {
        lemma_scan_steps(states, ring_next(pos, n), (remaining - 1) as nat, current, start, done + 1);
    }
}

/// A buffer handed out is available, and none is handed out only when every
/// buffer of the ring is busy.
pub proof fn lemma_next_buffer_is_available(states: Seq<BufferState>, current: nat)
    requires
        current < states.len(),
    ensures
        scan_available(states, current, states.len(), current).0 matches Some(i) ==> i < states.len()
            && states[i as int] == BufferState::Available,
        scan_available(states, current, states.len(), current).0 is None ==> forall|i: int|
            0 <= i < states.len() ==> states[i] != BufferState::Available,
{
    let n = states.len();
    vstd::arithmetic::div_mod::lemma_fundamental_div_mod_converse(current as int, n as int, 0, current as int);
    lemma_scan_steps(states, current, n, current, current, 0);
    if scan_available(states, current, n, current).0 is None {
        assert forall|i: int| 0 <= i < n implies states[i] != BufferState::Available by {
            if i >= current {
                let j: nat = (i - current) as nat;
                vstd::arithmetic::div_mod::lemma_fundamental_div_mod_converse(i, n as int, 0, i);
                assert(ring_pos(current, j, n) == i);
            } else {
                let j: nat = (i + n - current) as nat;
                vstd::arithmetic::div_mod::lemma_fundamental_div_mod_converse(i + n, n as int, 1, i);
                assert(ring_pos(current, j, n) == i);
            }
        }
    }
}

proof fn lemma_scan_in_range(states: Seq<BufferState>, pos: nat, remaining: nat, current: nat)
    requires
        current < states.len(),
        pos < states.len(),
    ensures
        scan_available(states, pos, remaining, current).1 < states.len(),
    decreases remaining,
{
    if remaining > 0 && states[pos as int] != BufferState::Available {
        lemma_scan_in_range(states, ring_next(pos, states.len()), (remaining - 1) as nat, current);
    }
}

/// Frames reach the ready queue in submit order: a frame whose readback
/// finishes before its predecessor's waits (nothing is delivered), and once
/// the expected frame arrives it is delivered first.
pub proof fn lemma_frames_delivered_in_submit_order(m: Map<u64, Vec<u8>>, next: u64, seq: u64, frame: Vec<u8>)
    requires
        m.dom().finite(),
        !m.contains_key(next),
    ensures
        seq != next ==> drained_frames(m.insert(seq, frame), next).len() == 0,
        seq != next ==> still_waiting(m.insert(seq, frame), next) == m.insert(seq, frame),
        drained_frames(m.insert(next, frame), next).len() >= 1,
        drained_frames(m.insert(next, frame), next)[0] == frame,
{
    let m2 = m.insert(next, frame);
    assert(m2.dom().finite());
    assert(m2.contains_key(next));
    let m3 = m.insert(seq, frame);
    assert(m3.dom().finite());
}

} // verus!
