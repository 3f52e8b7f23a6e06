//! Choosing a column's note images, and trimming repeated rows off legacy
//! long-note body textures.
use vstd::prelude::*;
use crate::text::chars_of;

verus! {

/// How a long-note body texture fills the body's length.
#[derive(Debug, Clone, Copy, PartialEq, Eq, Structural)]
pub enum NoteBodyStyle {
    Stretch,
    RepeatTop,
    RepeatBottom,
    RepeatTopAndBottom,
}

/// Row `r` of an image whose rows are `stride` bytes long.
pub open spec fn image_row(data: Seq<u8>, stride: int, r: int) -> Seq<u8> {
    data.subrange(r * stride, r * stride + stride)
}

/// Going up from row `s`, the first row of the run of rows equal to the last row.
pub open spec fn repeat_start_from(data: Seq<u8>, stride: int, height: int, s: int) -> int
    decreases s,
{
    if s > 0 && image_row(data, stride, s - 1) == image_row(data, stride, height - 1) {
        repeat_start_from(data, stride, height, s - 1)
    } else {
        s
    }
}

/// Going down from row `e`, the last row of the run of rows equal to the first row.
pub open spec fn repeat_end_from(data: Seq<u8>, stride: int, height: int, e: int) -> int
    decreases height - e,
{
    if e + 1 < height && image_row(data, stride, e + 1) == image_row(data, stride, 0) {
        repeat_end_from(data, stride, height, e + 1)
    } else {
        e
    }
}

/// The rows kept of a body texture, as (first row, row count): a texture that
/// repeats its bottom keeps everything up to the first row of its final run of
/// equal rows; one that repeats its top keeps everything from the last row of
/// its first run; anything else (or a texture of at most one row) stays whole.
pub open spec fn body_trim_range(data: Seq<u8>, width: u32, height: u32, style: NoteBodyStyle) -> (int, int) {
    let stride = width * 4;
    if height <= 1 {
        (0, height as int)
    } else {
        match style {
            NoteBodyStyle::RepeatBottom => (
                0,
                repeat_start_from(data, stride, height as int, height - 1) + 1,
            ),
            NoteBodyStyle::RepeatTop => {
                let e = repeat_end_from(data, stride, height as int, 0);
                (e, height - e)
            },
            _ => (0, height as int),
        }
    }
}

/// Row `r` lies inside `len` bytes.
pub open spec fn row_fits(len: int, stride: int, r: int) -> bool {
    (r + 1) * stride <= len
}

fn rows_equal(data: &[u8], stride: usize, a: usize, b: usize) -> (eq: bool)
    requires
        row_fits(data@.len() as int, stride as int, a as int),
        row_fits(data@.len() as int, stride as int, b as int),
        data@.len() <= usize::MAX,
    ensures
        eq == (image_row(data@, stride as int, a as int) == image_row(data@, stride as int, b as int)),
{
    assert(a * stride + stride == (a + 1) * stride) by (nonlinear_arith);
    assert(b * stride + stride == (b + 1) * stride) by (nonlinear_arith);
    let start_a = a * stride;
    let start_b = b * stride;
    let ghost ra = image_row(data@, stride as int, a as int);
    let ghost rb = image_row(data@, stride as int, b as int);
    let mut x: usize = 0;
    while x < stride
        invariant
            x <= stride,
            data@.len() <= usize::MAX,
            start_a + stride <= data@.len(),
            start_b + stride <= data@.len(),
            start_a == a * stride,
            start_b == b * stride,
            ra == image_row(data@, stride as int, a as int),
            rb == image_row(data@, stride as int, b as int),
            forall|i: int| 0 <= i < x ==> ra[i] == rb[i],
        decreases stride - x,
    {
        if data[start_a + x] != data[start_b + x] {
            assert(ra[x as int] != rb[x as int]);
            return false;
        }
        x = x + 1;
    }
    assert(ra =~= rb);
    true
}

proof fn lemma_row_bound(r: int, stride: int, height: int)
    requires
        0 <= r < height,
        0 <= stride,
    ensures
        (r + 1) * stride <= height * stride,
{
    assert((r + 1) * stride <= height * stride) by (nonlinear_arith)
        requires
            r + 1 <= height,
            0 <= stride,
    ;
}

pub fn cascade_body_trim_range(data: &[u8], width: u32, height: u32, style: NoteBodyStyle) -> (r: (u32, u32))
    requires
        width * 4 <= u32::MAX,
        data@.len() == width * 4 * height,
    ensures
        r.0 as int == body_trim_range(data@, width, height, style).0,
        r.1 as int == body_trim_range(data@, width, height, style).1,
{
    if height <= 1 {
        return (0, height);
    }
    let n = data.len();
    let stride = (width * 4) as usize;
    let h = height as usize;
    assert(h as int * stride as int == data@.len()) by (nonlinear_arith)
        requires
            stride == width * 4,
            h == height,
            data@.len() == width * 4 * height,
    ;
    assert forall|r: int| 0 <= r < h implies #[trigger] row_fits(data@.len() as int, stride as int, r) by {
        lemma_row_bound(r, stride as int, h as int);
    }
    match style {
        NoteBodyStyle::RepeatBottom => {
            let mut s: usize = h - 1;
            while s > 0 && rows_equal(data, stride, s - 1, h - 1)
                invariant
                    s < h,
                    h == height,
                    h >= 2,
                    n == data@.len(),
                    forall|r: int| 0 <= r < h ==> #[trigger] row_fits(data@.len() as int, stride as int, r),
                    repeat_start_from(data@, stride as int, h as int, s as int) == repeat_start_from(
                        data@,
                        stride as int,
                        h as int,
                        h - 1,
                    ),
                decreases s,
            {
                s = s - 1;
            }
            (0, (s + 1) as u32)
        },
        NoteBodyStyle::RepeatTop => {
            let mut e: usize = 0;
            while e + 1 < h && rows_equal(data, stride, e + 1, 0)
                invariant
                    e < h,
                    h == height,
                    h >= 2,
                    n == data@.len(),
                    forall|r: int| 0 <= r < h ==> #[trigger] row_fits(data@.len() as int, stride as int, r),
                    repeat_end_from(data@, stride as int, h as int, e as int) == repeat_end_from(
                        data@,
                        stride as int,
                        h as int,
                        0,
                    ),
                decreases h - e,
            {
                e = e + 1;
            }
            (e as u32, (h - e) as u32)
        },
        _ => (0, height),
    }
}


proof fn lemma_repeat_start_bounds(data: Seq<u8>, stride: int, height: int, s: int)
    requires
        0 <= s,
    ensures
        0 <= repeat_start_from(data, stride, height, s) <= s,
    decreases s,
{
    if s > 0 && image_row(data, stride, s - 1) == image_row(data, stride, height - 1) {
        lemma_repeat_start_bounds(data, stride, height, s - 1);
    }
}

proof fn lemma_repeat_end_bounds(data: Seq<u8>, stride: int, height: int, e: int)
    requires
        0 <= e < height,
    ensures
        e <= repeat_end_from(data, stride, height, e) < height,
    decreases height - e,
{
    if e + 1 < height && image_row(data, stride, e + 1) == image_row(data, stride, 0) {
        lemma_repeat_end_bounds(data, stride, height, e + 1);
    }
}

/// Trimming keeps at least one row of a non-empty texture and never reaches
/// past its last row.
pub proof fn lemma_trim_range_within(data: Seq<u8>, width: u32, height: u32, style: NoteBodyStyle)
    ensures
        ({
            let (start, len) = body_trim_range(data, width, height, style);
            &&& 0 <= start
            &&& start + len <= height
            &&& height >= 1 ==> len >= 1
        }),
{
    let stride = width * 4;
    if height > 1 {
        lemma_repeat_start_bounds(data, stride, height as int, height - 1);
        lemma_repeat_end_bounds(data, stride, height as int, 0);
    }
}

/// A note image configured for a column, and whether the image has any
/// visible pixel (which the caller finds out by decoding it).
#[derive(Debug, Clone)]
pub struct AssetCandidate {
    pub name: Option<String>,
    pub visible: bool,
}

/// The configured name, an empty name counting as none.
pub open spec fn configured_name(c: AssetCandidate) -> Option<Seq<char>> {
    match c.name {
        Some(n) => if n@.len() > 0 {
            Some(n@)
        } else {
            None
        },
        None => None,
    }
}

/// The first configured candidate with visible pixels: transparent images do
/// not block the fallbacks after them.
pub open spec fn first_visible_asset(cands: Seq<AssetCandidate>) -> Option<Seq<char>>
    decreases cands.len(),
{
    if cands.len() == 0 {
        None
    } else if configured_name(cands[0]) is Some && cands[0].visible {
        configured_name(cands[0])
    } else {
        first_visible_asset(cands.drop_first())
    }
}

fn configured_of(c: &AssetCandidate) -> (r: Option<String>)
    ensures
        match r {
            Some(n) => configured_name(*c) == Some(n@),
            None => configured_name(*c) is None,
        },
{
    match &c.name {
        Some(n) => if chars_of(n.as_str()).len() > 0 {
            Some(n.clone())
        } else {
            None
        },
        None => None,
    }
}

pub fn resolve_visible_gameplay_asset(cands: &[AssetCandidate]) -> (r: Option<String>)
    ensures
        match r {
            Some(n) => first_visible_asset(cands@) == Some(n@),
            None => first_visible_asset(cands@) is None,
        },
{
    let mut i: usize = 0;
    assert(cands@.skip(0) =~= cands@);
    while i < cands.len()
        invariant
            i <= cands@.len(),
            first_visible_asset(cands@) == first_visible_asset(cands@.skip(i as int)),
        decreases cands.len() - i,
    {
        assert(cands@.skip(i as int)[0] == cands@[i as int]);
        assert(cands@.skip(i as int).drop_first() =~= cands@.skip(i + 1));
        if cands[i].visible {
            if let Some(n) = configured_of(&cands[i]) {
                return Some(n);
            }
        }
        i = i + 1;
    }
    None
}

fn first_visible_of_two(a: &AssetCandidate, b: &AssetCandidate) -> (r: Option<String>)
    ensures
        match r {
            Some(n) => first_visible_asset(seq![*a, *b]) == Some(n@),
            None => first_visible_asset(seq![*a, *b]) is None,
        },
{
    assert(seq![*a, *b].drop_first() =~= seq![*b]);
    assert(seq![*b].drop_first() =~= Seq::<AssetCandidate>::empty());
    proof {
        reveal_with_fuel(first_visible_asset, 3);
    }
    if a.visible {
        if let Some(n) = configured_of(a) {
            return Some(n);
        }
    }
    if b.visible {
        if let Some(n) = configured_of(b) {
            return Some(n);
        }
    }
    None
}

/// The image a long-note tail is sized by: the configured tail image whether
/// or not it is visible, else the first visible of head and note images.
pub open spec fn tail_geometry_asset(tail: AssetCandidate, head: AssetCandidate, note: AssetCandidate) -> Option<Seq<char>> {
    match configured_name(tail) {
        Some(n) => Some(n),
        None => first_visible_asset(seq![head, note]),
    }
}

/// The image a long-note tail is drawn with: the configured tail image when it
/// is visible, nothing when it is transparent, and without a tail image the
/// first visible of head and note images.
pub open spec fn tail_draw_asset(tail: AssetCandidate, head: AssetCandidate, note: AssetCandidate) -> Option<Seq<char>> {
    match configured_name(tail) {
        Some(n) => if tail.visible {
            Some(n)
        } else {
            None
        },
        None => first_visible_asset(seq![head, note]),
    }
}

pub fn resolve_tail_geometry_asset(tail: &AssetCandidate, head: &AssetCandidate, note: &AssetCandidate) -> (r: Option<String>)
    ensures
        match r {
            Some(n) => tail_geometry_asset(*tail, *head, *note) == Some(n@),
            None => tail_geometry_asset(*tail, *head, *note) is None,
        },
{
    if let Some(n) = configured_of(tail) {
        return Some(n);
    }
    first_visible_of_two(head, note)
}

pub fn resolve_tail_draw_asset(tail: &AssetCandidate, head: &AssetCandidate, note: &AssetCandidate) -> (r: Option<String>)
    ensures
        match r {
            Some(n) => tail_draw_asset(*tail, *head, *note) == Some(n@),
            None => tail_draw_asset(*tail, *head, *note) is None,
        },
{
    if let Some(n) = configured_of(tail) {
        return if tail.visible {
            Some(n)
        } else {
            None
        };
    }
    first_visible_of_two(head, note)
}

} // verus!
