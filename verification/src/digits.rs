//! Rows of digit sprites (combo and score counters): glyph names and where
//! each glyph goes.
use vstd::prelude::*;
use crate::long_notes::{in_i32, trunc_half};
use crate::text::{push_decimal, push_str, string_from_chars, to_lowercase, unicode_lowercase};

verus! {

/// The sum of the first `k` widths.
pub open spec fn widths_sum(ws: Seq<u32>, k: int) -> int
    decreases k,
{
    if k <= 0 {
        0
    } else {
        widths_sum(ws, k - 1) + ws[k - 1]
    }
}

/// A row's width: the glyph widths, each overlapping the next by `overlap`.
pub open spec fn row_width(ws: Seq<u32>, overlap: i32) -> int {
    widths_sum(ws, ws.len() as int) - overlap * (if ws.len() > 0 {
        ws.len() - 1
    } else {
        0
    })
}

/// The row's left edge when centred on `center_x`.
pub open spec fn row_left(ws: Seq<u32>, overlap: i32, center_x: i32) -> int {
    center_x - trunc_half(row_width(ws, overlap))
}

/// Where glyph `i` goes: after the glyphs before it, less their overlaps.
pub open spec fn glyph_x(ws: Seq<u32>, overlap: i32, center_x: i32, i: int) -> int {
    row_left(ws, overlap, center_x) + widths_sum(ws, i) - overlap * i
}

/// All the arithmetic of the row fits `i32`.
pub open spec fn row_fits(ws: Seq<u32>, overlap: i32, center_x: i32) -> bool {
    &&& forall|k: int| 0 <= k <= ws.len() ==> in_i32(#[trigger] widths_sum(ws, k))
    &&& ws.len() <= i32::MAX
    &&& in_i32(overlap * (if ws.len() > 0 {
        ws.len() - 1
    } else {
        0
    }))
    &&& forall|k: int| 0 <= k < ws.len() ==> #[trigger] ws[k] <= i32::MAX
    &&& in_i32(row_width(ws, overlap))
    &&& in_i32(row_left(ws, overlap, center_x))
    &&& forall|k: int| 0 <= k <= ws.len() ==> in_i32(#[trigger] glyph_x(ws, overlap, center_x, k))
}

proof fn lemma_widths_sum_nonneg(ws: Seq<u32>, k: int)
    ensures
        widths_sum(ws, k) >= 0,
    decreases k,
{
    if k > 0 {
        lemma_widths_sum_nonneg(ws, k - 1);
    }
}

/// The left edge of a centred row of glyphs and the x of each glyph.
pub fn layout_digit_row(widths: &[u32], overlap: i32, center_x: i32) -> (r: (i32, Vec<i32>))
    requires
        row_fits(widths@, overlap, center_x),
    ensures
        r.0 as int == row_left(widths@, overlap, center_x),
        r.1@.len() == widths@.len(),
        forall|i: int| 0 <= i < widths@.len() ==> r.1@[i] as int == glyph_x(widths@, overlap, center_x, i),
{
    let n = widths.len();
    let mut sum: i32 = 0;
    let mut k: usize = 0;
    while k < n
        invariant
            n == widths@.len(),
            k <= n,
            row_fits(widths@, overlap, center_x),
            sum as int == widths_sum(widths@, k as int),
        decreases n - k,
    {
        assert(in_i32(widths_sum(widths@, k + 1)));
        sum = sum + widths[k] as i32;
        k = k + 1;
    }
    let count: i32 = if n > 0 {
        (n - 1) as i32
    } else {
        0
    };
    assert(in_i32(overlap * count as int));
    let total: i32 = sum - overlap * count;
    let half: i32 = crate::long_notes::half(total);
    let left: i32 = center_x - half;
    let mut xs: Vec<i32> = Vec::new();
    let mut x: i32 = left;
    let mut i: usize = 0;
    while i < n
        invariant
            n == widths@.len(),
            i <= n,
            row_fits(widths@, overlap, center_x),
            left as int == row_left(widths@, overlap, center_x),
            x as int == glyph_x(widths@, overlap, center_x, i as int),
            xs@.len() == i,
            forall|j: int| 0 <= j < i ==> xs@[j] as int == glyph_x(widths@, overlap, center_x, j),
        decreases n - i,
    {
        xs.push(x);
        assert(glyph_x(widths@, overlap, center_x, i + 1) == x + widths@[i as int] - overlap) by {
            assert(overlap * (i + 1) == overlap * i + overlap) by (nonlinear_arith);
        }
        assert(in_i32(glyph_x(widths@, overlap, center_x, i + 1)));
        let step: i64 = widths[i] as i64 - overlap as i64;
        x = (x as i64 + step) as i32;
        i = i + 1;
    }
    (left, xs)
}

/// The texture of combo digit `digit`: `<prefix>-<digit>.png`, lower-cased,
/// and its variant prescaled to `height` pixels.
pub open spec fn combo_glyph(prefix: Seq<char>, digit: u32) -> (Seq<char>, Seq<char>) {
    let base = unicode_lowercase(prefix + "-"@ + crate::text::decimal(digit as nat) + ".png"@);
    (base, base + "@hud_combo_"@)
}

pub fn combo_glyph_names(prefix: &str, digit: u32, height: u32) -> (names: (String, String))
    ensures
        names.0@ == combo_glyph(prefix@, digit).0,
        names.1@ == combo_glyph(prefix@, digit).1 + crate::text::decimal(height as nat),
{
    let mut raw: Vec<char> = Vec::new();
    push_str(&mut raw, prefix);
    push_str(&mut raw, "-");
    push_decimal(&mut raw, digit as u64);
    push_str(&mut raw, ".png");
    let base = to_lowercase(string_from_chars(&raw).as_str());
    let mut scaled: Vec<char> = crate::text::chars_of(base.as_str());
    push_str(&mut scaled, "@hud_combo_");
    push_decimal(&mut scaled, height as u64);
    (base, string_from_chars(&scaled))
}

} // verus!
