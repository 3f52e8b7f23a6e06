//! HUD texture names and bounds.
use vstd::prelude::*;
use crate::text::{
    chars_of, contains_chars, contains_seq, find_last, last_index_of, copy_range, push_chars,
    push_str, push_decimal, push_decimal_pad2, decimal, decimal_pad2, string_from_chars, trimmed,
    trim_white_space, ascii_lower_seq, to_ascii_lower, to_ascii_lower_char, ascii_lower,
    parse_unsigned, parse_unsigned_chars, is_ascii_digit, is_ascii_upper, is_ascii_lower,
    to_lowercase, unicode_lowercase, all_digits, digits_value,
};

verus! {

/// Size of a loaded texture.
#[derive(Debug, Clone, Copy)]
pub struct TextureMeta {
    pub w: u32,
    pub h: u32,
}

/// Inclusive pixel bounds of a texture's opaque area.
#[derive(Debug, Clone, Copy, PartialEq, Eq)]
pub struct OpaqueBounds {
    pub min_x: u32,
    pub min_y: u32,
    pub max_x: u32,
    pub max_y: u32,
}

/// The whole texture, when no opaque bounds were measured.
pub fn default_opaque_bounds(meta: TextureMeta) -> (b: OpaqueBounds)
    ensures
        b.min_x == 0,
        b.min_y == 0,
        b.max_x == (if meta.w > 0 { meta.w - 1 } else { 0 }),
        b.max_y == (if meta.h > 0 { meta.h - 1 } else { 0 }),
{
    OpaqueBounds {
        min_x: 0,
        min_y: 0,
        max_x: meta.w.saturating_sub(1),
        max_y: meta.h.saturating_sub(1),
    }
}

/// A life bar texture of at most 2x2 pixels is a placeholder and is not drawn.
pub fn drawable_life_bar_bounds(meta: TextureMeta, bounds: Option<OpaqueBounds>) -> (r: Option<
    OpaqueBounds,
>)
    ensures
        r == (if meta.w <= 2 && meta.h <= 2 {
            None
        } else {
            bounds
        }),
{
    if meta.w <= 2 && meta.h <= 2 {
        return None;
    }
    bounds
}

/// The two file names tried for frame `frame_idx` of a legacy animation:
/// `<base>-<n>.png`, then `<base>-<n>.jpg`.
pub open spec fn animation_frame_names(base: Seq<char>, frame_idx: nat) -> (Seq<char>, Seq<char>) {
    (
        base + "-"@ + decimal(frame_idx) + ".png"@,
        base + "-"@ + decimal(frame_idx) + ".jpg"@,
    )
}

pub fn legacy_animation_frame_texture(base_name: &str, frame_idx: usize) -> (names: [String; 2])
    ensures
        names[0]@ == animation_frame_names(base_name@, frame_idx as nat).0,
        names[1]@ == animation_frame_names(base_name@, frame_idx as nat).1,
{
    let mut stem: Vec<char> = Vec::new();
    push_str(&mut stem, base_name);
    push_str(&mut stem, "-");
    push_decimal(&mut stem, frame_idx as u64);
    let mut png: Vec<char> = Vec::new();
    push_chars(&mut png, &stem);
    push_str(&mut png, ".png");
    let mut jpg: Vec<char> = Vec::new();
    push_chars(&mut jpg, &stem);
    push_str(&mut jpg, ".jpg");
    [string_from_chars(&png), string_from_chars(&jpg)]
}

/// The `@2x` variant of a texture name: `stem@2x.ext`, split at the last dot;
/// none for a name that already has `@2x` or has no dot.
pub open spec fn hidpi_name(id: Seq<char>) -> Option<Seq<char>> {
    if contains_seq(id, "@2x"@) {
        None
    } else {
        match last_index_of(id, '.') {
            None => None,
            Some(i) => Some(id.take(i) + "@2x."@ + id.skip(i + 1)),
        }
    }
}

proof fn lemma_last_index_in_range(s: Seq<char>, c: char)
    ensures
        last_index_of(s, c) matches Some(i) ==> 0 <= i < s.len(),
    decreases s.len(),
{
    if s.len() > 0 && s.last() != c {
        lemma_last_index_in_range(s.drop_last(), c);
    }
}

pub fn hidpi_texture_name(texture_id: &str) -> (r: Option<String>)
    ensures
        match r {
            Some(n) => hidpi_name(texture_id@) == Some(n@),
            None => hidpi_name(texture_id@) is None,
        },
{
    let id = chars_of(texture_id);
    let marker = chars_of("@2x");
    if contains_chars(&id, &marker) {
        return None;
    }
    proof {
        lemma_last_index_in_range(id@, '.');
    }
    match find_last(&id, '.') {
        None => None,
        Some(i) => {
            let mut out = copy_range(&id, 0, i);
            push_str(&mut out, "@2x.");
            let ext = copy_range(&id, i + 1, id.len());
            push_chars(&mut out, &ext);
            assert(out@ =~= id@.take(i as int) + "@2x."@ + id@.skip(i + 1));
            Some(string_from_chars(&out))
        },
    }
}

/// Multiplicative mixing of a seed with a value (splitmix64 finaliser).
pub open spec fn mix(seed: u64, value: u64) -> u64 {
    let m0 = seed ^ value.wrapping_mul(0x9e37_79b9_7f4a_7c15);
    let m1 = m0 ^ (m0 >> 30u64);
    let m2 = m1.wrapping_mul(0xbf58_476d_1ce4_e5b9);
    let m3 = m2 ^ (m2 >> 27u64);
    let m4 = m3.wrapping_mul(0x94d0_49bb_1331_11eb);
    m4 ^ (m4 >> 31u64)
}

pub fn hash_mix(seed: u64, value: u64) -> (h: u64)
    ensures
        h == mix(seed, value),
{
    let mut mixed = seed ^ value.wrapping_mul(0x9e37_79b9_7f4a_7c15);
    mixed = mixed ^ (mixed >> 30u64);
    mixed = mixed.wrapping_mul(0xbf58_476d_1ce4_e5b9);
    mixed = mixed ^ (mixed >> 27u64);
    mixed = mixed.wrapping_mul(0x94d0_49bb_1331_11eb);
    mixed ^ (mixed >> 31u64)
}

/// The key index of a key name `k1`..`k32` (trimmed, any ASCII case), counted from zero.
pub open spec fn key_index_of(raw: Seq<char>) -> Option<u32> {
    let t = ascii_lower_seq(trimmed(raw));
    if t.len() > 0 && t[0] == 'k' {
        match parse_unsigned(t.drop_first(), u32::MAX as nat) {
            Some(n) => if 1 <= n <= 32 {
                Some((n - 1) as u32)
            } else {
                None
            },
            None => None,
        }
    } else {
        None
    }
}

pub fn key_index(raw: &str) -> (r: Option<u32>)
    ensures
        r == key_index_of(raw@),
{
    let t = to_ascii_lower(&trim_white_space(&chars_of(raw)));
    if t.len() == 0 || t[0] != 'k' {
        return None;
    }
    let rest = copy_range(&t, 1, t.len());
    assert(rest@ =~= t@.drop_first());
    match parse_unsigned_chars(&rest, u32::MAX as u64) {
        Some(n) => {
            if 1 <= n && n <= 32 {
                Some((n - 1) as u32)
            } else {
                None
            }
        },
        None => None,
    }
}

/// Whole seconds of a song position (negative counts as zero).
pub open spec fn song_seconds(ms: i32) -> nat {
    if ms > 0 {
        (ms / 1000) as nat
    } else {
        0
    }
}

/// `mm:ss`, each part zero-padded to two digits (minutes may use more).
pub open spec fn song_time_text(ms: i32) -> Seq<char> {
    decimal_pad2(song_seconds(ms) / 60) + ":"@ + decimal_pad2(song_seconds(ms) % 60)
}

pub fn format_song_time(ms: i32) -> (t: String)
    ensures
        t@ == song_time_text(ms),
{
    let clamped: i32 = if ms > 0 {
        ms
    } else {
        0
    };
    let total_seconds = (clamped / 1000) as u64;
    let mut out: Vec<char> = Vec::new();
    push_decimal_pad2(&mut out, total_seconds / 60);
    push_str(&mut out, ":");
    push_decimal_pad2(&mut out, total_seconds % 60);
    string_from_chars(&out)
}

/// A character kept in a texture name (ASCII alphanumerics, `_`, `-`), lower-cased;
/// anything else becomes `_`.
pub open spec fn texture_char(c: char) -> char {
    if is_ascii_digit(c) || is_ascii_upper(c) || is_ascii_lower(c) || c == '_' || c == '-' {
        ascii_lower(c)
    } else {
        '_'
    }
}

/// A string made safe for a texture name; `asset` when it is empty.
pub open spec fn sanitized_component(value: Seq<char>) -> Seq<char> {
    if value.len() == 0 {
        "asset"@
    } else {
        value.map_values(|c: char| texture_char(c))
    }
}

pub fn sanitize_texture_component(value: &str) -> (s: String)
    ensures
        s@ == sanitized_component(value@),
{
    let chars = chars_of(value);
    if chars.len() == 0 {
        return String::from_str("asset");
    }
    let mut out: Vec<char> = Vec::new();
    for k in 0..chars.len()
        invariant
            out@ == chars@.take(k as int).map_values(|c: char| texture_char(c)),
    {
        let c = chars[k];
        let keep = ('0' <= c && c <= '9') || ('A' <= c && c <= 'Z') || ('a' <= c && c <= 'z')
            || c == '_' || c == '-';
        if keep {
            out.push(to_ascii_lower_char(c));
        } else {
            out.push('_');
        }
        assert(out@ =~= chars@.take(k + 1).map_values(|c: char| texture_char(c)));
    }
    assert(chars@.take(chars.len() as int) =~= chars@);
    string_from_chars(&out)
}

/// Custom HUD images: both sides positive, at most 4096, at most 8,294,400 pixels.
pub open spec fn asset_dimensions_ok(width: u32, height: u32) -> bool {
    width > 0 && height > 0 && width <= 4096 && height <= 4096 && width * height <= 8_294_400
}

pub fn hud_asset_dimensions_within_limits(width: u32, height: u32) -> (ok: bool)
    ensures
        ok == asset_dimensions_ok(width, height),
{
    if width == 0 || height == 0 {
        return false;
    }
    if width > 4096 || height > 4096 {
        return false;
    }
    assert(width as int * height as int <= 4096 * 4096) by (nonlinear_arith)
        requires
            width <= 4096,
            height <= 4096,
    ;
    (width as u64) * (height as u64) <= 8_294_400
}

/// Largest custom HUD asset file, in bytes (10 MiB).
pub const HUD_ASSET_MAX_FILE_BYTES: u64 = 10_485_760;

/// Most frames an animated HUD asset may have.
pub const HUD_GIF_MAX_FRAMES: usize = 120;

/// Most pixels all frames of an animated HUD asset may have together.
pub const HUD_GIF_MAX_TOTAL_PIXELS: u64 = 60_000_000;

/// A HUD asset file is loaded only when it is non-empty and at most 10 MiB.
pub fn hud_asset_file_size_within_limits(len: u64) -> (ok: bool)
    ensures
        ok == (0 < len && len <= HUD_ASSET_MAX_FILE_BYTES),
{
    len > 0 && len <= HUD_ASSET_MAX_FILE_BYTES
}

/// Whether frame `index` of an animated asset may still be read.
pub fn gif_frame_index_allowed(index: usize) -> (ok: bool)
    ensures
        ok == (index < HUD_GIF_MAX_FRAMES),
{
    index < HUD_GIF_MAX_FRAMES
}

/// The running pixel count of an animated asset after one more frame of
/// `width` x `height`: none when the frame's size is out of limits or the total
/// passes the cap (the addition saturates).
pub open spec fn gif_total_after(total: u64, width: u32, height: u32) -> Option<u64> {
    let sum = total + width * height;
    let t: u64 = if sum > u64::MAX {
        u64::MAX
    } else {
        sum as u64
    };
    if !asset_dimensions_ok(width, height) || t > HUD_GIF_MAX_TOTAL_PIXELS {
        None
    } else {
        Some(t)
    }
}

pub fn gif_pixel_total_after(total: u64, width: u32, height: u32) -> (r: Option<u64>)
    ensures
        r == gif_total_after(total, width, height),
{
    if !hud_asset_dimensions_within_limits(width, height) {
        return None;
    }
    assert(width as int * height as int <= u32::MAX as int * u32::MAX as int) by (nonlinear_arith)
        requires
            width <= u32::MAX,
            height <= u32::MAX,
    ;
    let pixels = (width as u64) * (height as u64);
    let t = total.saturating_add(pixels);
    if t > HUD_GIF_MAX_TOTAL_PIXELS {
        None
    } else {
        Some(t)
    }
}

/// Texture name of frame `index` of a HUD asset: `hud_asset_<id>_<index>`, the id sanitized.
pub open spec fn asset_texture_id(asset_id: Seq<char>, index: nat) -> Seq<char> {
    "hud_asset_"@ + sanitized_component(asset_id) + "_"@ + decimal(index)
}

pub fn hud_asset_texture_id(asset_id: &str, index: usize) -> (id: String)
    ensures
        id@ == asset_texture_id(asset_id@, index as nat),
{
    let clean = sanitize_texture_component(asset_id);
    let mut out: Vec<char> = Vec::new();
    push_str(&mut out, "hud_asset_");
    push_str(&mut out, clean.as_str());
    push_str(&mut out, "_");
    push_decimal(&mut out, index as u64);
    string_from_chars(&out)
}

/// A layer's asset id: `assetId` if present (else `asset_id`), unless blank.
pub open spec fn chosen_asset_id(asset_id: Option<Seq<char>>, asset_id_alt: Option<Seq<char>>) -> Option<Seq<char>> {
    let id = match asset_id {
        Some(a) => Some(a),
        None => asset_id_alt,
    };
    match id {
        Some(a) => if trimmed(a).len() == 0 {
            None
        } else {
            Some(a)
        },
        None => None,
    }
}

pub fn layer_asset_id<'a>(asset_id: Option<&'a str>, asset_id_alt: Option<&'a str>) -> (r: Option<&'a str>)
    ensures
        (match r {
            Some(s) => Some(s@),
            None => None,
        }) == chosen_asset_id(
            match asset_id {
                Some(s) => Some(s@),
                None => None,
            },
            match asset_id_alt {
                Some(s) => Some(s@),
                None => None,
            },
        ),
{
    let id = match asset_id {
        Some(a) => Some(a),
        None => asset_id_alt,
    };
    match id {
        Some(a) => {
            if trim_white_space(&chars_of(a)).len() == 0 {
                None
            } else {
                Some(a)
            }
        },
        None => None,
    }
}

/// Which legacy HUD number a glyph belongs to.
#[derive(Debug, Clone, Copy, PartialEq, Eq, Structural)]
pub enum LegacyHudTextKind {
    Score,
    Accuracy,
}

/// The skin file of one glyph of a legacy HUD number, lower-cased:
/// `<prefix>-percent.png` for an accuracy `%`, `<prefix>-dot.png`,
/// `<prefix>-comma.png`, and `<prefix>-<ch>.png` for anything else.
pub open spec fn glyph_base_name(kind: LegacyHudTextKind, prefix: Seq<char>, ch: char) -> Seq<char> {
    unicode_lowercase(
        if ch == '%' && kind == LegacyHudTextKind::Accuracy {
            prefix + "-percent.png"@
        } else if ch == '.' {
            prefix + "-dot.png"@
        } else if ch == ',' {
            prefix + "-comma.png"@
        } else {
            prefix + "-"@ + seq![ch] + ".png"@
        },
    )
}

pub fn legacy_hud_base_name(kind: LegacyHudTextKind, prefix: &str, ch: char) -> (name: String)
    ensures
        name@ == glyph_base_name(kind, prefix@, ch),
{
    let mut out: Vec<char> = Vec::new();
    push_str(&mut out, prefix);
    if ch == '%' && kind == LegacyHudTextKind::Accuracy {
        push_str(&mut out, "-percent.png");
    } else if ch == '.' {
        push_str(&mut out, "-dot.png");
    } else if ch == ',' {
        push_str(&mut out, "-comma.png");
    } else {
        push_str(&mut out, "-");
        out.push(ch);
        push_str(&mut out, ".png");
    }
    assert(out@ =~= (if ch == '%' && kind == LegacyHudTextKind::Accuracy {
        prefix@ + "-percent.png"@
    } else if ch == '.' {
        prefix@ + "-dot.png"@
    } else if ch == ',' {
        prefix@ + "-comma.png"@
    } else {
        prefix@ + "-"@ + seq![ch] + ".png"@
    }));
    let raw = string_from_chars(&out);
    to_lowercase(raw.as_str())
}


/// Sanitizing is idempotent: a sanitized name is already safe.
pub proof fn lemma_sanitize_idempotent(value: Seq<char>)
    ensures
        sanitized_component(sanitized_component(value)) == sanitized_component(value),
{
    let once = sanitized_component(value);
    reveal_strlit("asset");
    assert(once.len() > 0);
    assert(sanitized_component(once) =~= once);
}

/// A `@2x` name is never given a second `@2x`.
pub proof fn lemma_hidpi_name_once(id: Seq<char>)
    ensures
        hidpi_name(id) matches Some(hidpi) ==> hidpi_name(hidpi) is None,
{
    if let Some(hidpi) = hidpi_name(id) {
        lemma_last_index_in_range(id, '.');
        let i = last_index_of(id, '.').unwrap();
        reveal_strlit("@2x");
        reveal_strlit("@2x.");
        assert(hidpi.subrange(i, i + 3) =~= "@2x"@);
        assert(contains_seq(hidpi, "@2x"@));
    }
}


/// A texture id lower-cased (ASCII), and its `@2x` variant: `@2x` goes in
/// front of the last dot's extension, or at the end without a dot.
pub open spec fn hidpi_candidate(texture_id: Seq<char>) -> (Seq<char>, Seq<char>) {
    let normalized = ascii_lower_seq(texture_id);
    match last_index_of(normalized, '.') {
        Some(i) => (normalized, normalized.take(i) + "@2x"@ + normalized.skip(i)),
        None => (normalized, normalized + "@2x"@),
    }
}

pub fn hidpi_texture_candidate(texture_id: &str) -> (r: (String, String))
    ensures
        (r.0@, r.1@) == hidpi_candidate(texture_id@),
{
    let normalized = to_ascii_lower(&chars_of(texture_id));
    proof {
        lemma_last_index_in_range(normalized@, '.');
    }
    let hidpi = match find_last(&normalized, '.') {
        Some(i) => {
            let mut out = copy_range(&normalized, 0, i);
            push_str(&mut out, "@2x");
            let ext = copy_range(&normalized, i, normalized.len());
            push_chars(&mut out, &ext);
            assert(out@ =~= normalized@.take(i as int) + "@2x"@ + normalized@.skip(i as int));
            out
        },
        None => {
            let mut out = normalized.clone();
            push_str(&mut out, "@2x");
            out
        },
    };
    (string_from_chars(&normalized), string_from_chars(&hidpi))
}

/// `s` without any number of trailing copies of `suffix`.
pub open spec fn strip_suffixes(s: Seq<char>, suffix: Seq<char>) -> Seq<char>
    decreases s.len(),
{
    if suffix.len() > 0 && s.len() >= suffix.len() && s.skip(s.len() - suffix.len()) == suffix {
        strip_suffixes(s.take(s.len() - suffix.len()), suffix)
    } else {
        s
    }
}

/// The animation a skin texture belongs to: the name without `.png`, `.jpg`
/// or `.jpeg` endings and without a trailing `-<digits>` frame number.
pub open spec fn animation_base_name(key: Seq<char>) -> Seq<char> {
    let w = strip_suffixes(strip_suffixes(strip_suffixes(key, ".png"@), ".jpg"@), ".jpeg"@);
    match last_index_of(w, '-') {
        Some(i) => if (forall|j: int| i + 1 <= j < w.len() ==> #[trigger] is_ascii_digit(w[j])) {
            w.take(i)
        } else {
            w
        },
        None => w,
    }
}

pub(crate) fn strip_suffix_chars(s: &Vec<char>, suffix: &str) -> (out: Vec<char>)
    ensures
        out@ == strip_suffixes(s@, suffix@),
{
    let suf = chars_of(suffix);
    let mut cur = s.clone();
    if suf.len() == 0 {
        return cur;
    }
    while cur.len() >= suf.len() && ends_with_suffix(&cur, &suf)
        invariant
            suf@ == suffix@,
            suf@.len() > 0,
            strip_suffixes(cur@, suf@) == strip_suffixes(s@, suf@),
        decreases cur.len(),
    {
        let n = cur.len() - suf.len();
        cur = copy_range(&cur, 0, n);
    }
    cur
}

fn ends_with_suffix(s: &Vec<char>, suffix: &Vec<char>) -> (b: bool)
    requires
        s@.len() >= suffix@.len(),
    ensures
        b == (s@.skip(s@.len() - suffix@.len()) == suffix@),
{
    let off: usize = s.len() - suffix.len();
    let mut k: usize = 0;
    while k < suffix.len()
        invariant
            suffix@.len() <= s@.len() <= usize::MAX,
            off == s@.len() - suffix@.len(),
            k <= suffix@.len(),
            forall|j: int| 0 <= j < k ==> s@[off + j] == suffix@[j],
        decreases suffix@.len() - k,
    {
        let idx: usize = off + k;
        if s[idx] != suffix[k] {
            assert(s@.skip(off as int)[k as int] != suffix@[k as int]);
            return false;
        }
        k = k + 1;
    }
    assert(s@.skip(off as int) =~= suffix@);
    true
}

pub fn gameplay_animation_base_name(normalized_key: &str) -> (name: String)
    ensures
        name@ == animation_base_name(normalized_key@),
{
    let key = chars_of(normalized_key);
    let a = strip_suffix_chars(&key, ".png");
    let b = strip_suffix_chars(&a, ".jpg");
    let w = strip_suffix_chars(&b, ".jpeg");
    proof {
        lemma_last_index_in_range(w@, '-');
    }
    match find_last(&w, '-') {
        Some(i) => {
            let n: usize = w.len();
            let mut all = true;
            let mut j: usize = i + 1;
            while j < n
                invariant
                    n == w@.len(),
                    i < w@.len(),
                    i + 1 <= j <= w@.len(),
                    all == (forall|m: int| i + 1 <= m < j ==> #[trigger] is_ascii_digit(w@[m])),
                decreases n - j,
            {
                let c = w[j];
                assert(is_ascii_digit(w@[j as int]) == ('0' <= c && c <= '9'));
                if !('0' <= c && c <= '9') {
                    all = false;
                }
                j = j + 1;
            }
            if all {
                string_from_chars(&copy_range(&w, 0, i))
            } else {
                string_from_chars(&w)
            }
        },
        None => string_from_chars(&w),
    }
}

/// A GIF frame's delay as played: at least 20 ms.
pub open spec fn played_delay(d: u32) -> int {
    if d >= 20 {
        d as int
    } else {
        20
    }
}

pub open spec fn delays_total(delays: Seq<u32>) -> int
    decreases delays.len(),
{
    if delays.len() == 0 {
        0
    } else {
        delays_total(delays.drop_last()) + played_delay(delays.last())
    }
}

/// The frame at `cursor` milliseconds into the loop, from frame `k` on; the
/// first frame if the cursor runs past the end.
pub open spec fn frame_at_cursor(delays: Seq<u32>, k: int, cursor: int) -> int
    decreases delays.len() - k,
{
    if k >= delays.len() {
        0
    } else if cursor < played_delay(delays[k]) {
        k
    } else {
        frame_at_cursor(delays, k + 1, cursor - played_delay(delays[k]))
    }
}

/// The frame of a looping GIF shown at `timestamp_ms`: the animation loops
/// over its frames' delays (20 ms at least each), and negative times count
/// back from the loop's end.
pub open spec fn gif_frame(delays: Seq<u32>, timestamp_ms: i32) -> Option<int> {
    if delays.len() == 0 {
        None
    } else {
        Some(frame_at_cursor(delays, 0, timestamp_ms as int % delays_total(delays)))
    }
}

proof fn lemma_delays_total_grows(delays: Seq<u32>, k: int)
    requires
        0 <= k <= delays.len(),
    ensures
        delays_total(delays.take(k)) <= delays_total(delays),
        k < delays.len() ==> delays_total(delays.take(k + 1)) == delays_total(delays.take(k)) + played_delay(delays[k]),
        delays.len() > 0 ==> delays_total(delays) >= 20,
    decreases delays.len(),
{
    if delays.len() > 0 {
        if k < delays.len() {
            assert(delays.take(k + 1).drop_last() =~= delays.take(k));
        }
        if k == delays.len() {
            assert(delays.take(k) =~= delays);
        } else {
            lemma_delays_total_grows(delays.drop_last(), k);
            assert(delays.drop_last().take(k) =~= delays.take(k));
        }
        if delays.len() > 1 {
            lemma_delays_total_grows(delays.drop_last(), 0);
        }
    }
}

pub fn gif_frame_index(delays: &[u32], timestamp_ms: i32) -> (r: Option<usize>)
    requires
        delays_total(delays@) <= i32::MAX,
    ensures
        match r {
            Some(i) => gif_frame(delays@, timestamp_ms) == Some(i as int) && i < delays@.len(),
            None => gif_frame(delays@, timestamp_ms) is None,
        },
{
    let n = delays.len();
    if n == 0 {
        return None;
    }
    let mut total: u32 = 0;
    let mut k: usize = 0;
    while k < n
        invariant
            n == delays@.len(),
            k <= n,
            delays_total(delays@) <= i32::MAX,
            total as int == delays_total(delays@.take(k as int)),
        decreases n - k,
    {
        proof {
            lemma_delays_total_grows(delays@, k as int);
            lemma_delays_total_grows(delays@, k + 1);
        }
        let d = if delays[k] >= 20 {
            delays[k]
        } else {
            20
        };
        total = total + d;
        k = k + 1;
    }
    proof {
        lemma_delays_total_grows(delays@, n as int);
        assert(delays@.take(n as int) =~= delays@);
    }
    let rem: u32 = if timestamp_ms >= 0 {
        (timestamp_ms as u32) % total
    } else {
        let a: u32 = (0 - (timestamp_ms as i64)) as u32;
        let m: u32 = a % total;
        proof {
            let q: int = a as int / total as int;
            assert(a as int == q * total as int + m as int && 0 <= m < total) by (nonlinear_arith)
                requires
                    total > 0,
                    q == a as int / total as int,
                    m as int == a as int % total as int,
            ;
            if m == 0 {
                assert(0 - a as int == (0 - q) * total as int) by (nonlinear_arith)
                    requires
                        a as int == q * total as int,
                ;
                vstd::arithmetic::div_mod::lemma_fundamental_div_mod_converse(0 - a as int, total as int, 0 - q, 0);
            } else {
                assert(0 - a as int == (0 - q - 1) * total as int + (total - m)) by (nonlinear_arith)
                    requires
                        a as int == q * total as int + m as int,
                ;
                vstd::arithmetic::div_mod::lemma_fundamental_div_mod_converse(
                    0 - a as int,
                    total as int,
                    0 - q - 1,
                    total - m,
                );
            }
        }
        if m == 0 {
            0
        } else {
            total - m
        }
    };
    assert(rem as int == timestamp_ms as int % total as int);
    let mut cursor: u32 = rem as u32;
    let mut i: usize = 0;
    while i < n
        invariant
            n == delays@.len(),
            i <= n,
            frame_at_cursor(delays@, 0, timestamp_ms as int % delays_total(delays@)) == frame_at_cursor(
                delays@,
                i as int,
                cursor as int,
            ),
        decreases n - i,
    {
        let d = if delays[i] >= 20 {
            delays[i]
        } else {
            20
        };
        if cursor < d {
            return Some(i);
        }
        cursor = cursor - d;
        i = i + 1;
    }
    Some(0)
}

/// A GIF loops: one whole loop later it shows the same frame.
pub proof fn lemma_gif_playback_loops(delays: Seq<u32>, t: i32, later: i32)
    requires
        delays.len() > 0,
        later == t + delays_total(delays),
    ensures
        gif_frame(delays, later) == gif_frame(delays, t),
{
    lemma_delays_total_grows(delays, 0);
    vstd::arithmetic::div_mod::lemma_mod_add_multiples_vanish(t as int, delays_total(delays));
}


/// Each frame of a legacy animation is tried under its own names: different
/// frames never share a name, and a frame's PNG and JPEG names differ.
pub proof fn lemma_animation_frame_names_distinct(base: Seq<char>, n: nat, m: nat)
    ensures
        n != m ==> animation_frame_names(base, n).0 != animation_frame_names(base, m).0,
        n != m ==> animation_frame_names(base, n).1 != animation_frame_names(base, m).1,
        animation_frame_names(base, n).0 != animation_frame_names(base, n).1,
{
    reveal_strlit(".png");
    reveal_strlit(".jpg");
    crate::text::lemma_numbered_names_distinct(base + "-"@, ".png"@, n, m);
    crate::text::lemma_numbered_names_distinct(base + "-"@, ".jpg"@, n, m);
    assert(animation_frame_names(base, n).0 =~= (base + "-"@) + decimal(n) + ".png"@);
    assert(animation_frame_names(base, m).0 =~= (base + "-"@) + decimal(m) + ".png"@);
    assert(animation_frame_names(base, n).1 =~= (base + "-"@) + decimal(n) + ".jpg"@);
    assert(animation_frame_names(base, m).1 =~= (base + "-"@) + decimal(m) + ".jpg"@);
    let p = animation_frame_names(base, n).0;
    let q = animation_frame_names(base, n).1;
    assert(p[p.len() - 3] == 'p');
    assert(q[q.len() - 3] == 'j');
}


/// A song time reads back: the text is minutes, a colon and two digits of
/// seconds below 60, and minutes times 60 plus seconds give back the whole
/// seconds elapsed (none before the start); minutes have at least two digits.
pub proof fn lemma_song_time_reads_back(ms: i32)
    ensures
        ({
            let t = song_time_text(ms);
            let colon = t.len() - 3;
            let mins = t.take(colon);
            let secs = t.skip(colon + 1);
            &&& t.len() >= 5
            &&& t[colon] == ':'
            &&& mins.len() >= 2 && all_digits(mins)
            &&& secs.len() == 2 && all_digits(secs)
            &&& digits_value(secs) < 60
            &&& digits_value(mins) * 60 + digits_value(secs) == song_seconds(ms)
        }),
{
    reveal_strlit(":");
    let total = song_seconds(ms);
    let m = decimal_pad2(total / 60);
    let s = decimal_pad2(total % 60);
    crate::text::lemma_pad2_parses(total / 60);
    crate::text::lemma_pad2_parses(total % 60);
    let t = song_time_text(ms);
    assert(t =~= m + ":"@ + s);
    let colon = t.len() - 3;
    assert(t.take(colon) =~= m);
    assert(t.skip(colon + 1) =~= s);
    assert(t[colon] == ':');
}

} // verus!
