//! Values read from custom HUD layer properties: hex colours, key labels and
//! judgment-counter visibility.
use vstd::prelude::*;
use crate::hud::{key_index_of, format_song_time, song_time_text};
use crate::judgment::{judgment_binding_index, judgment_kind_index, binding_index, judgment_index};
use crate::state::LastJudgment;
use crate::text::{
    chars_of, trimmed, trim_white_space, push_str, push_decimal, decimal, string_from_chars,
    lemma_decimal_parses, is_white_space, is_ascii_digit, trim_start_of, trim_end_of, CharClass,
    ascii_lower_seq, unsigned_digits, chars_equal_str, push_chars,
};

verus! {

/// ASCII hexadecimal digits, either case.
pub open spec fn is_hex_digit(c: char) -> bool {
    ('0' <= c && c <= '9') || ('a' <= c && c <= 'f') || ('A' <= c && c <= 'F')
}

pub open spec fn hex_digit_value(c: char) -> nat {
    if '0' <= c && c <= '9' {
        (c as u32 - '0' as u32) as nat
    } else if 'a' <= c && c <= 'f' {
        (c as u32 - 'a' as u32 + 10) as nat
    } else {
        (c as u32 - 'A' as u32 + 10) as nat
    }
}

pub open spec fn all_hex(s: Seq<char>) -> bool {
    forall|i: int| 0 <= i < s.len() ==> is_hex_digit(#[trigger] s[i])
}

/// The number written by hexadecimal digits.
pub open spec fn hex_value(s: Seq<char>) -> nat
    decreases s.len(),
{
    if s.len() == 0 {
        0
    } else {
        hex_value(s.drop_last()) * 16 + hex_digit_value(s.last())
    }
}

pub open spec fn pow16(n: nat) -> nat
    decreases n,
{
    if n == 0 {
        1
    } else {
        pow16((n - 1) as nat) * 16
    }
}

/// Each character written twice (`#abc` is short for `#aabbcc`).
pub open spec fn doubled(s: Seq<char>) -> Seq<char>
    decreases s.len(),
{
    if s.len() == 0 {
        seq![]
    } else {
        doubled(s.drop_last()) + seq![s.last(), s.last()]
    }
}

/// The colour channels of `#rgb`, `#rrggbb` or `#rrggbbaa` (surrounding white
/// space allowed; alpha 255 when not given). The digits are read as one
/// unsigned hexadecimal number, which may carry a leading `+`.
pub open spec fn hex_rgba(input: Seq<char>) -> Option<[u8; 4]> {
    let t = trimmed(input);
    if t.len() == 0 || t[0] != '#' {
        None
    } else {
        let h0 = t.drop_first();
        let h = if h0.len() == 3 {
            doubled(h0)
        } else {
            h0
        };
        let digits = if h.len() > 0 && h[0] == '+' {
            h.drop_first()
        } else {
            h
        };
        if (h.len() != 6 && h.len() != 8) || digits.len() == 0 || !all_hex(digits) {
            None
        } else {
            Some(channels(hex_value(digits), h.len() == 8))
        }
    }
}

/// The channels of a parsed hex number: four bytes when eight digits were
/// written, else three bytes and an opaque alpha.
pub open spec fn channels(raw: nat, with_alpha: bool) -> [u8; 4] {
    if with_alpha {
        [
            ((raw / 0x100_0000) % 256) as u8,
            ((raw / 0x1_0000) % 256) as u8,
            ((raw / 0x100) % 256) as u8,
            (raw % 256) as u8,
        ]
    } else {
        [((raw / 0x1_0000) % 256) as u8, ((raw / 0x100) % 256) as u8, (raw % 256) as u8, 255u8]
    }
}

fn hex_digit(c: char) -> (r: Option<u32>)
    ensures
        match r {
            Some(v) => is_hex_digit(c) && v == hex_digit_value(c),
            None => !is_hex_digit(c),
        },
{
    if '0' <= c && c <= '9' {
        Some(c as u32 - '0' as u32)
    } else if 'a' <= c && c <= 'f' {
        Some(c as u32 - 'a' as u32 + 10)
    } else if 'A' <= c && c <= 'F' {
        Some(c as u32 - 'A' as u32 + 10)
    } else {
        None
    }
}

proof fn lemma_pow16_le(a: nat, b: nat)
    requires
        a <= b,
    ensures
        pow16(a) <= pow16(b),
    decreases b,
{
    if a < b {
        lemma_pow16_le(a, (b - 1) as nat);
    }
}

proof fn lemma_pow16_8()
    ensures
        pow16(8) == 0x1_0000_0000,
{
    reveal_with_fuel(pow16, 9);
}

proof fn lemma_doubled_len(s: Seq<char>)
    ensures
        doubled(s).len() == 2 * s.len(),
        forall|i: int| 0 <= i < s.len() ==> #[trigger] doubled(s)[2 * i] == s[i] && doubled(s)[2 * i + 1]
            == s[i],
    decreases s.len(),
{
    if s.len() > 0 {
        lemma_doubled_len(s.drop_last());
        let d = doubled(s.drop_last());
        assert forall|i: int| 0 <= i < s.len() implies #[trigger] doubled(s)[2 * i] == s[i]
            && doubled(s)[2 * i + 1] == s[i] by {
            if i < s.len() - 1 {
                assert(doubled(s)[2 * i] == d[2 * i]);
                assert(doubled(s)[2 * i + 1] == d[2 * i + 1]);
            }
        }
    }
}

/// Parses a hex colour into its channels (see `hex_rgba`).
pub fn parse_hex_rgba(input: &str) -> (r: Option<[u8; 4]>)
    ensures
        r == hex_rgba(input@),
{
    let t = trim_white_space(&chars_of(input));
    if t.len() == 0 || t[0] != '#' {
        return None;
    }
    let mut h: Vec<char> = Vec::new();
    if t.len() == 4 {
        let ghost h0 = t@.drop_first();
        proof {
            lemma_doubled_len(h0);
        }
        for k in 1..4
            invariant
                t@.len() == 4,
                h0 == t@.drop_first(),
                h@ == doubled(h0.take(k - 1)),
        {
            assert(h0.take(k as int).drop_last() =~= h0.take(k - 1));
            assert(h0.take(k as int).last() == t@[k as int]);
            let c = t[k];
            h.push(c);
            h.push(c);
            assert(h@ =~= doubled(h0.take(k as int)));
        }
        assert(h0.take(3) =~= h0);
    } else {
        for k in 1..t.len()
            invariant
                h@ == t@.drop_first().take(k - 1),
        {
            h.push(t[k]);
            assert(h@ =~= t@.drop_first().take(k as int));
        }
        assert(t@.drop_first().take(t@.len() - 1) =~= t@.drop_first());
    }
    assert(h@ == (if t@.drop_first().len() == 3 {
        doubled(t@.drop_first())
    } else {
        t@.drop_first()
    }));
    let ghost hv = h@;
    if h.len() != 6 && h.len() != 8 {
        return None;
    }
    let start: usize = if h[0] == '+' {
        1
    } else {
        0
    };
    let ghost digits = if h@.len() > 0 && h@[0] == '+' {
        h@.drop_first()
    } else {
        h@
    };
    assert(digits =~= h@.skip(start as int));
    if start >= h.len() {
        return None;
    }
    proof {
        let tt = trimmed(input@);
        assert(tt == t@);
        assert(tt.len() > 0 && tt[0] == '#');
        let hh = if tt.drop_first().len() == 3 {
            doubled(tt.drop_first())
        } else {
            tt.drop_first()
        };
        assert(hh == h@);
        let dd = if hh.len() > 0 && hh[0] == '+' {
            hh.drop_first()
        } else {
            hh
        };
        assert(dd == digits);
        assert(hh.len() == 6 || hh.len() == 8);
        assert(dd.len() > 0);
    }
    assert(hex_rgba(input@) == (if all_hex(digits) {
        Some(channels(hex_value(digits), h@.len() == 8))
    } else {
        None
    }));
    let mut raw: u32 = 0;
    let mut k: usize = start;
    proof {
        lemma_pow16_le(0, (h@.len() - start) as nat);
        lemma_pow16_le((h@.len() - start) as nat, 8);
    }
    while k < h.len()
        invariant
            hv == h@,
            h@.len() == 6 || h@.len() == 8,
            start <= k <= h@.len(),
            start <= 1,
            digits == h@.skip(start as int),
            digits.len() > 0,
            hex_rgba(input@) == (if all_hex(digits) {
                Some(channels(hex_value(digits), h@.len() == 8))
            } else {
                None
            }),
            forall|i: int| 0 <= i < k - start ==> is_hex_digit(#[trigger] digits[i]),
            raw == hex_value(digits.take(k - start)),
            raw < pow16((k - start) as nat),
            pow16((k - start) as nat) <= pow16((h@.len() - start) as nat),
            pow16((h@.len() - start) as nat) <= pow16(8),
        decreases h@.len() - k,
    {
        proof {
            lemma_pow16_le((h@.len() - start) as nat, 8);
            lemma_pow16_le((k + 1 - start) as nat, (h@.len() - start) as nat);
        }
        let d = match hex_digit(h[k]) {
            Some(d) => d,
            None => {
                assert(!is_hex_digit(digits[k - start]));
                return None;
            },
        };
        assert(digits.take(k + 1 - start).drop_last() =~= digits.take(k - start));
        assert(digits.take(k + 1 - start).last() == h@[k as int]);
        assert(pow16((k + 1 - start) as nat) == pow16((k - start) as nat) * 16);
        proof {
            lemma_pow16_8();
        }
        raw = raw * 16 + d;
        k = k + 1;
    }
    assert(digits.take(h@.len() - start) =~= digits);
    let r0 = ((raw >> 24u32) & 0xff) as u8;
    let r1 = ((raw >> 16u32) & 0xff) as u8;
    let r2 = ((raw >> 8u32) & 0xff) as u8;
    let r3 = (raw & 0xff) as u8;
    assert(((raw >> 24u32) & 0xff) == (raw / 0x100_0000) % 256) by (bit_vector);
    assert(((raw >> 16u32) & 0xff) == (raw / 0x1_0000) % 256) by (bit_vector);
    assert(((raw >> 8u32) & 0xff) == (raw / 0x100) % 256) by (bit_vector);
    assert((raw & 0xff) == raw % 256) by (bit_vector);
    if h.len() == 8 {
        Some([r0, r1, r2, r3])
    } else {
        Some([r1, r2, r3, 255u8])
    }
}

/// A key counter's label: the configured one unless blank, else `K<n>` for key
/// `n` counted from one.
pub open spec fn key_label(label: Option<Seq<char>>, key_index: nat) -> Seq<char> {
    match label {
        Some(l) => if trimmed(l).len() > 0 {
            l
        } else {
            "K"@ + decimal(key_index + 1)
        },
        None => "K"@ + decimal(key_index + 1),
    }
}

pub fn key_counter_label(label: Option<&str>, key_index: usize) -> (s: String)
    requires
        key_index < usize::MAX,
    ensures
        s@ == key_label(
            match label {
                Some(l) => Some(l@),
                None => None,
            },
            key_index as nat,
        ),
{
    if let Some(l) = label {
        if trim_white_space(&chars_of(l)).len() > 0 {
            return string_from_chars(&chars_of(l));
        }
    }
    let mut out: Vec<char> = Vec::new();
    push_str(&mut out, "K");
    push_decimal(&mut out, (key_index + 1) as u64);
    string_from_chars(&out)
}

/// A judgment counter shows unless hidden globally or by its own override.
pub fn judgment_counter_visible(global_visible: Option<bool>, override_visible: Option<bool>) -> (v: bool)
    ensures
        v == ((global_visible != Some(false)) && (override_visible != Some(false))),
{
    let g = match global_visible {
        Some(b) => b,
        None => true,
    };
    let o = match override_visible {
        Some(b) => b,
        None => true,
    };
    g && o
}


/// The default label of a key (`K1` to `K32`) reads back as that key.
pub proof fn lemma_default_key_label_read_back(key: nat)
    requires
        key < 32,
    ensures
        key_index_of(key_label(None, key)) == Some(key as u32),
{
    let d = decimal(key + 1);
    lemma_decimal_parses(key + 1);
    reveal_strlit("K");
    let s = "K"@ + d;
    assert(s == key_label(None, key));
    assert(!is_white_space(s[0]));
    assert(is_ascii_digit(s.last()));
    assert(trim_start_of(s, CharClass::WhiteSpace) == s);
    assert(trim_end_of(s, CharClass::WhiteSpace) == s);
    let t = ascii_lower_seq(trimmed(s));
    assert(t[0] == 'k');
    assert(t.drop_first() =~= d) by {
        assert forall|i: int| 0 <= i < d.len() implies t.drop_first()[i] == d[i] by {
            assert(is_ascii_digit(d[i]));
        }
    }
    assert(unsigned_digits(d) == d);
}


/// The keys a key counter shows: the first ten names listed, or `k1`..`k4`
/// when none is listed.
pub open spec fn shown_keys(names: Seq<Seq<char>>) -> Seq<Seq<char>> {
    if names.len() == 0 {
        seq!["k1"@, "k2"@, "k3"@, "k4"@]
    } else if names.len() > 10 {
        names.take(10)
    } else {
        names
    }
}

pub open spec fn string_views(v: Seq<String>) -> Seq<Seq<char>> {
    v.map_values(|s: String| s@)
}

pub fn configured_keys(names: Vec<String>) -> (keys: Vec<String>)
    ensures
        string_views(keys@) == shown_keys(string_views(names@)),
{
    if names.len() == 0 {
        let keys = vec![
            String::from_str("k1"),
            String::from_str("k2"),
            String::from_str("k3"),
            String::from_str("k4"),
        ];
        assert(string_views(keys@) =~= seq!["k1"@, "k2"@, "k3"@, "k4"@]);
        return keys;
    }
    let mut names = names;
    let ghost before = string_views(names@);
    if names.len() > 10 {
        names.truncate(10);
        assert(string_views(names@) =~= before.take(10));
    }
    names
}


/// The beatmap's text fields that HUD text layers can show.
#[derive(Debug, Clone, Default)]
pub struct BeatmapTexts {
    pub title: String,
    pub title_romanized: String,
    pub artist: String,
    pub artist_romanized: String,
    pub difficulty: String,
    pub mapper: String,
    pub source: String,
    pub tags: String,
    pub bpm_text: String,
}

/// The text a binding shows: song times as `mm:ss`, or a beatmap field; none
/// for any other binding.
pub open spec fn binding_text_of(binding: Seq<char>, elapsed_ms: i32, duration_ms: i32, b: BeatmapTexts) -> Option<Seq<char>> {
    if binding == "song.elapsed"@ {
        Some(song_time_text(elapsed_ms))
    } else if binding == "song.duration"@ {
        Some(song_time_text(duration_ms))
    } else if binding == "beatmap.title"@ {
        Some(b.title@)
    } else if binding == "beatmap.titleRomanized"@ {
        Some(b.title_romanized@)
    } else if binding == "beatmap.artist"@ {
        Some(b.artist@)
    } else if binding == "beatmap.artistRomanized"@ {
        Some(b.artist_romanized@)
    } else if binding == "beatmap.difficulty"@ {
        Some(b.difficulty@)
    } else if binding == "beatmap.mapper"@ {
        Some(b.mapper@)
    } else if binding == "beatmap.source"@ {
        Some(b.source@)
    } else if binding == "beatmap.tags"@ {
        Some(b.tags@)
    } else if binding == "beatmap.bpm"@ {
        Some(b.bpm_text@)
    } else {
        None
    }
}

fn copy_string(s: &String) -> (r: String)
    ensures
        r@ == s@,
{
    string_from_chars(&chars_of(s.as_str()))
}

pub fn binding_text(binding: &str, elapsed_ms: i32, duration_ms: i32, beatmap: &BeatmapTexts) -> (r: Option<String>)
    ensures
        match r {
            Some(t) => binding_text_of(binding@, elapsed_ms, duration_ms, *beatmap) == Some(t@),
            None => binding_text_of(binding@, elapsed_ms, duration_ms, *beatmap) is None,
        },
{
    let b = chars_of(binding);
    if chars_equal_str(&b, "song.elapsed") {
        Some(format_song_time(elapsed_ms))
    } else if chars_equal_str(&b, "song.duration") {
        Some(format_song_time(duration_ms))
    } else if chars_equal_str(&b, "beatmap.title") {
        Some(copy_string(&beatmap.title))
    } else if chars_equal_str(&b, "beatmap.titleRomanized") {
        Some(copy_string(&beatmap.title_romanized))
    } else if chars_equal_str(&b, "beatmap.artist") {
        Some(copy_string(&beatmap.artist))
    } else if chars_equal_str(&b, "beatmap.artistRomanized") {
        Some(copy_string(&beatmap.artist_romanized))
    } else if chars_equal_str(&b, "beatmap.difficulty") {
        Some(copy_string(&beatmap.difficulty))
    } else if chars_equal_str(&b, "beatmap.mapper") {
        Some(copy_string(&beatmap.mapper))
    } else if chars_equal_str(&b, "beatmap.source") {
        Some(copy_string(&beatmap.source))
    } else if chars_equal_str(&b, "beatmap.tags") {
        Some(copy_string(&beatmap.tags))
    } else if chars_equal_str(&b, "beatmap.bpm") {
        Some(copy_string(&beatmap.bpm_text))
    } else {
        None
    }
}

/// How long ago the judgment a counter binding names was last made: the age
/// of the latest judgment when it is of that kind and not in the future.
pub open spec fn judgment_change_age(last: Option<LastJudgment>, binding: Seq<char>) -> Option<i32> {
    match binding_index(binding) {
        None => None,
        Some(expected) => match last {
            Some(j) => if judgment_index(j.kind) == expected && j.age_ms >= 0 {
                Some(j.age_ms)
            } else {
                None
            },
            None => None,
        },
    }
}

pub fn judgment_change_age_for_binding(last: Option<LastJudgment>, binding: &str) -> (r: Option<i32>)
    ensures
        r == judgment_change_age(last, binding@),
{
    let expected = match judgment_binding_index(binding) {
        Some(e) => e,
        None => return None,
    };
    match last {
        Some(j) => {
            if judgment_kind_index(j.kind) == expected && j.age_ms >= 0 {
                Some(j.age_ms)
            } else {
                None
            }
        },
        None => None,
    }
}

/// A property as a layer's props hold it: missing, text, a flag, or any other
/// value (a number, a list, null ...).
#[derive(Debug, Clone, PartialEq, Eq)]
pub enum PropValue {
    Absent,
    Text(String),
    Flag(bool),
    Other,
}

/// A per-key or per-judgment override shadows the shared property whenever it
/// is present, whatever its type.
pub open spec fn effective_prop(override_value: PropValue, shared: PropValue) -> PropValue {
    match override_value {
        PropValue::Absent => shared,
        _ => override_value,
    }
}

/// The text of the effective property unless it is not text or is blank; the
/// fallback otherwise.
pub open spec fn prop_text(override_value: PropValue, shared: PropValue, fallback: Seq<char>) -> Seq<char> {
    match effective_prop(override_value, shared) {
        PropValue::Text(t) => if trimmed(t@).len() > 0 {
            t@
        } else {
            fallback
        },
        _ => fallback,
    }
}

/// The flag of the effective property, the fallback unless it is a flag.
pub open spec fn prop_flag(override_value: PropValue, shared: PropValue, fallback: bool) -> bool {
    match effective_prop(override_value, shared) {
        PropValue::Flag(b) => b,
        _ => fallback,
    }
}

pub fn override_text(override_value: &PropValue, shared: &PropValue, fallback: &str) -> (t: String)
    ensures
        t@ == prop_text(*override_value, *shared, fallback@),
{
    let chosen = match override_value {
        PropValue::Absent => shared,
        _ => override_value,
    };
    if let PropValue::Text(text) = chosen {
        let chars = chars_of(text.as_str());
        if trim_white_space(&chars).len() > 0 {
            return string_from_chars(&chars);
        }
    }
    String::from_str(fallback)
}

pub fn override_flag(override_value: &PropValue, shared: &PropValue, fallback: bool) -> (b: bool)
    ensures
        b == prop_flag(*override_value, *shared, fallback),
{
    let chosen = match override_value {
        PropValue::Absent => shared,
        _ => override_value,
    };
    match chosen {
        PropValue::Flag(b) => *b,
        _ => fallback,
    }
}

/// A judgment counter's change animation: the value before its last change,
/// the current value, and when it changed.
#[derive(Debug, Clone, Copy, PartialEq, Eq, Structural)]
pub struct CounterAnimation {
    pub previous_value: u32,
    pub current_value: u32,
    pub changed_at_ms: i32,
}

/// The animation after seeing `value` at `timestamp_ms`: a new value starts a
/// change from the old one; the same value keeps the animation; a counter seen
/// for the first time starts settled, as if it had changed one animation
/// length (`duration_ms`) ago.
pub open spec fn counter_step(prev: Option<CounterAnimation>, value: u32, timestamp_ms: i32, duration_ms: i32) -> CounterAnimation {
    match prev {
        Some(p) => if p.current_value != value {
            CounterAnimation { previous_value: p.current_value, current_value: value, changed_at_ms: timestamp_ms }
        } else {
            p
        },
        None => CounterAnimation {
            previous_value: value,
            current_value: value,
            changed_at_ms: (timestamp_ms - duration_ms) as i32,
        },
    }
}

pub fn step_counter_animation(
    prev: Option<CounterAnimation>,
    value: u32,
    timestamp_ms: i32,
    duration_ms: i32,
) -> (next: CounterAnimation)
    requires
        prev is None ==> i32::MIN <= timestamp_ms - duration_ms <= i32::MAX,
    ensures
        next == counter_step(prev, value, timestamp_ms, duration_ms),
{
    match prev {
        Some(p) => if p.current_value != value {
            CounterAnimation { previous_value: p.current_value, current_value: value, changed_at_ms: timestamp_ms }
        } else {
            p
        },
        None => CounterAnimation {
            previous_value: value,
            current_value: value,
            changed_at_ms: timestamp_ms - duration_ms,
        },
    }
}

/// Seeing the value a counter already shows changes nothing, at any later
/// time; a different value becomes current and the old one becomes previous.
pub proof fn lemma_counter_changes_only_on_new_values(
    a: CounterAnimation,
    value: u32,
    t: i32,
    d: i32,
)
    ensures
        counter_step(Some(a), a.current_value, t, d) == a,
        value != a.current_value ==> counter_step(Some(a), value, t, d).previous_value == a.current_value
            && counter_step(Some(a), value, t, d).current_value == value
            && counter_step(Some(a), value, t, d).changed_at_ms == t,
{
}

/// The value a counter rolls from: the previous value while it animates,
/// else one less than the current value (zero stays zero).
pub open spec fn rolled_from(anim: CounterAnimation, value: u32, active: bool) -> u32 {
    if active {
        anim.previous_value
    } else if value > 0 {
        (value - 1) as u32
    } else {
        0
    }
}

pub fn counter_rolled_from(anim: &CounterAnimation, value: u32, active: bool) -> (v: u32)
    ensures
        v == rolled_from(*anim, value, active),
{
    if active {
        anim.previous_value
    } else if value > 0 {
        value - 1
    } else {
        0
    }
}

/// A counter's text: `value` zero-padded to the width of the widest of the
/// pad, the value and the value it rolls from.
pub open spec fn counter_text(value: u32, previous: u32, pad: nat) -> Seq<char> {
    let v = decimal(value as nat);
    let p = decimal(previous as nat);
    let w1 = if pad >= v.len() {
        pad
    } else {
        v.len()
    };
    let width = if w1 >= p.len() {
        w1
    } else {
        p.len()
    };
    Seq::new((width - v.len()) as nat, |i: int| '0') + v
}

pub fn counter_value_text(value: u32, previous: u32, pad: usize) -> (t: String)
    ensures
        t@ == counter_text(value, previous, pad as nat),
{
    let mut v: Vec<char> = Vec::new();
    push_decimal(&mut v, value as u64);
    let mut p: Vec<char> = Vec::new();
    push_decimal(&mut p, previous as u64);
    let w1 = if pad >= v.len() {
        pad
    } else {
        v.len()
    };
    let width = if w1 >= p.len() {
        w1
    } else {
        p.len()
    };
    let zeros = width - v.len();
    let mut out: Vec<char> = Vec::new();
    for i in 0..zeros
        invariant
            out@ == Seq::new(i as nat, |j: int| '0'),
    {
        out.push('0');
        assert(out@ =~= Seq::new((i + 1) as nat, |j: int| '0'));
    }
    push_chars(&mut out, &v);
    string_from_chars(&out)
}

} // verus!
