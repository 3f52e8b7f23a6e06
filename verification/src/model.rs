//! Replay data as the renderer reads it: judgments, long-note releases, events,
//! and the replay-mod badge names.
use vstd::prelude::*;
use crate::judgment::{JudgmentKind, ReleaseKind, judgment_index, judgment_kind_index};
use crate::text::{
    chars_of, chars_equal_str, trim_white_space, to_ascii_upper, to_ascii_lower, trimmed,
    ascii_upper_seq, ascii_lower_seq, push_str, push_chars, string_from_chars,
};

verus! {

/// One judged note.
#[derive(Debug, Clone, Copy)]
pub struct RenderJudgment {
    pub idx: usize,
    pub column: u8,
    pub time: i32,
    pub kind: JudgmentKind,
    pub press_time: Option<i32>,
    pub rel_time: Option<i32>,
    pub is_ln: bool,
}

/// When a judgment is shown: a long note announces its release result at the
/// release (or, failing that, the press); a tap note at its press; both fall back
/// to the note time.
pub open spec fn shown_at(j: RenderJudgment) -> i32 {
    if j.is_ln {
        match j.rel_time {
            Some(r) => r,
            None => match j.press_time {
                Some(p) => p,
                None => j.time,
            },
        }
    } else {
        match j.press_time {
            Some(p) => p,
            None => j.time,
        }
    }
}

impl RenderJudgment {
    pub fn judgment_time(&self) -> (t: i32)
        ensures
            t == shown_at(*self),
    {
        if self.is_ln {
            match self.rel_time {
                Some(r) => r,
                None => match self.press_time {
                    Some(p) => p,
                    None => self.time,
                },
            }
        } else {
            match self.press_time {
                Some(p) => p,
                None => self.time,
            }
        }
    }
}

/// Which client produced the replay.
#[derive(Debug, Clone, Copy, PartialEq, Eq, Structural)]
pub enum ReplayOrigin {
    StableLegacy,
    LazerExport,
}

/// The mods shown on the results badge row.
#[derive(Debug, Clone, PartialEq, Eq)]
pub struct ReplayModDisplay {
    pub origin: ReplayOrigin,
    pub acronyms: Vec<String>,
}

impl ReplayModDisplay {
    pub fn is_empty(&self) -> (e: bool)
        ensures
            e == (self.acronyms@.len() == 0),
    {
        self.acronyms.len() == 0
    }
}

/// How a long note was released.
#[derive(Debug, Clone, Copy, Default)]
pub struct LnReleaseInfo {
    pub kind: ReleaseKind,
    pub time: Option<i32>,
    pub rescued: bool,
    pub double_tap: bool,
}

#[derive(Debug, Clone, Copy, PartialEq, Eq, Structural)]
pub enum ComboEventType {
    Judgment,
    LnTick,
    LnBreak,
}

#[derive(Debug, Clone, Copy, PartialEq, Eq, Structural)]
pub enum RawEventKind {
    Judgment,
    LnTick,
    LnBreak,
}

#[derive(Debug, Clone)]
pub struct RawEvent {
    pub time: i32,
    pub kind: RawEventKind,
    pub judgment_idx: Option<usize>,
    pub ln_idx: Option<usize>,
}

#[derive(Debug, Clone, Copy)]
pub struct LnComboTick {
    pub time: i32,
    pub ln_idx: usize,
}

#[derive(Debug, Clone, Copy)]
pub struct LnComboBreak {
    pub time: i32,
    pub ln_idx: usize,
}

/// Hit windows in milliseconds.
#[derive(Debug, Clone, Copy, Default)]
pub struct Windows {
    pub max: i32,
    pub hit300: i32,
    pub hit200: i32,
    pub hit100: i32,
    pub hit50: i32,
    pub miss: i32,
}

#[derive(Debug, Clone, Copy, Default)]
pub struct NoteRenderState {
    pub consumed: bool,
    pub miss_dim: bool,
    pub fifty_dim: bool,
}

/// How a tap note is drawn at `timestamp`: consumed once its press (or note
/// time) has come, unless judged Miss or 50; a pressed miss dims from
/// `miss_press_lead` (its press time less three quarters of a frame) on; a 50
/// dims from its press (or note time) on.
pub open spec fn note_render_state(judgment: Option<RenderJudgment>, timestamp: i32, miss_press_lead: i32) -> NoteRenderState {
    match judgment {
        None => NoteRenderState { consumed: false, miss_dim: false, fifty_dim: false },
        Some(j) => {
            let press_time = match j.press_time {
                Some(p) => p,
                None => j.time,
            };
            NoteRenderState {
                consumed: j.kind != JudgmentKind::Miss && j.kind != JudgmentKind::Hit50 && press_time
                    <= timestamp,
                miss_dim: j.kind == JudgmentKind::Miss && j.press_time is Some && timestamp
                    >= miss_press_lead,
                fifty_dim: j.kind == JudgmentKind::Hit50 && timestamp >= press_time,
            }
        },
    }
}

pub fn get_note_render_state(judgment: Option<RenderJudgment>, timestamp: i32, miss_press_lead: i32) -> (state: NoteRenderState)
    ensures
        state == note_render_state(judgment, timestamp, miss_press_lead),
{
    let mut state = NoteRenderState { consumed: false, miss_dim: false, fifty_dim: false };
    if let Some(j) = judgment {
        let press_time = match j.press_time {
            Some(p) => p,
            None => j.time,
        };
        let is_miss = j.kind == JudgmentKind::Miss;
        let is_fifty = j.kind == JudgmentKind::Hit50;
        state.consumed = !is_miss && !is_fifty && press_time <= timestamp;
        if is_miss {
            if j.press_time.is_some() {
                state.miss_dim = timestamp >= miss_press_lead;
            }
        }
        if is_fifty {
            state.fifty_dim = timestamp >= press_time;
        }
    }
    state
}

/// The stable skin's mod-icon texture stem for an acronym (compared trimmed and
/// upper-cased).
pub open spec fn mod_texture_stem(acronym: Seq<char>) -> Option<Seq<char>> {
    let key = ascii_upper_seq(trimmed(acronym));
    if key == "NF"@ {
        Some("selection-mod-nofail"@)
    } else if key == "EZ"@ {
        Some("selection-mod-easy"@)
    } else if key == "HD"@ {
        Some("selection-mod-hidden"@)
    } else if key == "HR"@ {
        Some("selection-mod-hardrock"@)
    } else if key == "SD"@ {
        Some("selection-mod-suddendeath"@)
    } else if key == "PF"@ {
        Some("selection-mod-perfect"@)
    } else if key == "DT"@ {
        Some("selection-mod-doubletime"@)
    } else if key == "NC"@ {
        Some("selection-mod-nightcore"@)
    } else if key == "HT"@ {
        Some("selection-mod-halftime"@)
    } else if key == "FL"@ {
        Some("selection-mod-flashlight"@)
    } else if key == "FI"@ {
        Some("selection-mod-fadein"@)
    } else if key == "MR"@ {
        Some("selection-mod-mirror"@)
    } else if key == "V2"@ {
        Some("selection-mod-scorev2"@)
    } else if key == "AT"@ {
        Some("selection-mod-autoplay"@)
    } else if key == "CO"@ {
        Some("selection-mod-keycoop"@)
    } else {
        None
    }
}

pub fn stable_replay_mod_texture_stem(acronym: &str) -> (r: Option<&'static str>)
    ensures
        match r {
            Some(stem) => mod_texture_stem(acronym@) == Some(stem@),
            None => mod_texture_stem(acronym@) is None,
        },
{
    let raw = chars_of(acronym);
    let t = trim_white_space(&raw);
    let key = to_ascii_upper(&t);
    if chars_equal_str(&key, "NF") {
        Some("selection-mod-nofail")
    } else if chars_equal_str(&key, "EZ") {
        Some("selection-mod-easy")
    } else if chars_equal_str(&key, "HD") {
        Some("selection-mod-hidden")
    } else if chars_equal_str(&key, "HR") {
        Some("selection-mod-hardrock")
    } else if chars_equal_str(&key, "SD") {
        Some("selection-mod-suddendeath")
    } else if chars_equal_str(&key, "PF") {
        Some("selection-mod-perfect")
    } else if chars_equal_str(&key, "DT") {
        Some("selection-mod-doubletime")
    } else if chars_equal_str(&key, "NC") {
        Some("selection-mod-nightcore")
    } else if chars_equal_str(&key, "HT") {
        Some("selection-mod-halftime")
    } else if chars_equal_str(&key, "FL") {
        Some("selection-mod-flashlight")
    } else if chars_equal_str(&key, "FI") {
        Some("selection-mod-fadein")
    } else if chars_equal_str(&key, "MR") {
        Some("selection-mod-mirror")
    } else if chars_equal_str(&key, "V2") {
        Some("selection-mod-scorev2")
    } else if chars_equal_str(&key, "AT") {
        Some("selection-mod-autoplay")
    } else if chars_equal_str(&key, "CO") {
        Some("selection-mod-keycoop")
    } else {
        None
    }
}

/// Path of a lazer mod icon: `replay-mods/lazer/<acronym>.png`, acronym trimmed
/// and lower-cased.
pub open spec fn lazer_mod_texture(acronym: Seq<char>) -> Seq<char> {
    "replay-mods/lazer/"@ + ascii_lower_seq(trimmed(acronym)) + ".png"@
}

pub fn lazer_replay_mod_texture_name(acronym: &str) -> (name: String)
    ensures
        name@ == lazer_mod_texture(acronym@),
{
    let raw = chars_of(acronym);
    let t = trim_white_space(&raw);
    let lower = to_ascii_lower(&t);
    let mut out: Vec<char> = Vec::new();
    push_str(&mut out, "replay-mods/lazer/");
    push_chars(&mut out, &lower);
    push_str(&mut out, ".png");
    string_from_chars(&out)
}

/// The texture names tried for a mod badge, in order: for a stable replay the
/// icon stem as `@2x.png`, `.png`, `@2x` and bare; for a lazer export its icon
/// path; none without a mod display or for an unknown stable acronym.
pub open spec fn mod_texture_candidates(display: Option<ReplayModDisplay>, acronym: Seq<char>) -> Option<Seq<Seq<char>>> {
    match display {
        None => None,
        Some(d) => match d.origin {
            ReplayOrigin::StableLegacy => match mod_texture_stem(acronym) {
                None => None,
                Some(stem) => Some(seq![stem + "@2x.png"@, stem + ".png"@, stem + "@2x"@, stem]),
            },
            ReplayOrigin::LazerExport => Some(seq![lazer_mod_texture(acronym)]),
        },
    }
}

pub open spec fn strings_of(v: Seq<String>) -> Seq<Seq<char>> {
    v.map_values(|s: String| s@)
}

fn suffixed(stem: &str, suffix: &str) -> (s: String)
    ensures
        s@ == stem@ + suffix@,
{
    let mut out: Vec<char> = Vec::new();
    push_str(&mut out, stem);
    push_str(&mut out, suffix);
    string_from_chars(&out)
}

pub fn replay_mod_texture_candidates(display: Option<&ReplayModDisplay>, acronym: &str) -> (r: Option<Vec<String>>)
    ensures
        match r {
            Some(v) => mod_texture_candidates(
                match display {
                    Some(d) => Some(*d),
                    None => None,
                },
                acronym@,
            ) == Some(strings_of(v@)),
            None => mod_texture_candidates(
                match display {
                    Some(d) => Some(*d),
                    None => None,
                },
                acronym@,
            ) is None,
        },
{
    let d = match display {
        Some(d) => d,
        None => return None,
    };
    match d.origin {
        ReplayOrigin::StableLegacy => {
            let stem = match stable_replay_mod_texture_stem(acronym) {
                Some(stem) => stem,
                None => return None,
            };
            let mut out: Vec<String> = Vec::new();
            out.push(suffixed(stem, "@2x.png"));
            out.push(suffixed(stem, ".png"));
            out.push(suffixed(stem, "@2x"));
            out.push(string_from_chars(&chars_of(stem)));
            assert(strings_of(out@) =~= seq![stem@ + "@2x.png"@, stem@ + ".png"@, stem@ + "@2x"@, stem@]);
            Some(out)
        },
        ReplayOrigin::LazerExport => {
            let mut out: Vec<String> = Vec::new();
            out.push(lazer_replay_mod_texture_name(acronym));
            assert(strings_of(out@) =~= seq![lazer_mod_texture(acronym@)]);
            Some(out)
        },
    }
}


/// Per-judgment scoring tables, indexed Max, 300, 200, 100, 50, Miss.
#[derive(Debug, Clone, Copy)]
pub struct ScoreTables {
    pub hit_value: [u32; 6],
    pub hit_bonus_value: [u32; 6],
    pub hit_bonus_add: [i32; 6],
    pub hit_punish: [i32; 6],
    pub acc_weights: [u32; 6],
    pub acc_max_per_hit: u32,
}

/// The standard mania tables.
pub open spec fn standard_score_tables() -> ScoreTables {
    ScoreTables {
        hit_value: [320, 300, 200, 100, 50, 0],
        hit_bonus_value: [32, 32, 16, 8, 4, 0],
        hit_bonus_add: [2, 1, 0, 0, 0, 0],
        hit_punish: [0, 0, 8, 24, 44, i32::MAX],
        acc_weights: [300, 300, 200, 100, 50, 0],
        acc_max_per_hit: 300,
    }
}

impl ScoreTables {
    pub fn standard() -> (t: Self)
        ensures
            t == standard_score_tables(),
    {
        ScoreTables {
            hit_value: [320, 300, 200, 100, 50, 0],
            hit_bonus_value: [32, 32, 16, 8, 4, 0],
            hit_bonus_add: [2, 1, 0, 0, 0, 0],
            hit_punish: [0, 0, 8, 24, 44, i32::MAX],
            acc_weights: [300, 300, 200, 100, 50, 0],
            acc_max_per_hit: 300,
        }
    }

    /// The tables for a scoring mode whose best judgment is worth
    /// `accuracy_max_per_hit`: ScoreV2 (305) weighs MAX at 305 for accuracy.
    pub fn for_accuracy_max_per_hit(accuracy_max_per_hit: u32) -> (t: Self)
        ensures
            accuracy_max_per_hit == 305 ==> t == (ScoreTables {
                acc_weights: [305, 300, 200, 100, 50, 0],
                acc_max_per_hit: 305,
                ..standard_score_tables()
            }),
            accuracy_max_per_hit != 305 ==> t == standard_score_tables(),
    {
        let mut t = ScoreTables::standard();
        if accuracy_max_per_hit == 305 {
            t.acc_weights = [305, 300, 200, 100, 50, 0];
            t.acc_max_per_hit = 305;
        }
        t
    }

    pub fn hit_value(&self, kind: JudgmentKind) -> (v: u32)
        ensures
            v == self.hit_value[judgment_index(kind) as int],
    {
        self.hit_value[judgment_kind_index(kind)]
    }

    pub fn hit_bonus_value(&self, kind: JudgmentKind) -> (v: u32)
        ensures
            v == self.hit_bonus_value[judgment_index(kind) as int],
    {
        self.hit_bonus_value[judgment_kind_index(kind)]
    }

    pub fn hit_bonus_add(&self, kind: JudgmentKind) -> (v: i32)
        ensures
            v == self.hit_bonus_add[judgment_index(kind) as int],
    {
        self.hit_bonus_add[judgment_kind_index(kind)]
    }

    pub fn hit_punish(&self, kind: JudgmentKind) -> (v: i32)
        ensures
            v == self.hit_punish[judgment_index(kind) as int],
    {
        self.hit_punish[judgment_kind_index(kind)]
    }

    pub fn acc_weight(&self, kind: JudgmentKind) -> (v: u32)
        ensures
            v == self.acc_weights[judgment_index(kind) as int],
    {
        self.acc_weights[judgment_kind_index(kind)]
    }
}


/// A judged note leaves the screen once it is pressed (at its press time, or
/// its own time when no press was recorded), unless it was a miss or a 50,
/// which keep being drawn; a note is never taken away before that, nor when it
/// has no judgment; and once gone it stays gone at every later time.
pub proof fn lemma_pressed_notes_are_consumed(
    judgment: Option<RenderJudgment>,
    t1: i32,
    t2: i32,
    miss_press_lead: i32,
)
    ensures
        judgment matches Some(j) ==> ({
            let press = match j.press_time {
                Some(p) => p,
                None => j.time,
            };
            &&& (j.kind != JudgmentKind::Miss && j.kind != JudgmentKind::Hit50 && press <= t1)
                ==> note_render_state(judgment, t1, miss_press_lead).consumed
            &&& note_render_state(judgment, t1, miss_press_lead).consumed ==> press <= t1
            &&& (j.kind == JudgmentKind::Miss || j.kind == JudgmentKind::Hit50)
                ==> !note_render_state(judgment, t1, miss_press_lead).consumed
        }),
        judgment is None ==> !note_render_state(judgment, t1, miss_press_lead).consumed,
        t1 <= t2 && note_render_state(judgment, t1, miss_press_lead).consumed ==> note_render_state(
            judgment,
            t2,
            miss_press_lead,
        ).consumed,
{
}


/// A better judgment is worth more: under the standard tables its hit value
/// and bonus are at least as high, its accuracy weight at least as high, and
/// its punishment no higher; the hit value strictly so.
pub proof fn lemma_better_judgments_score_more(a: JudgmentKind, b: JudgmentKind)
    requires
        judgment_index(a) < judgment_index(b),
    ensures
        ({
            let t = standard_score_tables();
            let i = judgment_index(a) as int;
            let j = judgment_index(b) as int;
            &&& t.hit_value[i] > t.hit_value[j]
            &&& t.hit_bonus_value[i] >= t.hit_bonus_value[j]
            &&& t.acc_weights[i] >= t.acc_weights[j]
            &&& t.hit_punish[i] <= t.hit_punish[j]
            &&& t.acc_weights[i] <= t.acc_max_per_hit
        }),
{
}


/// A miss dims only once pressed, from the miss-press lead on; a 50 dims from
/// its press (or its own time) on; no other judgment dims; and a dimmed note
/// stays dimmed at every later time.
pub proof fn lemma_dimmed_notes(judgment: Option<RenderJudgment>, t1: i32, t2: i32, miss_press_lead: i32)
    ensures
        judgment matches Some(j) ==> ({
            let press = match j.press_time {
                Some(p) => p,
                None => j.time,
            };
            let s = note_render_state(judgment, t1, miss_press_lead);
            &&& s.miss_dim <==> (j.kind == JudgmentKind::Miss && j.press_time is Some && t1 >= miss_press_lead)
            &&& s.fifty_dim <==> (j.kind == JudgmentKind::Hit50 && t1 >= press)
            &&& !(s.consumed && (s.miss_dim || s.fifty_dim))
        }),
        judgment is None ==> !note_render_state(judgment, t1, miss_press_lead).miss_dim
            && !note_render_state(judgment, t1, miss_press_lead).fifty_dim,
        t1 <= t2 && note_render_state(judgment, t1, miss_press_lead).miss_dim ==> note_render_state(
            judgment,
            t2,
            miss_press_lead,
        ).miss_dim,
        t1 <= t2 && note_render_state(judgment, t1, miss_press_lead).fifty_dim ==> note_render_state(
            judgment,
            t2,
            miss_press_lead,
        ).fifty_dim,
{
}

} // verus!
