//! Storyboard command timing: loops and triggers flattened into absolute command
//! times, hitsound events for triggers, and animation frames.
use vstd::prelude::*;
use crate::beatmap::{HitObject, TimingPoint};
use crate::sorting::{
    SortKey, stable_sort, stable_sorted, with_key, lemma_stable_sorted, lemma_stable_sorted_keeps_order,
};
use crate::text::{
    chars_of, replace_char, replace_char_chars, decimal, push_decimal, push_str,
    string_from_chars, to_lowercase, unicode_lowercase,
};

verus! {

/// The sample set a trigger listens to.
#[derive(Debug, Clone, Copy, PartialEq, Eq, Structural)]
pub enum SampleSet {
    Normal,
    Soft,
    Drum,
}

/// The hitsound addition a trigger listens to.
#[derive(Debug, Clone, Copy, PartialEq, Eq, Structural)]
pub enum HitSoundType {
    Whistle,
    Finish,
    Clap,
}

/// What a `HitSound` trigger fires on.
#[derive(Debug, Clone, Copy)]
pub struct StoryboardTriggerKind {
    pub any: bool,
    pub sample_set: Option<SampleSet>,
    pub hit_sound: Option<HitSoundType>,
}

/// A hit object's hitsound as storyboard triggers see it.
#[derive(Debug, Clone, Copy)]
pub struct HitSoundEvent {
    pub time: i32,
    pub normal_set: u8,
    pub addition_set: u8,
    pub hit_sound: u8,
}

#[derive(Debug, Clone, Copy, PartialEq, Eq, Structural)]
pub enum AnimationLoopType {
    LoopForever,
    LoopOnce,
}

/// A plain storyboard command: `source` identifies it in the storyboard's
/// command table; times are relative to the enclosing loop or trigger.
#[derive(Debug, Clone, Copy)]
pub struct TimedCommand {
    pub source: usize,
    pub start_time: i32,
    pub end_time: i32,
}

/// A loop: its commands repeat `loop_count` times (at least once), back to back.
#[derive(Debug)]
pub struct LoopCommand {
    pub start_time: i32,
    pub loop_count: i32,
    pub commands: Vec<StoryboardCommand>,
}

/// A trigger: its commands play once per matching hitsound inside its window.
#[derive(Debug)]
pub struct TriggerCommand {
    pub trigger: StoryboardTriggerKind,
    pub start_time: i32,
    pub end_time: i32,
    pub commands: Vec<StoryboardCommand>,
}

#[derive(Debug)]
pub enum StoryboardCommand {
    Command(TimedCommand),
    Loop(LoopCommand),
    Trigger(TriggerCommand),
}

/// A command placed at absolute times; `trigger_origin` is the hitsound time of
/// the trigger that produced it.
#[derive(Debug, Clone, Copy, PartialEq, Eq)]
pub struct FlatCommand {
    pub source: usize,
    pub start_time: i32,
    pub end_time: i32,
    pub trigger_origin: Option<i32>,
}

/// Why a storyboard's command times could not be placed.
#[derive(Debug, Clone, Copy, PartialEq, Eq, Structural)]
pub enum StoryboardTimeError {
    CommandTimeOverflow,
    CommandTimeOutOfRange,
    LoopTimeOverflow,
    LoopExpansionOverflow,
    TriggerTimeOverflow,
}

impl StoryboardTimeError {
    pub fn message(&self) -> (m: String)
        ensures
            m@ == error_text(*self),
    {
        match self {
            StoryboardTimeError::CommandTimeOverflow => String::from_str(
                "storyboard command time overflowed",
            ),
            StoryboardTimeError::CommandTimeOutOfRange => String::from_str(
                "storyboard command time does not fit in i32",
            ),
            StoryboardTimeError::LoopTimeOverflow => String::from_str(
                "storyboard loop time overflowed",
            ),
            StoryboardTimeError::LoopExpansionOverflow => String::from_str(
                "storyboard loop expansion overflowed",
            ),
            StoryboardTimeError::TriggerTimeOverflow => String::from_str(
                "storyboard trigger time overflowed",
            ),
        }
    }
}

pub open spec fn error_text(e: StoryboardTimeError) -> Seq<char> {
    match e {
        StoryboardTimeError::CommandTimeOverflow => "storyboard command time overflowed"@,
        StoryboardTimeError::CommandTimeOutOfRange => "storyboard command time does not fit in i32"@,
        StoryboardTimeError::LoopTimeOverflow => "storyboard loop time overflowed"@,
        StoryboardTimeError::LoopExpansionOverflow => "storyboard loop expansion overflowed"@,
        StoryboardTimeError::TriggerTimeOverflow => "storyboard trigger time overflowed"@,
    }
}

pub open spec fn in_i64(x: int) -> bool {
    i64::MIN <= x <= i64::MAX
}

pub open spec fn in_i32(x: int) -> bool {
    i32::MIN <= x <= i32::MAX
}

/// `i64` saturating arithmetic.
pub open spec fn sat64(x: int) -> int {
    if x > i64::MAX {
        i64::MAX as int
    } else if x < i64::MIN {
        i64::MIN as int
    } else {
        x
    }
}

/// `i64` addition that clamps at the type's bounds.
fn sat_add64(a: i64, b: i64) -> (r: i64)
    ensures
        r == sat64(a + b),
{
    let x = a as i128 + b as i128;
    if x > i64::MAX as i128 {
        i64::MAX
    } else if x < i64::MIN as i128 {
        i64::MIN
    } else {
        x as i64
    }
}

/// `i64` multiplication that clamps at the type's bounds.
fn sat_mul64(a: i64, b: i64) -> (r: i64)
    ensures
        r == sat64(a * b),
{
    assert(-0x8000_0000_0000_0000 * 0x8000_0000_0000_0000 <= a as int * b as int
        <= 0x8000_0000_0000_0000 * 0x8000_0000_0000_0000) by (nonlinear_arith)
        requires
            -0x8000_0000_0000_0000 <= a <= 0x7fff_ffff_ffff_ffff,
            -0x8000_0000_0000_0000 <= b <= 0x7fff_ffff_ffff_ffff,
    ;
    let x = a as i128 * b as i128;
    if x > i64::MAX as i128 {
        i64::MAX
    } else if x < i64::MIN as i128 {
        i64::MIN
    } else {
        x as i64
    }
}

pub open spec fn max_int(a: int, b: int) -> int {
    if a >= b {
        a
    } else {
        b
    }
}

pub open spec fn min_int(a: int, b: int) -> int {
    if a <= b {
        a
    } else {
        b
    }
}

/// How many times a loop runs: its count, at least once.
pub open spec fn loop_iterations(loop_count: i32) -> nat {
    if loop_count >= 1 {
        loop_count as nat
    } else {
        1
    }
}

pub fn loop_total_iterations(loop_count: i32) -> (n: usize)
    ensures
        n == loop_iterations(loop_count),
{
    if loop_count >= 1 {
        loop_count as usize
    } else {
        1
    }
}

/// An absolute command time: `base_offset + relative_time`, which must fit `i32`.
pub open spec fn storyboard_time(base_offset: int, relative_time: int) -> Result<i32, StoryboardTimeError> {
    if !in_i64(base_offset + relative_time) {
        Err(StoryboardTimeError::CommandTimeOverflow)
    } else if !in_i32(base_offset + relative_time) {
        Err(StoryboardTimeError::CommandTimeOutOfRange)
    } else {
        Ok((base_offset + relative_time) as i32)
    }
}

pub fn checked_storyboard_time(base_offset: i64, relative_time: i64) -> (r: Result<i32, StoryboardTimeError>)
    ensures
        r == storyboard_time(base_offset as int, relative_time as int),
{
    match base_offset.checked_add(relative_time) {
        None => Err(StoryboardTimeError::CommandTimeOverflow),
        Some(absolute) => {
            if absolute < i32::MIN as i64 || absolute > i32::MAX as i64 {
                Err(StoryboardTimeError::CommandTimeOutOfRange)
            } else {
                Ok(absolute as i32)
            }
        },
    }
}

// ---------------------------------------------------------------------------
// Time span covered by a list of commands.

/// The span of one command, relative to its list, if it covers any time.
pub open spec fn command_span(cmd: StoryboardCommand) -> Option<(int, int)>
    decreases cmd, 0int,
{
    match cmd {
        StoryboardCommand::Command(d) => Some((d.start_time as int, max_int(d.end_time as int, d.start_time as int))),
        StoryboardCommand::Loop(l) => match commands_span(l.commands@) {
            None => None,
            Some((inner_start, inner_end)) => {
                let period = max_int(inner_end - inner_start, 0);
                let iterations = loop_iterations(l.loop_count) as int;
                let start = sat64(l.start_time + inner_start);
                let end = sat64(sat64(l.start_time + inner_end) + sat64(period * (iterations - 1)));
                Some((start, end))
            },
        },
        StoryboardCommand::Trigger(t) => match commands_span(t.commands@) {
            None => None,
            Some((inner_start, inner_end)) => Some(
                (sat64(t.start_time + inner_start), sat64(t.end_time + inner_end)),
            ),
        },
    }
}

/// Earliest start and latest end over a list, from `(i64::MAX, i64::MIN)`.
pub open spec fn span_fold(cmds: Seq<StoryboardCommand>) -> (int, int)
    decreases cmds, 0int,
{
    if cmds.len() == 0 {
        (i64::MAX as int, i64::MIN as int)
    } else {
        let (lo, hi) = span_fold(cmds.drop_last());
        match command_span(cmds.last()) {
            Some((s, e)) => (min_int(lo, s), max_int(hi, e)),
            None => (lo, hi),
        }
    }
}

/// The span of a command list; none if nothing in it covers time.
pub open spec fn commands_span(cmds: Seq<StoryboardCommand>) -> Option<(int, int)>
    decreases cmds, 1int,
{
    let (lo, hi) = span_fold(cmds);
    if lo == i64::MAX {
        None
    } else {
        Some((lo, hi))
    }
}

/// Every loop's inner span, end minus start, fits `i64` (the span arithmetic
/// overflows otherwise).
pub open spec fn spans_fit(cmds: Seq<StoryboardCommand>) -> bool
    decreases cmds, 0int,
{
    cmds.len() == 0 || (spans_fit(cmds.drop_last()) && span_fits(cmds.last()))
}

pub open spec fn span_fits(cmd: StoryboardCommand) -> bool
    decreases cmd, 0int,
{
    match cmd {
        StoryboardCommand::Command(_) => true,
        StoryboardCommand::Loop(l) => spans_fit(l.commands@) && (match commands_span(l.commands@) {
            Some((s, e)) => in_i64(e - s),
            None => true,
        }),
        StoryboardCommand::Trigger(t) => spans_fit(t.commands@),
    }
}

proof fn lemma_spans_fit_each(cmds: Seq<StoryboardCommand>, k: int)
    requires
        spans_fit(cmds),
        0 <= k < cmds.len(),
    ensures
        span_fits(cmds[k]),
    decreases cmds.len(),
{
    if k < cmds.len() - 1 {
        lemma_spans_fit_each(cmds.drop_last(), k);
    }
}

/// The span of a command list, relative to the list.
pub fn command_time_bounds(commands: &[StoryboardCommand]) -> (r: Option<(i64, i64)>)
    requires
        spans_fit(commands@),
    ensures
        match r {
            Some((s, e)) => commands_span(commands@) == Some((s as int, e as int)),
            None => commands_span(commands@) is None,
        },
    decreases commands@, 1int,
{
    let mut min_start: i64 = i64::MAX;
    let mut max_end: i64 = i64::MIN;
    for k in 0..commands.len()
        invariant
            spans_fit(commands@),
            span_fold(commands@.take(k as int)) == (min_start as int, max_end as int),
    {
        proof {
            lemma_spans_fit_each(commands@, k as int);
        }
        assert(commands@.take(k + 1).drop_last() =~= commands@.take(k as int));
        assert(commands@.take(k + 1).last() == commands@[k as int]);
        let bounds = command_bounds(&commands[k]);
        match bounds {
            Some((start, end)) => {
                if start < min_start {
                    min_start = start;
                }
                if end > max_end {
                    max_end = end;
                }
            },
            None => {},
        }
    }
    assert(commands@.take(commands.len() as int) =~= commands@);
    if min_start == i64::MAX {
        None
    } else {
        Some((min_start, max_end))
    }
}

fn command_bounds(cmd: &StoryboardCommand) -> (r: Option<(i64, i64)>)
    requires
        span_fits(*cmd),
    ensures
        match r {
            Some((s, e)) => command_span(*cmd) == Some((s as int, e as int)),
            None => command_span(*cmd) is None,
        },
    decreases *cmd, 0int,
{
    match cmd {
        StoryboardCommand::Command(data) => {
            let start = data.start_time as i64;
            let end = if data.end_time >= data.start_time {
                data.end_time as i64
            } else {
                data.start_time as i64
            };
            Some((start, end))
        },
        StoryboardCommand::Loop(loop_cmd) => {
            match command_time_bounds(loop_cmd.commands.as_slice()) {
                None => None,
                Some((inner_start, inner_end)) => {
                    let diff = inner_end - inner_start;
                    let period: i64 = if diff > 0 {
                        diff
                    } else {
                        0
                    };
                    let iterations = loop_total_iterations(loop_cmd.loop_count) as i64;
                    let start = sat_add64(loop_cmd.start_time as i64, inner_start);
                    let end = sat_add64(
                        sat_add64(loop_cmd.start_time as i64, inner_end),
                        sat_mul64(period, iterations - 1),
                    );
                    Some((start, end))
                },
            }
        },
        StoryboardCommand::Trigger(trigger) => {
            match command_time_bounds(trigger.commands.as_slice()) {
                None => None,
                Some((inner_start, inner_end)) => Some(
                    (
                        sat_add64(trigger.start_time as i64, inner_start),
                        sat_add64(trigger.end_time as i64, inner_end),
                    ),
                ),
            }
        },
    }
}

// ---------------------------------------------------------------------------
// Hitsound triggers.

pub open spec fn sample_set_id(set: SampleSet) -> u8 {
    match set {
        SampleSet::Normal => 1,
        SampleSet::Soft => 2,
        SampleSet::Drum => 3,
    }
}

pub open spec fn hit_sound_flag(hit: HitSoundType) -> u8 {
    match hit {
        HitSoundType::Whistle => 2,
        HitSoundType::Finish => 4,
        HitSoundType::Clap => 8,
    }
}

/// Whether a hitsound fires a trigger: any hitsound for an `any` trigger;
/// otherwise the sample set must match (the addition set when the trigger names
/// an addition, either set when it does not) and the named addition must sound.
pub open spec fn trigger_fires(trigger: StoryboardTriggerKind, ev: HitSoundEvent) -> bool {
    if trigger.any {
        true
    } else {
        let set_ok = match trigger.sample_set {
            None => true,
            Some(set) => {
                let id = sample_set_id(set);
                if trigger.hit_sound is Some {
                    ev.addition_set == id
                } else {
                    ev.normal_set == id || ev.addition_set == id
                }
            },
        };
        let sound_ok = match trigger.hit_sound {
            None => true,
            Some(hit) => ev.hit_sound & hit_sound_flag(hit) != 0,
        };
        set_ok && sound_ok
    }
}

pub fn trigger_matches(trigger: StoryboardTriggerKind, ev: &HitSoundEvent) -> (m: bool)
    ensures
        m == trigger_fires(trigger, *ev),
{
    if trigger.any {
        return true;
    }
    if let Some(set) = trigger.sample_set {
        let id: u8 = match set {
            SampleSet::Normal => 1,
            SampleSet::Soft => 2,
            SampleSet::Drum => 3,
        };
        if trigger.hit_sound.is_some() {
            if ev.addition_set != id {
                return false;
            }
        } else if ev.normal_set != id && ev.addition_set != id {
            return false;
        }
    }
    if let Some(hit) = trigger.hit_sound {
        let flag: u8 = match hit {
            HitSoundType::Whistle => 2,
            HitSoundType::Finish => 4,
            HitSoundType::Clap => 8,
        };
        if (ev.hit_sound & flag) == 0 {
            return false;
        }
    }
    true
}

// ---------------------------------------------------------------------------
// Flattening loops and triggers into absolute command times.

/// A command list placed at `base`, in order; the first failure wins.
pub open spec fn flatten_list(
    cmds: Seq<StoryboardCommand>,
    hits: Seq<HitSoundEvent>,
    base: int,
    origin: Option<i32>,
) -> Result<Seq<FlatCommand>, StoryboardTimeError>
    decreases cmds, 0int,
{
    if cmds.len() == 0 {
        Ok(seq![])
    } else {
        match flatten_list(cmds.drop_last(), hits, base, origin) {
            Err(e) => Err(e),
            Ok(a) => match flatten_one(cmds.last(), hits, base, origin) {
                Err(e) => Err(e),
                Ok(b) => Ok(a + b),
            },
        }
    }
}

/// One command placed at `base`: a plain command at its own times (its end no
/// earlier than its start); a loop as its iterations; a trigger as one copy of
/// its commands per firing hitsound.
pub open spec fn flatten_one(
    cmd: StoryboardCommand,
    hits: Seq<HitSoundEvent>,
    base: int,
    origin: Option<i32>,
) -> Result<Seq<FlatCommand>, StoryboardTimeError>
    decreases cmd, 0int,
{
    match cmd {
        StoryboardCommand::Command(d) => match storyboard_time(base, d.start_time as int) {
            Err(e) => Err(e),
            Ok(start) => match storyboard_time(base, d.end_time as int) {
                Err(e) => Err(e),
                Ok(end) => Ok(
                    seq![
                        FlatCommand {
                            source: d.source,
                            start_time: start,
                            end_time: if end >= start {
                                end
                            } else {
                                start
                            },
                            trigger_origin: origin,
                        },
                    ],
                ),
            },
        },
        StoryboardCommand::Loop(l) => match commands_span(l.commands@) {
            None => Ok(seq![]),
            Some((loop_start, loop_end)) => if !in_i64(base + l.start_time) {
                Err(StoryboardTimeError::LoopTimeOverflow)
            } else {
                expand_loop(
                    l,
                    hits,
                    base + l.start_time,
                    max_int(loop_end - loop_start, 0),
                    loop_iterations(l.loop_count),
                    origin,
                )
            },
        },
        StoryboardCommand::Trigger(t) => expand_trigger(t, hits, base, hits.len()),
    }
}

/// The first `n` iterations of a loop whose iterations start `span` apart from `loop_base`.
pub open spec fn expand_loop(
    l: LoopCommand,
    hits: Seq<HitSoundEvent>,
    loop_base: int,
    span: int,
    n: nat,
    origin: Option<i32>,
) -> Result<Seq<FlatCommand>, StoryboardTimeError>
    decreases l, n,
{
    if n == 0 {
        Ok(seq![])
    } else {
        match expand_loop(l, hits, loop_base, span, (n - 1) as nat, origin) {
            Err(e) => Err(e),
            Ok(a) => {
                let offset = loop_base + sat64((n - 1) * span);
                if !in_i64(offset) {
                    Err(StoryboardTimeError::LoopExpansionOverflow)
                } else {
                    match flatten_list(l.commands@, hits, offset, origin) {
                        Err(e) => Err(e),
                        Ok(b) => Ok(a + b),
                    }
                }
            },
        }
    }
}

/// A trigger's copies for the firing hitsounds among the first `n`: each copy
/// placed at the hitsound's time and marked with it.
pub open spec fn expand_trigger(
    t: TriggerCommand,
    hits: Seq<HitSoundEvent>,
    base: int,
    n: nat,
) -> Result<Seq<FlatCommand>, StoryboardTimeError>
    decreases t, n,
{
    if n == 0 || n > hits.len() {
        Ok(seq![])
    } else {
        match expand_trigger(t, hits, base, (n - 1) as nat) {
            Err(e) => Err(e),
            Ok(a) => {
                let ev = hits[n - 1];
                if t.start_time <= ev.time <= t.end_time && trigger_fires(t.trigger, ev) {
                    if !in_i64(base + ev.time) {
                        Err(StoryboardTimeError::TriggerTimeOverflow)
                    } else {
                        match flatten_list(t.commands@, hits, base + ev.time, Some(ev.time)) {
                            Err(e) => Err(e),
                            Ok(b) => Ok(a + b),
                        }
                    }
                } else {
                    Ok(a)
                }
            },
        }
    }
}

proof fn lemma_list_err_persists(
    cmds: Seq<StoryboardCommand>,
    hits: Seq<HitSoundEvent>,
    base: int,
    origin: Option<i32>,
    m: int,
)
    requires
        0 <= m <= cmds.len(),
        flatten_list(cmds.take(m), hits, base, origin) is Err,
    ensures
        flatten_list(cmds, hits, base, origin) == flatten_list(cmds.take(m), hits, base, origin),
    decreases cmds.len(),
{
    if m == cmds.len() {
        assert(cmds.take(m) =~= cmds);
    } else {
        assert(cmds.drop_last().take(m) =~= cmds.take(m));
        lemma_list_err_persists(cmds.drop_last(), hits, base, origin, m);
    }
}

proof fn lemma_loop_err_persists(
    l: LoopCommand,
    hits: Seq<HitSoundEvent>,
    loop_base: int,
    span: int,
    m: nat,
    n: nat,
    origin: Option<i32>,
)
    requires
        m <= n,
        expand_loop(l, hits, loop_base, span, m, origin) is Err,
    ensures
        expand_loop(l, hits, loop_base, span, n, origin) == expand_loop(
            l,
            hits,
            loop_base,
            span,
            m,
            origin,
        ),
    decreases n,
{
    if m < n {
        lemma_loop_err_persists(l, hits, loop_base, span, m, (n - 1) as nat, origin);
    }
}

proof fn lemma_trigger_err_persists(
    t: TriggerCommand,
    hits: Seq<HitSoundEvent>,
    base: int,
    m: nat,
    n: nat,
)
    requires
        m <= n <= hits.len(),
        expand_trigger(t, hits, base, m) is Err,
    ensures
        expand_trigger(t, hits, base, n) == expand_trigger(t, hits, base, m),
    decreases n,
{
    if m < n {
        lemma_trigger_err_persists(t, hits, base, m, (n - 1) as nat);
    }
}

pub open spec fn result_matches(
    r: Result<Vec<FlatCommand>, StoryboardTimeError>,
    s: Result<Seq<FlatCommand>, StoryboardTimeError>,
) -> bool {
    match r {
        Ok(v) => s == Ok::<Seq<FlatCommand>, StoryboardTimeError>(v@),
        Err(e) => s == Err::<Seq<FlatCommand>, StoryboardTimeError>(e),
    }
}

/// Places a command list at absolute times.
pub fn flatten_commands(commands: &[StoryboardCommand], hit_events: &[HitSoundEvent], base_offset: i64) -> (r:
    Result<Vec<FlatCommand>, StoryboardTimeError>)
    requires
        spans_fit(commands@),
    ensures
        result_matches(r, flatten_list(commands@, hit_events@, base_offset as int, None)),
{
    flatten_commands_with_origin(commands, hit_events, base_offset, None)
}

/// Places a command list at absolute times, marking what it yields with `trigger_origin`.
pub fn flatten_commands_with_origin(
    commands: &[StoryboardCommand],
    hit_events: &[HitSoundEvent],
    base_offset: i64,
    trigger_origin: Option<i32>,
) -> (r: Result<Vec<FlatCommand>, StoryboardTimeError>)
    requires
        spans_fit(commands@),
    ensures
        result_matches(r, flatten_list(commands@, hit_events@, base_offset as int, trigger_origin)),
    decreases commands@, 0int,
{
    let mut out: Vec<FlatCommand> = Vec::new();
    for k in 0..commands.len()
        invariant
            spans_fit(commands@),
            flatten_list(commands@.take(k as int), hit_events@, base_offset as int, trigger_origin)
                == Ok::<Seq<FlatCommand>, StoryboardTimeError>(out@),
    {
        proof {
            lemma_spans_fit_each(commands@, k as int);
        }
        assert(commands@.take(k + 1).drop_last() =~= commands@.take(k as int));
        assert(commands@.take(k + 1).last() == commands@[k as int]);
        match flatten_command(&commands[k], hit_events, base_offset, trigger_origin) {
            Err(e) => {
                proof {
                    lemma_list_err_persists(
                        commands@,
                        hit_events@,
                        base_offset as int,
                        trigger_origin,
                        k + 1,
                    );
                }
                return Err(e);
            },
            Ok(mut part) => {
                out.append(&mut part);
            },
        }
    }
    assert(commands@.take(commands.len() as int) =~= commands@);
    Ok(out)
}

fn flatten_command(
    cmd: &StoryboardCommand,
    hit_events: &[HitSoundEvent],
    base_offset: i64,
    trigger_origin: Option<i32>,
) -> (r: Result<Vec<FlatCommand>, StoryboardTimeError>)
    requires
        span_fits(*cmd),
    ensures
        result_matches(r, flatten_one(*cmd, hit_events@, base_offset as int, trigger_origin)),
    decreases *cmd, 0int,
{
    match cmd {
        StoryboardCommand::Command(data) => {
            let start_time = match checked_storyboard_time(base_offset, data.start_time as i64) {
                Err(e) => {
                    return Err(e);
                },
                Ok(t) => t,
            };
            let end_raw = match checked_storyboard_time(base_offset, data.end_time as i64) {
                Err(e) => {
                    return Err(e);
                },
                Ok(t) => t,
            };
            let end_time = if end_raw >= start_time {
                end_raw
            } else {
                start_time
            };
            let mut out: Vec<FlatCommand> = Vec::new();
            out.push(
                FlatCommand {
                    source: data.source,
                    start_time,
                    end_time,
                    trigger_origin,
                },
            );
            assert(out@ =~= seq![
                FlatCommand {
                    source: data.source,
                    start_time,
                    end_time,
                    trigger_origin,
                },
            ]);
            Ok(out)
        },
        StoryboardCommand::Loop(loop_cmd) => {
            let (loop_start, loop_end) = match command_time_bounds(loop_cmd.commands.as_slice()) {
                None => {
                    return Ok(Vec::new());
                },
                Some(b) => b,
            };
            let diff = loop_end - loop_start;
            let span: i64 = if diff > 0 {
                diff
            } else {
                0
            };
            let count = loop_total_iterations(loop_cmd.loop_count);
            let loop_base = match base_offset.checked_add(loop_cmd.start_time as i64) {
                None => {
                    return Err(StoryboardTimeError::LoopTimeOverflow);
                },
                Some(b) => b,
            };
            let mut out: Vec<FlatCommand> = Vec::new();
            for i in 0..count
                invariant
                    *cmd == StoryboardCommand::Loop(*loop_cmd),
                    count == loop_iterations(loop_cmd.loop_count),
                    in_i64(base_offset + loop_cmd.start_time),
                    loop_base == base_offset + loop_cmd.start_time,
                    commands_span(loop_cmd.commands@) == Some((loop_start as int, loop_end as int)),
                    flatten_one(*cmd, hit_events@, base_offset as int, trigger_origin) == expand_loop(
                        *loop_cmd,
                        hit_events@,
                        loop_base as int,
                        span as int,
                        count as nat,
                        trigger_origin,
                    ),
                    spans_fit(loop_cmd.commands@),
                    span == max_int(loop_end - loop_start, 0),
                    expand_loop(
                        *loop_cmd,
                        hit_events@,
                        loop_base as int,
                        span as int,
                        i as nat,
                        trigger_origin,
                    ) == Ok::<Seq<FlatCommand>, StoryboardTimeError>(out@),
            {
                assert(count <= 0x7fff_ffff);
                let step = sat_mul64(i as i64, span);
                let offset = match loop_base.checked_add(step) {
                    None => {
                        proof {
                            lemma_loop_err_persists(
                                *loop_cmd,
                                hit_events@,
                                loop_base as int,
                                span as int,
                                (i + 1) as nat,
                                count as nat,
                                trigger_origin,
                            );
                        }
                        return Err(StoryboardTimeError::LoopExpansionOverflow);
                    },
                    Some(o) => o,
                };
                match flatten_commands_with_origin(
                    loop_cmd.commands.as_slice(),
                    hit_events,
                    offset,
                    trigger_origin,
                ) {
                    Err(e) => {
                        proof {
                            lemma_loop_err_persists(
                                *loop_cmd,
                                hit_events@,
                                loop_base as int,
                                span as int,
                                (i + 1) as nat,
                                count as nat,
                                trigger_origin,
                            );
                        }
                        return Err(e);
                    },
                    Ok(mut part) => {
                        out.append(&mut part);
                    },
                }
            }
            Ok(out)
        },
        StoryboardCommand::Trigger(trigger) => {
            let mut out: Vec<FlatCommand> = Vec::new();
            for j in 0..hit_events.len()
                invariant
                    *cmd == StoryboardCommand::Trigger(*trigger),
                    flatten_one(*cmd, hit_events@, base_offset as int, trigger_origin) == expand_trigger(
                        *trigger,
                        hit_events@,
                        base_offset as int,
                        hit_events@.len(),
                    ),
                    spans_fit(trigger.commands@),
                    expand_trigger(*trigger, hit_events@, base_offset as int, j as nat) == Ok::<
                        Seq<FlatCommand>,
                        StoryboardTimeError,
                    >(out@),
            {
                let ev = hit_events[j];
                if ev.time >= trigger.start_time && ev.time <= trigger.end_time && trigger_matches(
                    trigger.trigger,
                    &ev,
                ) {
                    let nested_base = match base_offset.checked_add(ev.time as i64) {
                        None => {
                            proof {
                                lemma_trigger_err_persists(
                                    *trigger,
                                    hit_events@,
                                    base_offset as int,
                                    (j + 1) as nat,
                                    hit_events@.len(),
                                );
                            }
                            return Err(StoryboardTimeError::TriggerTimeOverflow);
                        },
                        Some(b) => b,
                    };
                    match flatten_commands_with_origin(
                        trigger.commands.as_slice(),
                        hit_events,
                        nested_base,
                        Some(ev.time),
                    ) {
                        Err(e) => {
                            proof {
                                lemma_trigger_err_persists(
                                    *trigger,
                                    hit_events@,
                                    base_offset as int,
                                    (j + 1) as nat,
                                    hit_events@.len(),
                                );
                            }
                            return Err(e);
                        },
                        Ok(mut part) => {
                            out.append(&mut part);
                        },
                    }
                }
            }
            Ok(out)
        },
    }
}

// ---------------------------------------------------------------------------
// Hitsound events of the beatmap.

impl SortKey for HitSoundEvent {
    open spec fn sort_key(&self) -> int {
        self.time as int
    }

    fn key(&self) -> (k: i128) {
        self.time as i128
    }
}

/// Length of the leading run of timing points that start at or before `time`.
pub open spec fn started_prefix(tps: Seq<TimingPoint>, time: i32) -> nat
    decreases tps.len(),
{
    if tps.len() == 0 || tps[0].time > time {
        0
    } else {
        1 + started_prefix(tps.drop_first(), time)
    }
}

/// The timing point in force at `time`: the last of the leading run that has started.
pub open spec fn timing_point_index(tps: Seq<TimingPoint>, time: i32) -> Option<int> {
    let n = started_prefix(tps, time);
    if n == 0 {
        None
    } else {
        Some(n - 1)
    }
}

proof fn lemma_started_prefix_bound(tps: Seq<TimingPoint>, time: i32)
    ensures
        started_prefix(tps, time) <= tps.len(),
    decreases tps.len(),
{
    if tps.len() > 0 && tps[0].time <= time {
        lemma_started_prefix_bound(tps.drop_first(), time);
    }
}

pub fn timing_point_at(timing_points: &[TimingPoint], time: i32) -> (r: Option<&TimingPoint>)
    ensures
        match r {
            Some(tp) => timing_point_index(timing_points@, time) matches Some(i) && 0 <= i
                < timing_points@.len() && *tp == timing_points@[i],
            None => timing_point_index(timing_points@, time) is None,
        },
{
    let mut chosen: Option<&TimingPoint> = None;
    let mut i: usize = 0;
    assert(timing_points@.skip(0) =~= timing_points@);
    while i < timing_points.len() && timing_points[i].time <= time
        invariant
            i <= timing_points@.len(),
            started_prefix(timing_points@, time) == i + started_prefix(
                timing_points@.skip(i as int),
                time,
            ),
            i == 0 ==> chosen is None,
            i > 0 ==> chosen == Some(&timing_points@[i - 1]),
        decreases timing_points.len() - i,
    {
        assert(timing_points@.skip(i as int).drop_first() =~= timing_points@.skip(i + 1));
        chosen = Some(&timing_points[i]);
        i = i + 1;
    }
    if i < timing_points.len() {
        assert(timing_points@.skip(i as int)[0] == timing_points@[i as int]);
    }
    proof {
        lemma_started_prefix_bound(timing_points@, time);
    }
    chosen
}

/// The sample sets a hit object sounds with: its own override, else the timing
/// point's set (normal when none is in force or it is zero); the addition set
/// falls back to the normal set.
pub open spec fn sample_sets(tps: Seq<TimingPoint>, ho: HitObject) -> (u8, u8) {
    let timing_set: u8 = match timing_point_index(tps, ho.time) {
        Some(i) => tps[i].sample_set,
        None => 1,
    };
    let normal = if ho.hit_sample.normal_set > 0 {
        ho.hit_sample.normal_set
    } else if timing_set > 0 {
        timing_set
    } else {
        1
    };
    let addition = if ho.hit_sample.addition_set > 0 {
        ho.hit_sample.addition_set
    } else {
        normal
    };
    (normal, addition)
}

pub fn resolve_sample_sets(timing_points: &[TimingPoint], ho: &HitObject) -> (r: (u8, u8))
    ensures
        r == sample_sets(timing_points@, *ho),
{
    let timing_set = match timing_point_at(timing_points, ho.time) {
        Some(tp) => tp.sample_set,
        None => 1,
    };
    let normal_set = if ho.hit_sample.normal_set > 0 {
        ho.hit_sample.normal_set
    } else if timing_set > 0 {
        timing_set
    } else {
        1
    };
    let addition_set = if ho.hit_sample.addition_set > 0 {
        ho.hit_sample.addition_set
    } else {
        normal_set
    };
    (normal_set, addition_set)
}

/// The hitsound event of one hit object; a silent object counts as a normal hit.
pub open spec fn hitsound_event(tps: Seq<TimingPoint>, ho: HitObject) -> HitSoundEvent {
    HitSoundEvent {
        time: ho.time,
        normal_set: sample_sets(tps, ho).0,
        addition_set: sample_sets(tps, ho).1,
        hit_sound: if ho.hit_sound == 0 {
            1
        } else {
            ho.hit_sound
        },
    }
}

/// Every hit object's hitsound event, in stable time order.
pub open spec fn hitsound_events(hit_objects: Seq<HitObject>, tps: Seq<TimingPoint>) -> Seq<
    HitSoundEvent,
> {
    stable_sorted(hit_objects.map_values(|ho: HitObject| hitsound_event(tps, ho)))
}

pub fn collect_hitsound_events(hit_objects: &[HitObject], timing_points: &[TimingPoint]) -> (events:
    Vec<HitSoundEvent>)
    ensures
        events@ == hitsound_events(hit_objects@, timing_points@),
{
    let mut events: Vec<HitSoundEvent> = Vec::new();
    for k in 0..hit_objects.len()
        invariant
            events@ == hit_objects@.take(k as int).map_values(
                |ho: HitObject| hitsound_event(timing_points@, ho),
            ),
    {
        let ho = &hit_objects[k];
        let (normal_set, addition_set) = resolve_sample_sets(timing_points, ho);
        let mut hit_sound = ho.hit_sound;
        if hit_sound == 0 {
            hit_sound = 1;
        }
        events.push(HitSoundEvent { time: ho.time, normal_set, addition_set, hit_sound });
        assert(events@ =~= hit_objects@.take(k + 1).map_values(
            |ho: HitObject| hitsound_event(timing_points@, ho),
        ));
    }
    assert(hit_objects@.take(hit_objects.len() as int) =~= hit_objects@);
    stable_sort(&mut events);
    events
}

// ---------------------------------------------------------------------------
// Animations.

/// Frame shown at `time` of an animation started at `start_time`: one frame per
/// `delay` ms, wrapping when looping forever, holding the last when looping once.
pub open spec fn animation_frame(
    time: i32,
    start_time: i32,
    delay: u32,
    frame_count: u32,
    loop_type: AnimationLoopType,
) -> u32 {
    if frame_count == 0 || delay == 0 {
        0
    } else {
        let rel = if time - start_time > 0 {
            time - start_time
        } else {
            0
        };
        let frame = rel / (delay as int);
        match loop_type {
            AnimationLoopType::LoopForever => (frame % (frame_count as int)) as u32,
            AnimationLoopType::LoopOnce => if frame < frame_count - 1 {
                frame as u32
            } else {
                (frame_count - 1) as u32
            },
        }
    }
}

pub fn animation_frame_index(
    time: i32,
    start_time: i32,
    delay: u32,
    frame_count: u32,
    loop_type: AnimationLoopType,
) -> (f: u32)
    requires
        i32::MIN <= time - start_time <= i32::MAX,
    ensures
        f == animation_frame(time, start_time, delay, frame_count, loop_type),
        frame_count > 0 ==> f < frame_count,
{
    if frame_count == 0 {
        return 0;
    }
    if delay == 0 {
        return 0;
    }
    let diff = time - start_time;
    let rel: u32 = if diff > 0 {
        diff as u32
    } else {
        0
    };
    let frame = rel / delay;
    match loop_type {
        AnimationLoopType::LoopForever => frame % frame_count,
        AnimationLoopType::LoopOnce => {
            if frame < frame_count - 1 {
                frame
            } else {
                frame_count - 1
            }
        },
    }
}

/// Path of animation frame `idx`: the frame number goes in front of every dot
/// (`sprite.png` becomes `sprite0.png`).
pub open spec fn frame_path(base: Seq<char>, idx: nat) -> Seq<char> {
    replace_char(base, '.', decimal(idx) + "."@)
}

pub fn animation_frame_path(base: &str, idx: u32) -> (p: String)
    ensures
        p@ == frame_path(base@, idx as nat),
{
    let b = chars_of(base);
    let mut insert: Vec<char> = Vec::new();
    push_decimal(&mut insert, idx as u64);
    push_str(&mut insert, ".");
    let out = replace_char_chars(&b, '.', &insert);
    string_from_chars(&out)
}

/// A storyboard path as it is looked up: backslashes become slashes, then lower case.
pub open spec fn normalized_path(path: Seq<char>) -> Seq<char> {
    unicode_lowercase(replace_char(path, '\\', "/"@))
}

pub fn normalize_path(path: &str) -> (p: String)
    ensures
        p@ == normalized_path(path@),
{
    let chars = chars_of(path);
    let slash = chars_of("/");
    let replaced = string_from_chars(&replace_char_chars(&chars, '\\', &slash));
    to_lowercase(replaced.as_str())
}


/// Hitsound events come out in time order, none lost or added, and events at
/// the same time keep the order of their hit objects.
pub proof fn lemma_hitsound_events_in_time_order(hit_objects: Seq<HitObject>, tps: Seq<TimingPoint>, time: i32)
    ensures
        ({
            let raw = hit_objects.map_values(|ho: HitObject| hitsound_event(tps, ho));
            let ev = hitsound_events(hit_objects, tps);
            &&& forall|i: int, j: int| 0 <= i <= j < ev.len() ==> ev[i].time <= ev[j].time
            &&& ev.to_multiset() == raw.to_multiset()
            &&& with_key(ev, time as int) == with_key(raw, time as int)
        }),
{
    let raw = hit_objects.map_values(|ho: HitObject| hitsound_event(tps, ho));
    lemma_stable_sorted(raw);
    lemma_stable_sorted_keeps_order(raw, time as int);
    let ev = hitsound_events(hit_objects, tps);
    assert forall|i: int, j: int| 0 <= i <= j < ev.len() implies ev[i].time <= ev[j].time by {
        assert(ev[i].sort_key() <= ev[j].sort_key());
    }
}


/// A play-once animation shows frame `f` from `f * delay` ms after its start
/// until `(f + 1) * delay`, and then holds its last frame: the frame shown is
/// the one whose span holds the time elapsed (none elapsed before the start),
/// capped at the last frame. Until the last frame is reached it shows the
/// same frame as the looping animation would.
pub proof fn lemma_play_once_frame(time: i32, start_time: i32, delay: u32, frame_count: u32)
    requires
        delay > 0,
        frame_count > 0,
    ensures
        ({
            let elapsed: int = if time - start_time > 0 {
                time - start_time
            } else {
                0
            };
            let f = animation_frame(time, start_time, delay, frame_count, AnimationLoopType::LoopOnce) as int;
            &&& 0 <= f < frame_count
            &&& f < frame_count - 1 ==> f * delay <= elapsed < (f + 1) * delay
            &&& f == frame_count - 1 ==> (frame_count - 1) * delay <= elapsed
            &&& elapsed < frame_count * delay ==> f == animation_frame(
                time,
                start_time,
                delay,
                frame_count,
                AnimationLoopType::LoopForever,
            )
        }),
{
    let elapsed: int = if time - start_time > 0 {
        time - start_time
    } else {
        0
    };
    let d = delay as int;
    let q = elapsed / d;
    vstd::arithmetic::div_mod::lemma_fundamental_div_mod(elapsed, d);
    vstd::arithmetic::div_mod::lemma_mod_pos_bound(elapsed, d);
    assert(q * d <= elapsed < (q + 1) * d) by (nonlinear_arith)
        requires
            elapsed == d * q + elapsed % d,
            0 <= elapsed % d < d,
    ;
    assert(q >= 0) by (nonlinear_arith)
        requires
            q * d <= elapsed,
            elapsed < (q + 1) * d,
            d > 0,
            elapsed >= 0,
    ;
    if q >= frame_count - 1 {
        assert((frame_count - 1) * d <= elapsed) by (nonlinear_arith)
            requires
                q >= frame_count - 1,
                q * d <= elapsed,
                d > 0,
        ;
    }
    if elapsed < frame_count * d {
        assert(q < frame_count) by (nonlinear_arith)
            requires
                q * d <= elapsed,
                elapsed < frame_count * d,
                d > 0,
        ;
        vstd::arithmetic::div_mod::lemma_small_mod(q as nat, frame_count as nat);
    }
}


/// A loop runs its count of times, and at least once.
pub proof fn lemma_loops_run_at_least_once(a: i32, b: i32)
    ensures
        loop_iterations(a) >= 1,
        a >= 1 ==> loop_iterations(a) == a,
        a <= b ==> loop_iterations(a) <= loop_iterations(b),
{
}

/// Trigger conditions only narrow: an `any` trigger, or one that names neither
/// a sample set nor an addition, fires on every hitsound; dropping a trigger's
/// sample set or its addition never stops it firing. The sample sets and the
/// addition flags are told apart: each set its own id, each addition its own bit.
pub proof fn lemma_trigger_conditions_narrow(trigger: StoryboardTriggerKind, ev: HitSoundEvent)
    ensures
        trigger.any ==> trigger_fires(trigger, ev),
        trigger.sample_set is None && trigger.hit_sound is None ==> trigger_fires(trigger, ev),
        trigger_fires(trigger, ev) ==> trigger_fires(StoryboardTriggerKind { sample_set: None, ..trigger }, ev),
        trigger_fires(trigger, ev) ==> trigger_fires(StoryboardTriggerKind { hit_sound: None, ..trigger }, ev),
        sample_set_id(SampleSet::Normal) != sample_set_id(SampleSet::Soft),
        sample_set_id(SampleSet::Normal) != sample_set_id(SampleSet::Drum),
        sample_set_id(SampleSet::Soft) != sample_set_id(SampleSet::Drum),
        hit_sound_flag(HitSoundType::Whistle) & hit_sound_flag(HitSoundType::Finish) == 0,
        hit_sound_flag(HitSoundType::Whistle) & hit_sound_flag(HitSoundType::Clap) == 0,
        hit_sound_flag(HitSoundType::Finish) & hit_sound_flag(HitSoundType::Clap) == 0,
        hit_sound_flag(HitSoundType::Whistle) != 0 && hit_sound_flag(HitSoundType::Finish) != 0
            && hit_sound_flag(HitSoundType::Clap) != 0,
{
    assert(2u8 & 4u8 == 0) by (bit_vector);
    assert(2u8 & 8u8 == 0) by (bit_vector);
    assert(4u8 & 8u8 == 0) by (bit_vector);
}

} // verus!
