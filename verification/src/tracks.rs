//! Storyboard sprites: their command tracks and which command decides a value
//! at a given time, their lifetime, and their layer.
use vstd::prelude::*;
use crate::sorting::{SortKey, stable_sort, stable_sorted, lemma_stable_sorted};
use crate::storyboard::FlatCommand;

verus! {

/// A command of a sprite's track: the flattened command and which of its
/// values the track reads (a move command feeds its x track from value 0 and
/// its y track from value 1).
#[derive(Debug, Clone, Copy, PartialEq, Eq)]
pub struct TrackCommand {
    pub command: FlatCommand,
    pub value_index: usize,
}


/// Commands are ordered by start time, then by end time.
impl SortKey for TrackCommand {
    open spec fn sort_key(&self) -> int {
        self.command.start_time as int * 0x1_0000_0000 + self.command.end_time as int
    }

    fn key(&self) -> (k: i128) {
        self.command.start_time as i128 * 0x1_0000_0000i128 + self.command.end_time as i128
    }
}

/// A track in playback order: by start time, then end time, and in storyboard
/// order where both are equal.
pub fn sort_track(track: &mut Vec<TrackCommand>)
    ensures
        final(track)@ == stable_sorted(old(track)@),
{
    stable_sort(track);
}

/// The key order is the order of (start, end) pairs.
pub proof fn lemma_track_key_orders_times(a: TrackCommand, b: TrackCommand)
    ensures
        (a.sort_key() <= b.sort_key()) == (a.command.start_time < b.command.start_time || (a.command.start_time
            == b.command.start_time && a.command.end_time <= b.command.end_time)),
{
    let sa = a.command.start_time as int;
    let sb = b.command.start_time as int;
    let ea = a.command.end_time as int;
    let eb = b.command.end_time as int;
    if sa < sb {
        assert(sa * 0x1_0000_0000 + 0x1_0000_0000 <= sb * 0x1_0000_0000) by (nonlinear_arith)
            requires
                sa < sb,
        ;
    } else if sa > sb {
        assert(sb * 0x1_0000_0000 + 0x1_0000_0000 <= sa * 0x1_0000_0000) by (nonlinear_arith)
            requires
                sb < sa,
        ;
    }
}

/// A sorted track holds the same commands, in (start, end) order.
pub proof fn lemma_sorted_track_in_time_order(track: Seq<TrackCommand>)
    ensures
        stable_sorted(track).to_multiset() == track.to_multiset(),
        forall|i: int, j: int|
            0 <= i <= j < stable_sorted(track).len() ==> {
                let a = #[trigger] stable_sorted(track)[i];
                let b = #[trigger] stable_sorted(track)[j];
                a.command.start_time < b.command.start_time || (a.command.start_time == b.command.start_time
                    && a.command.end_time <= b.command.end_time)
            },
{
    lemma_stable_sorted(track);
    let s = stable_sorted(track);
    assert forall|i: int, j: int| 0 <= i <= j < s.len() implies {
        let a = #[trigger] s[i];
        let b = #[trigger] s[j];
        a.command.start_time < b.command.start_time || (a.command.start_time == b.command.start_time
            && a.command.end_time <= b.command.end_time)
    } by {
        assert(s[i].sort_key() <= s[j].sort_key());
        lemma_track_key_orders_times(s[i], s[j]);
    }
}

/// How many leading commands have started by `time` (for a track in order,
/// the commands that have started at all).
pub open spec fn started_count(cmds: Seq<TrackCommand>, time: i32) -> nat
    decreases cmds.len(),
{
    if cmds.len() == 0 || cmds[0].command.start_time > time {
        0
    } else {
        1 + started_count(cmds.drop_first(), time)
    }
}

proof fn lemma_started_count_bound(cmds: Seq<TrackCommand>, time: i32)
    ensures
        started_count(cmds, time) <= cmds.len(),
    decreases cmds.len(),
{
    if cmds.len() > 0 && cmds[0].command.start_time <= time {
        lemma_started_count_bound(cmds.drop_first(), time);
    }
}

/// Counts the leading commands that have started by `time`.
pub fn started_commands(cmds: &[TrackCommand], time: i32) -> (n: usize)
    ensures
        n == started_count(cmds@, time),
{
    let mut i: usize = 0;
    assert(cmds@.skip(0) =~= cmds@);
    while i < cmds.len() && cmds[i].command.start_time <= time
        invariant
            i <= cmds@.len(),
            started_count(cmds@, time) == i + started_count(cmds@.skip(i as int), time),
        decreases cmds.len() - i,
    {
        assert(cmds@.skip(i as int).drop_first() =~= cmds@.skip(i + 1));
        i = i + 1;
    }
    if i < cmds.len() {
        assert(cmds@.skip(i as int)[0] == cmds@[i as int]);
    }
    i
}

/// The latest hitsound time that any of the commands was triggered by.
pub open spec fn latest_trigger_origin(cmds: Seq<TrackCommand>) -> Option<i32>
    decreases cmds.len(),
{
    if cmds.len() == 0 {
        None
    } else {
        let rest = latest_trigger_origin(cmds.drop_last());
        match (cmds.last().command.trigger_origin, rest) {
            (Some(o), Some(r)) => Some(
                if o >= r {
                    o
                } else {
                    r
                },
            ),
            (Some(o), None) => Some(o),
            (None, r) => r,
        }
    }
}

/// The last command matching `pred`.
pub open spec fn last_index_where(cmds: Seq<TrackCommand>, pred: spec_fn(TrackCommand) -> bool) -> Option<int>
    decreases cmds.len(),
{
    if cmds.len() == 0 {
        None
    } else if pred(cmds.last()) {
        Some(cmds.len() - 1)
    } else {
        last_index_where(cmds.drop_last(), pred)
    }
}

/// A command of the storyboard itself (no trigger) starting at or after `origin`.
pub open spec fn normal_from(origin: i32) -> spec_fn(TrackCommand) -> bool {
    |c: TrackCommand| c.command.trigger_origin is None && c.command.start_time >= origin
}

/// A command that the trigger at `origin` produced.
pub open spec fn from_trigger(origin: i32) -> spec_fn(TrackCommand) -> bool {
    |c: TrackCommand| c.command.trigger_origin == Some(origin)
}

/// Which of the started fade commands controls the fade: after the latest
/// trigger fired, the last plain command starting at or after it, else the
/// last command of that trigger; without triggers, the last command.
pub open spec fn effective_fade_index(cmds: Seq<TrackCommand>) -> int {
    match latest_trigger_origin(cmds) {
        Some(o) => match last_index_where(cmds, normal_from(o)) {
            Some(i) => i,
            None => match last_index_where(cmds, from_trigger(o)) {
                Some(i) => i,
                None => cmds.len() - 1,
            },
        },
        None => cmds.len() - 1,
    }
}

proof fn lemma_last_index_where(cmds: Seq<TrackCommand>, pred: spec_fn(TrackCommand) -> bool)
    ensures
        last_index_where(cmds, pred) matches Some(i) ==> 0 <= i < cmds.len() && pred(cmds[i])
            && forall|j: int| i < j < cmds.len() ==> !pred(#[trigger] cmds[j]),
        last_index_where(cmds, pred) is None ==> forall|j: int|
            0 <= j < cmds.len() ==> !pred(#[trigger] cmds[j]),
    decreases cmds.len(),
{
    if cmds.len() > 0 && !pred(cmds.last()) {
        lemma_last_index_where(cmds.drop_last(), pred);
        assert forall|j: int| 0 <= j < cmds.len() - 1 implies cmds[j] == cmds.drop_last()[j] by {}
    }
}

proof fn lemma_latest_origin(cmds: Seq<TrackCommand>)
    ensures
        latest_trigger_origin(cmds) matches Some(o) ==> exists|j: int|
            0 <= j < cmds.len() && #[trigger] cmds[j].command.trigger_origin == Some(o),
        latest_trigger_origin(cmds) matches Some(o) ==> forall|j: int|
            0 <= j < cmds.len() ==> (#[trigger] cmds[j].command.trigger_origin matches Some(p) ==> p <= o),
        latest_trigger_origin(cmds) is None ==> forall|j: int|
            0 <= j < cmds.len() ==> #[trigger] cmds[j].command.trigger_origin is None,
    decreases cmds.len(),
{
    if cmds.len() > 0 {
        let rest = cmds.drop_last();
        lemma_latest_origin(rest);
        assert forall|j: int| 0 <= j < rest.len() implies #[trigger] rest[j] == cmds[j] by {}
        let last = cmds.len() - 1;
        if let Some(o) = latest_trigger_origin(cmds) {
            if cmds.last().command.trigger_origin == Some(o) {
                assert(cmds[last].command.trigger_origin == Some(o));
            } else {
                let j = choose|j: int| 0 <= j < rest.len() && #[trigger] rest[j].command.trigger_origin == Some(o);
                assert(cmds[j].command.trigger_origin == Some(o));
            }
            assert forall|j: int| 0 <= j < cmds.len() implies (#[trigger] cmds[j].command.trigger_origin matches Some(
                p,
            ) ==> p <= o) by {
                if j < last {
                    assert(rest[j] == cmds[j]);
                }
            }
        } else {
            assert forall|j: int| 0 <= j < cmds.len() implies #[trigger] cmds[j].command.trigger_origin is None by {
                if j < last {
                    assert(rest[j] == cmds[j]);
                }
            }
        }
    }
}

fn latest_origin_of(cmds: &[TrackCommand]) -> (r: Option<i32>)
    ensures
        r == latest_trigger_origin(cmds@),
{
    let mut r: Option<i32> = None;
    for i in 0..cmds.len()
        invariant
            r == latest_trigger_origin(cmds@.take(i as int)),
    {
        assert(cmds@.take(i + 1).drop_last() =~= cmds@.take(i as int));
        r = match (cmds[i].command.trigger_origin, r) {
            (Some(o), Some(p)) => Some(
                if o >= p {
                    o
                } else {
                    p
                },
            ),
            (Some(o), None) => Some(o),
            (None, p) => p,
        };
    }
    assert(cmds@.take(cmds@.len() as int) =~= cmds@);
    r
}

fn last_normal_from(cmds: &[TrackCommand], origin: i32) -> (r: Option<usize>)
    ensures
        r matches Some(i) ==> last_index_where(cmds@, normal_from(origin)) == Some(i as int),
        r is None ==> last_index_where(cmds@, normal_from(origin)) is None,
{
    let mut i: usize = cmds.len();
    assert(cmds@.take(cmds@.len() as int) =~= cmds@);
    while i > 0
        invariant
            i <= cmds@.len(),
            last_index_where(cmds@, normal_from(origin)) == last_index_where(
                cmds@.take(i as int),
                normal_from(origin),
            ),
        decreases i,
    {
        let c = cmds[i - 1];
        assert(cmds@.take(i as int).last() == c);
        if c.command.trigger_origin.is_none() && c.command.start_time >= origin {
            return Some(i - 1);
        }
        assert(cmds@.take(i as int).drop_last() =~= cmds@.take(i - 1));
        i = i - 1;
    }
    None
}

fn last_from_trigger(cmds: &[TrackCommand], origin: i32) -> (r: Option<usize>)
    ensures
        r matches Some(i) ==> last_index_where(cmds@, from_trigger(origin)) == Some(i as int),
        r is None ==> last_index_where(cmds@, from_trigger(origin)) is None,
{
    let mut i: usize = cmds.len();
    assert(cmds@.take(cmds@.len() as int) =~= cmds@);
    while i > 0
        invariant
            i <= cmds@.len(),
            last_index_where(cmds@, from_trigger(origin)) == last_index_where(
                cmds@.take(i as int),
                from_trigger(origin),
            ),
        decreases i,
    {
        let c = cmds[i - 1];
        assert(cmds@.take(i as int).last() == c);
        if c.command.trigger_origin == Some(origin) {
            return Some(i - 1);
        }
        assert(cmds@.take(i as int).drop_last() =~= cmds@.take(i - 1));
        i = i - 1;
    }
    None
}

/// The index of the fade command in control (see `effective_fade_index`).
pub fn select_effective_fade_command(cmds: &[TrackCommand]) -> (i: usize)
    requires
        cmds.len() > 0,
    ensures
        i == effective_fade_index(cmds@),
        i < cmds.len(),
{
    assert(cmds@.take(cmds@.len() as int) =~= cmds@);
    match latest_origin_of(cmds) {
        Some(o) => match last_normal_from(cmds, o) {
            Some(i) => {
                proof {
                    lemma_last_index_where(cmds@, normal_from(o));
                }
                i
            },
            None => match last_from_trigger(cmds, o) {
                Some(i) => {
                    proof {
                        lemma_last_index_where(cmds@, from_trigger(o));
                    }
                    i
                },
                None => cmds.len() - 1,
            },
        },
        None => cmds.len() - 1,
    }
}

/// Once a trigger has fired, a plain fade starting at or after it takes control
/// back: the last such fade wins over every command of the trigger. Without
/// one, the trigger's own last command is in control.
pub proof fn lemma_plain_fade_resumes_control(cmds: Seq<TrackCommand>)
    requires
        cmds.len() > 0,
        latest_trigger_origin(cmds) is Some,
    ensures
        ({
            let o = latest_trigger_origin(cmds).unwrap();
            let i = effective_fade_index(cmds);
            &&& 0 <= i < cmds.len()
            &&& (exists|j: int| 0 <= j < cmds.len() && #[trigger] normal_from(o)(cmds[j]))
                ==> normal_from(o)(cmds[i]) && forall|j: int|
                i < j < cmds.len() ==> !#[trigger] normal_from(o)(cmds[j])
            &&& (forall|j: int| 0 <= j < cmds.len() ==> !#[trigger] normal_from(o)(cmds[j]))
                ==> cmds[i].command.trigger_origin == Some(o)
        }),
{
    let o = latest_trigger_origin(cmds).unwrap();
    lemma_latest_origin(cmds);
    lemma_last_index_where(cmds, normal_from(o));
    lemma_last_index_where(cmds, from_trigger(o));
    if last_index_where(cmds, from_trigger(o)) is None {
        let j = choose|j: int| 0 <= j < cmds.len() && #[trigger] cmds[j].command.trigger_origin == Some(o);
        assert(from_trigger(o)(cmds[j]));
    }
}

/// Where a sprite's value comes from at some time.
#[derive(Debug, Clone, Copy, PartialEq, Eq, Structural)]
pub enum ValueSource {
    /// No command: the sprite's default.
    Default,
    /// Before the first command: that command's start value (the default when
    /// it has none).
    FirstStart,
    /// The command at this index, evaluated at the time.
    Command(usize),
}

/// The latest started command decides a value; before any has started, the
/// first command's start value holds.
pub open spec fn value_source(cmds: Seq<TrackCommand>, time: i32) -> ValueSource {
    let n = started_count(cmds, time);
    if cmds.len() == 0 {
        ValueSource::Default
    } else if n == 0 {
        ValueSource::FirstStart
    } else {
        ValueSource::Command((n - 1) as usize)
    }
}

pub fn value_source_at(cmds: &[TrackCommand], time: i32) -> (r: ValueSource)
    ensures
        r == value_source(cmds@, time),
        r matches ValueSource::Command(i) ==> i < cmds.len(),
{
    if cmds.len() == 0 {
        return ValueSource::Default;
    }
    let n = started_commands(cmds, time);
    proof {
        lemma_started_count_bound(cmds@, time);
    }
    if n == 0 {
        ValueSource::FirstStart
    } else {
        ValueSource::Command(n - 1)
    }
}

/// Where a sprite's opacity comes from at some time.
#[derive(Debug, Clone, Copy, PartialEq, Eq, Structural)]
pub enum FadeSource {
    /// No fade command: fully opaque.
    Default,
    /// The track opens with a triggered fade that has not started: invisible.
    Hidden,
    /// Before the first fade: its start value (opaque when it has none).
    FirstStart,
    /// The fade command at this index, evaluated at the time.
    Command(usize),
}

pub open spec fn fade_source(cmds: Seq<TrackCommand>, time: i32) -> FadeSource {
    let n = started_count(cmds, time);
    if cmds.len() == 0 {
        FadeSource::Default
    } else if cmds[0].command.trigger_origin is Some && time < cmds[0].command.start_time {
        FadeSource::Hidden
    } else if n == 0 {
        FadeSource::FirstStart
    } else {
        FadeSource::Command(effective_fade_index(cmds.take(n as int)) as usize)
    }
}

pub fn fade_source_at(cmds: &[TrackCommand], time: i32) -> (r: FadeSource)
    ensures
        r == fade_source(cmds@, time),
        r matches FadeSource::Command(i) ==> i < cmds.len(),
{
    if cmds.len() == 0 {
        return FadeSource::Default;
    }
    if cmds[0].command.trigger_origin.is_some() && time < cmds[0].command.start_time {
        return FadeSource::Hidden;
    }
    let n = started_commands(cmds, time);
    proof {
        lemma_started_count_bound(cmds@, time);
    }
    if n == 0 {
        FadeSource::FirstStart
    } else {
        let started = slice_prefix(cmds, n);
        FadeSource::Command(select_effective_fade_command(&started))
    }
}

fn slice_prefix(cmds: &[TrackCommand], n: usize) -> (out: Vec<TrackCommand>)
    requires
        n <= cmds.len(),
    ensures
        out@ == cmds@.take(n as int),
{
    let mut out: Vec<TrackCommand> = Vec::new();
    for i in 0..n
        invariant
            n <= cmds@.len(),
            out@ == cmds@.take(i as int),
    {
        out.push(cmds[i]);
        assert(out@ =~= cmds@.take(i + 1));
    }
    out
}

/// A parameter command (flip or additive blending) is on from its start to
/// its end, or from its start on when it has no duration.
pub open spec fn param_on(cmds: Seq<TrackCommand>, time: i32) -> bool {
    let n = started_count(cmds, time);
    if n == 0 {
        false
    } else {
        let c = cmds[n - 1];
        if c.command.end_time == c.command.start_time {
            time >= c.command.start_time
        } else {
            c.command.start_time <= time <= c.command.end_time
        }
    }
}

pub fn param_active_at(cmds: &[TrackCommand], time: i32) -> (on: bool)
    ensures
        on == param_on(cmds@, time),
{
    let n = started_commands(cmds, time);
    proof {
        lemma_started_count_bound(cmds@, time);
    }
    if n == 0 {
        return false;
    }
    let c = cmds[n - 1];
    if c.command.end_time == c.command.start_time {
        time >= c.command.start_time
    } else {
        time >= c.command.start_time && time <= c.command.end_time
    }
}

/// What a storyboard command sets.
#[derive(Debug, Clone, Copy, PartialEq, Eq, Structural)]
pub enum CommandKind {
    Fade,
    Move,
    MoveX,
    MoveY,
    Scale,
    VectorScale,
    Rotate,
    Color,
    Param,
}

/// The switches a parameter command turns on: horizontal flip, vertical flip,
/// additive blending.
#[derive(Debug, Clone, Copy, PartialEq, Eq, Structural)]
pub struct ParamFlags {
    pub h: bool,
    pub v: bool,
    pub a: bool,
}

/// A flattened command with what its track assignment depends on: its kind,
/// its parameter switches, and how many start and end values it has.
#[derive(Debug, Clone, Copy)]
pub struct TrackSource {
    pub command: FlatCommand,
    pub kind: CommandKind,
    pub params: ParamFlags,
    pub start_values: usize,
    pub end_values: usize,
}

/// The tracks of a sprite.
#[derive(Debug, Clone, Copy, PartialEq, Eq, Structural)]
pub enum Track {
    Fade,
    MoveX,
    MoveY,
    Scale,
    VectorScale,
    Rotate,
    Color,
    ParamH,
    ParamV,
    ParamA,
}

/// A sprite's commands split by what they set, each track in playback order.
#[derive(Debug, Clone)]
pub struct StoryboardTracks {
    pub fade: Vec<TrackCommand>,
    pub move_x: Vec<TrackCommand>,
    pub move_y: Vec<TrackCommand>,
    pub scale: Vec<TrackCommand>,
    pub vscale: Vec<TrackCommand>,
    pub rotate: Vec<TrackCommand>,
    pub color: Vec<TrackCommand>,
    pub param_h: Vec<TrackCommand>,
    pub param_v: Vec<TrackCommand>,
    pub param_a: Vec<TrackCommand>,
}

impl StoryboardTracks {
    pub open spec fn track(&self, t: Track) -> Seq<TrackCommand> {
        match t {
            Track::Fade => self.fade@,
            Track::MoveX => self.move_x@,
            Track::MoveY => self.move_y@,
            Track::Scale => self.scale@,
            Track::VectorScale => self.vscale@,
            Track::Rotate => self.rotate@,
            Track::Color => self.color@,
            Track::ParamH => self.param_h@,
            Track::ParamV => self.param_v@,
            Track::ParamA => self.param_a@,
        }
    }
}

/// What one command adds to track `t`: a move feeds both coordinate tracks
/// (each only when the command has that coordinate at both ends); a parameter
/// command feeds the track of each switch it turns on.
pub open spec fn contribution(item: TrackSource, t: Track) -> Seq<TrackCommand> {
    let own = seq![TrackCommand { command: item.command, value_index: 0 }];
    match (item.kind, t) {
        (CommandKind::Fade, Track::Fade) => own,
        (CommandKind::Move, Track::MoveX) => if item.start_values > 0 && item.end_values > 0 {
            own
        } else {
            seq![]
        },
        (CommandKind::Move, Track::MoveY) => if item.start_values > 1 && item.end_values > 1 {
            seq![TrackCommand { command: item.command, value_index: 1 }]
        } else {
            seq![]
        },
        (CommandKind::MoveX, Track::MoveX) => own,
        (CommandKind::MoveY, Track::MoveY) => own,
        (CommandKind::Scale, Track::Scale) => own,
        (CommandKind::VectorScale, Track::VectorScale) => own,
        (CommandKind::Rotate, Track::Rotate) => own,
        (CommandKind::Color, Track::Color) => own,
        (CommandKind::Param, Track::ParamH) => if item.params.h {
            own
        } else {
            seq![]
        },
        (CommandKind::Param, Track::ParamV) => if item.params.v {
            own
        } else {
            seq![]
        },
        (CommandKind::Param, Track::ParamA) => if item.params.a {
            own
        } else {
            seq![]
        },
        _ => seq![],
    }
}

/// Track `t`'s commands in storyboard order.
pub open spec fn track_entries(items: Seq<TrackSource>, t: Track) -> Seq<TrackCommand>
    decreases items.len(),
{
    if items.len() == 0 {
        seq![]
    } else {
        track_entries(items.drop_last(), t) + contribution(items.last(), t)
    }
}

fn push_to(track: &mut Vec<TrackCommand>, item: &TrackSource, t: Track)
    ensures
        final(track)@ == old(track)@ + contribution(*item, t),
{
    let own = TrackCommand { command: item.command, value_index: 0 };
    let add = match (item.kind, t) {
        (CommandKind::Fade, Track::Fade) => true,
        (CommandKind::Move, Track::MoveX) => item.start_values > 0 && item.end_values > 0,
        (CommandKind::Move, Track::MoveY) => {
            if item.start_values > 1 && item.end_values > 1 {
                track.push(TrackCommand { command: item.command, value_index: 1 });
            }
            false
        },
        (CommandKind::MoveX, Track::MoveX) => true,
        (CommandKind::MoveY, Track::MoveY) => true,
        (CommandKind::Scale, Track::Scale) => true,
        (CommandKind::VectorScale, Track::VectorScale) => true,
        (CommandKind::Rotate, Track::Rotate) => true,
        (CommandKind::Color, Track::Color) => true,
        (CommandKind::Param, Track::ParamH) => item.params.h,
        (CommandKind::Param, Track::ParamV) => item.params.v,
        (CommandKind::Param, Track::ParamA) => item.params.a,
        _ => false,
    };
    if add {
        track.push(own);
    }
    assert(final(track)@ =~= old(track)@ + contribution(*item, t));
}

/// Splits a sprite's commands into its tracks and puts each in playback order.
pub fn build_tracks(items: &[TrackSource]) -> (tracks: StoryboardTracks)
    ensures
        forall|t: Track| #[trigger] tracks.track(t) == stable_sorted(track_entries(items@, t)),
{
    let mut tr = StoryboardTracks {
        fade: Vec::new(),
        move_x: Vec::new(),
        move_y: Vec::new(),
        scale: Vec::new(),
        vscale: Vec::new(),
        rotate: Vec::new(),
        color: Vec::new(),
        param_h: Vec::new(),
        param_v: Vec::new(),
        param_a: Vec::new(),
    };
    assert forall|t: Track| #[trigger] tr.track(t) == track_entries(items@.take(0), t) by {}
    for i in 0..items.len()
        invariant
            forall|t: Track| #[trigger] tr.track(t) == track_entries(items@.take(i as int), t),
    {
        let item = items[i];
        assert(items@.take(i + 1).drop_last() =~= items@.take(i as int));
        assert(items@.take(i + 1).last() == item);
        let ghost before = tr;
        push_to(&mut tr.fade, &item, Track::Fade);
        push_to(&mut tr.move_x, &item, Track::MoveX);
        push_to(&mut tr.move_y, &item, Track::MoveY);
        push_to(&mut tr.scale, &item, Track::Scale);
        push_to(&mut tr.vscale, &item, Track::VectorScale);
        push_to(&mut tr.rotate, &item, Track::Rotate);
        push_to(&mut tr.color, &item, Track::Color);
        push_to(&mut tr.param_h, &item, Track::ParamH);
        push_to(&mut tr.param_v, &item, Track::ParamV);
        push_to(&mut tr.param_a, &item, Track::ParamA);
        assert forall|t: Track| #[trigger] tr.track(t) == track_entries(items@.take(i + 1), t) by {
            assert(track_entries(items@.take(i + 1), t) == track_entries(items@.take(i as int), t)
                + contribution(item, t));
            assert(before.track(t) == track_entries(items@.take(i as int), t));
            match t {
                Track::Fade => {},
                Track::MoveX => {},
                Track::MoveY => {},
                Track::Scale => {},
                Track::VectorScale => {},
                Track::Rotate => {},
                Track::Color => {},
                Track::ParamH => {},
                Track::ParamV => {},
                Track::ParamA => {},
            }
        }
    }
    assert(items@.take(items@.len() as int) =~= items@);
    let ghost unsorted = tr;
    sort_track(&mut tr.fade);
    sort_track(&mut tr.move_x);
    sort_track(&mut tr.move_y);
    sort_track(&mut tr.scale);
    sort_track(&mut tr.vscale);
    sort_track(&mut tr.rotate);
    sort_track(&mut tr.color);
    sort_track(&mut tr.param_h);
    sort_track(&mut tr.param_v);
    sort_track(&mut tr.param_a);
    assert forall|t: Track| #[trigger] tr.track(t) == stable_sorted(track_entries(items@, t)) by {
        assert(unsorted.track(t) == track_entries(items@, t));
        match t {
            Track::Fade => {},
            Track::MoveX => {},
            Track::MoveY => {},
            Track::Scale => {},
            Track::VectorScale => {},
            Track::Rotate => {},
            Track::Color => {},
            Track::ParamH => {},
            Track::ParamV => {},
            Track::ParamA => {},
        }
    }
    tr
}

/// The storyboard layers, back to front.
#[derive(Debug, Clone, Copy, PartialEq, Eq, Structural)]
pub enum StoryboardLayer {
    Background,
    Fail,
    Pass,
    Foreground,
    Overlay,
}

/// The z order a layer's sprites are drawn at.
pub open spec fn layer_z(layer: StoryboardLayer) -> i32 {
    match layer {
        StoryboardLayer::Background => crate::z_order::STORYBOARD_BACKGROUND,
        StoryboardLayer::Fail => crate::z_order::STORYBOARD_FAIL,
        StoryboardLayer::Pass => crate::z_order::STORYBOARD_PASS,
        StoryboardLayer::Foreground => crate::z_order::STORYBOARD_FOREGROUND,
        StoryboardLayer::Overlay => crate::z_order::STORYBOARD_OVERLAY,
    }
}

pub fn storyboard_layer_z(layer: StoryboardLayer) -> (z: i32)
    ensures
        z == layer_z(layer),
{
    match layer {
        StoryboardLayer::Background => crate::z_order::STORYBOARD_BACKGROUND,
        StoryboardLayer::Fail => crate::z_order::STORYBOARD_FAIL,
        StoryboardLayer::Pass => crate::z_order::STORYBOARD_PASS,
        StoryboardLayer::Foreground => crate::z_order::STORYBOARD_FOREGROUND,
        StoryboardLayer::Overlay => crate::z_order::STORYBOARD_OVERLAY,
    }
}

/// The earliest start and the latest end of a sprite's commands.
pub open spec fn time_span(cmds: Seq<FlatCommand>) -> Option<(i32, i32)>
    decreases cmds.len(),
{
    if cmds.len() == 0 {
        None
    } else {
        let c = cmds.last();
        match time_span(cmds.drop_last()) {
            None => Some((c.start_time, c.end_time)),
            Some((s, e)) => Some(
                (
                    if c.start_time < s {
                        c.start_time
                    } else {
                        s
                    },
                    if c.end_time > e {
                        c.end_time
                    } else {
                        e
                    },
                ),
            ),
        }
    }
}

/// The time span a sprite lives in; none without commands, and then the
/// sprite is dropped.
pub fn sprite_time_span(cmds: &[FlatCommand]) -> (r: Option<(i32, i32)>)
    ensures
        r == time_span(cmds@),
{
    if cmds.len() == 0 {
        return None;
    }
    let mut start_time = i32::MAX;
    let mut end_time = i32::MIN;
    for i in 0..cmds.len()
        invariant
            cmds@.len() > 0,
            i == 0 ==> start_time == i32::MAX && end_time == i32::MIN,
            i > 0 ==> time_span(cmds@.take(i as int)) == Some((start_time, end_time)),
    {
        assert(cmds@.take(i + 1).drop_last() =~= cmds@.take(i as int));
        assert(cmds@.take(i + 1).last() == cmds@[i as int]);
        if i == 0 {
            assert(cmds@.take(0) =~= Seq::<FlatCommand>::empty());
        }
        if cmds[i].start_time < start_time {
            start_time = cmds[i].start_time;
        }
        if cmds[i].end_time > end_time {
            end_time = cmds[i].end_time;
        }
    }
    assert(cmds@.take(cmds@.len() as int) =~= cmds@);
    Some((start_time, end_time))
}

/// A sprite is planned inside its time span, except on the fail layer: a
/// replay has no live pass/fail switch, so fail-only sprites stay hidden.
pub open spec fn sprite_live(layer: StoryboardLayer, span: (i32, i32), time: i32) -> bool {
    layer != StoryboardLayer::Fail && span.0 <= time <= span.1
}

pub fn sprite_live_at(layer: StoryboardLayer, span: (i32, i32), time: i32) -> (b: bool)
    ensures
        b == sprite_live(layer, span, time),
{
    match layer {
        StoryboardLayer::Fail => false,
        _ => span.0 <= time && time <= span.1,
    }
}

/// Whether any sprite is on the overlay layer (which covers the score bar).
pub fn has_overlay_layer(layers: &[StoryboardLayer]) -> (b: bool)
    ensures
        b == layers@.contains(StoryboardLayer::Overlay),
{
    for i in 0..layers.len()
        invariant
            forall|j: int| 0 <= j < i ==> layers@[j] != StoryboardLayer::Overlay,
    {
        if layers[i] == StoryboardLayer::Overlay {
            assert(layers@[i as int] == StoryboardLayer::Overlay);
            return true;
        }
    }
    false
}

/// The life bar gives way to an overlay storyboard when storyboards are drawn.
pub fn should_suppress_life_bar_for_storyboard(storyboard_enabled: bool, storyboard_has_overlay: Option<bool>) -> (b: bool)
    ensures
        b == (storyboard_enabled && storyboard_has_overlay == Some(true)),
{
    storyboard_enabled && match storyboard_has_overlay {
        Some(o) => o,
        None => false,
    }
}


/// Storyboard layers stack in their file order, Background, Fail, Pass,
/// Foreground, Overlay, each strictly above the one before: all but the
/// Overlay lie above the beatmap background and below every gameplay layer,
/// and the Overlay draws over the stage (notes, keys, lighting, warning
/// arrows) but under judgment popups, the playfield cover and the HUD.
pub proof fn lemma_storyboard_layers_stack()
    ensures
        crate::z_order::BACKGROUND < layer_z(StoryboardLayer::Background),
        layer_z(StoryboardLayer::Background) < layer_z(StoryboardLayer::Fail),
        layer_z(StoryboardLayer::Fail) < layer_z(StoryboardLayer::Pass),
        layer_z(StoryboardLayer::Pass) < layer_z(StoryboardLayer::Foreground),
        layer_z(StoryboardLayer::Foreground) < layer_z(StoryboardLayer::Overlay),
        layer_z(StoryboardLayer::Foreground) < crate::z_order::COMBO_BURST,
        layer_z(StoryboardLayer::Foreground) < crate::z_order::COLUMN_BG,
        crate::z_order::LN_HEAD < layer_z(StoryboardLayer::Overlay),
        crate::z_order::NORMAL_NOTE < layer_z(StoryboardLayer::Overlay),
        crate::z_order::WARNING_ARROW < layer_z(StoryboardLayer::Overlay),
        crate::z_order::STAGE_BOTTOM < layer_z(StoryboardLayer::Overlay),
        layer_z(StoryboardLayer::Overlay) < crate::z_order::JUDGMENT_POPUP,
        layer_z(StoryboardLayer::Overlay) < crate::z_order::PLAYFIELD_COVER,
        layer_z(StoryboardLayer::Overlay) < crate::z_order::HUD,
{
}

} // verus!
