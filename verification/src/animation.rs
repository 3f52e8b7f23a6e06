//! Lookups among the loaded textures: the frames of an animated texture, the
//! `@2x` variant of a texture, and the icons of the replay's mods.
use vstd::prelude::*;
use crate::hud::{
    animation_frame_names, hidpi_candidate, hidpi_name, hidpi_texture_candidate, hidpi_texture_name,
};
use crate::model::{mod_texture_candidates, replay_mod_texture_candidates, ReplayModDisplay};
use crate::text::{chars_equal, chars_of, decimal, push_decimal, push_str, string_from_chars};

verus! {

/// The views of a list of strings.
pub open spec fn names_view(v: Seq<String>) -> Seq<Seq<char>> {
    v.map_values(|s: String| s@)
}

/// Whether `name` is one of the loaded textures.
pub open spec fn is_loaded(loaded: Seq<String>, name: Seq<char>) -> bool {
    names_view(loaded).contains(name)
}

/// Whether `name` is one of the loaded textures.
pub fn texture_loaded(loaded: &[String], name: &str) -> (b: bool)
    ensures
        b == is_loaded(loaded@, name@),
{
    let n = chars_of(name);
    let mut i: usize = 0;
    while i < loaded.len()
        invariant
            i <= loaded@.len(),
            n@ == name@,
            forall|j: int| 0 <= j < i ==> loaded@[j]@ != name@,
        decreases loaded.len() - i,
    {
        let l = chars_of(loaded[i].as_str());
        if chars_equal(&l, &n) {
            assert(names_view(loaded@)[i as int] == name@);
            return true;
        }
        i = i + 1;
    }
    assert forall|j: int| 0 <= j < names_view(loaded@).len() implies names_view(loaded@)[j] != name@ by {
        assert(names_view(loaded@)[j] == loaded@[j]@);
    }
    false
}

/// The naming scheme of an animation's frames.
#[derive(Debug, Clone, Copy, PartialEq, Eq, Structural)]
pub enum FrameNaming {
    /// Gameplay pieces: `<base>-<n>.png`, `.jpg`, `.jpeg`, or no extension.
    Gameplay,
    /// HUD pieces: `<base>-<n>.png`, then `.jpg`.
    Legacy,
}

/// The names tried for frame `idx`, in order.
pub open spec fn frame_candidates(base: Seq<char>, idx: nat, naming: FrameNaming) -> Seq<Seq<char>> {
    let stem = base + "-"@ + decimal(idx);
    match naming {
        FrameNaming::Gameplay => seq![stem + ".png"@, stem + ".jpg"@, stem + ".jpeg"@, stem],
        FrameNaming::Legacy => seq![animation_frame_names(base, idx).0, animation_frame_names(base, idx).1],
    }
}

/// The first of `names` that is loaded.
pub open spec fn first_loaded(loaded: Seq<String>, names: Seq<Seq<char>>) -> Option<Seq<char>>
    decreases names.len(),
{
    if names.len() == 0 {
        None
    } else if is_loaded(loaded, names[0]) {
        Some(names[0])
    } else {
        first_loaded(loaded, names.drop_first())
    }
}

/// The frames found from `idx` on: one per index, as long as one of its names
/// is loaded.
pub open spec fn frames_from(loaded: Seq<String>, base: Seq<char>, naming: FrameNaming, idx: nat) -> Seq<Seq<char>>
    decreases usize::MAX - idx,
{
    if idx >= usize::MAX {
        seq![]
    } else {
        match first_loaded(loaded, frame_candidates(base, idx, naming)) {
            None => seq![],
            Some(name) => seq![name] + frames_from(loaded, base, naming, idx + 1),
        }
    }
}

/// An animation's frames: numbered from 0, or from 1 where numbering from 0
/// finds at most one; none unless there are at least two.
pub open spec fn animation_frames(loaded: Seq<String>, base: Seq<char>, naming: FrameNaming) -> Option<Seq<Seq<char>>> {
    let from0 = frames_from(loaded, base, naming, 0);
    let frames = if from0.len() <= 1 {
        frames_from(loaded, base, naming, 1)
    } else {
        from0
    };
    if frames.len() > 1 {
        Some(frames)
    } else {
        None
    }
}

fn frame_names(base_name: &str, idx: usize, naming: FrameNaming) -> (names: Vec<String>)
    ensures
        names_view(names@) == frame_candidates(base_name@, idx as nat, naming),
{
    let mut stem: Vec<char> = Vec::new();
    push_str(&mut stem, base_name);
    push_str(&mut stem, "-");
    push_decimal(&mut stem, idx as u64);
    let mut png = stem.clone();
    push_str(&mut png, ".png");
    let mut jpg = stem.clone();
    push_str(&mut jpg, ".jpg");
    match naming {
        FrameNaming::Gameplay => {
            let mut jpeg = stem.clone();
            push_str(&mut jpeg, ".jpeg");
            let names = vec![
                string_from_chars(&png),
                string_from_chars(&jpg),
                string_from_chars(&jpeg),
                string_from_chars(&stem),
            ];
            assert(names_view(names@) =~= frame_candidates(base_name@, idx as nat, naming));
            names
        },
        FrameNaming::Legacy => {
            let names = vec![string_from_chars(&png), string_from_chars(&jpg)];
            assert(names_view(names@) =~= frame_candidates(base_name@, idx as nat, naming));
            names
        },
    }
}

/// The first of `names` that is loaded.
pub fn find_first_texture_owned(loaded: &[String], names: &Vec<String>) -> (r: Option<String>)
    ensures
        match r {
            Some(n) => first_loaded(loaded@, names_view(names@)) == Some(n@),
            None => first_loaded(loaded@, names_view(names@)) is None,
        },
{
    let mut i: usize = 0;
    assert(names_view(names@).skip(0) =~= names_view(names@));
    while i < names.len()
        invariant
            i <= names@.len(),
            first_loaded(loaded@, names_view(names@)) == first_loaded(
                loaded@,
                names_view(names@).skip(i as int),
            ),
        decreases names.len() - i,
    {
        assert(names_view(names@).skip(i as int)[0] == names@[i as int]@);
        assert(names_view(names@).skip(i as int).drop_first() =~= names_view(names@).skip(i + 1));
        if texture_loaded(loaded, names[i].as_str()) {
            return Some(names[i].clone());
        }
        i = i + 1;
    }
    None
}

/// The frames found from `start` on (see `frames_from`).
pub fn collect_animation_frames(
    loaded: &[String],
    base_name: &str,
    naming: FrameNaming,
    start: usize,
) -> (frames: Vec<String>)
    ensures
        names_view(frames@) == frames_from(loaded@, base_name@, naming, start as nat),
{
    let mut frames: Vec<String> = Vec::new();
    let mut idx: usize = start;
    while idx < usize::MAX
        invariant
            start <= idx,
            frames_from(loaded@, base_name@, naming, start as nat) == names_view(frames@)
                + frames_from(loaded@, base_name@, naming, idx as nat),
        decreases usize::MAX - idx,
    {
        let names = frame_names(base_name, idx, naming);
        match find_first_texture_owned(loaded, &names) {
            Some(found) => {
                let ghost before = names_view(frames@);
                frames.push(found);
                assert(names_view(frames@) =~= before + seq![found@]);
                assert(before + frames_from(loaded@, base_name@, naming, idx as nat) =~= names_view(
                    frames@,
                ) + frames_from(loaded@, base_name@, naming, (idx + 1) as nat));
                idx = idx + 1;
            },
            None => {
                assert(frames_from(loaded@, base_name@, naming, usize::MAX as nat) =~= Seq::<
                    Seq<char>,
                >::empty());
                assert(names_view(frames@) + frames_from(loaded@, base_name@, naming, idx as nat)
                    =~= names_view(frames@));
                idx = usize::MAX;
            },
        }
    }
    assert(names_view(frames@) + frames_from(loaded@, base_name@, naming, idx as nat) =~= names_view(
        frames@,
    ));
    frames
}

/// An animation's frames (see `animation_frames`).
pub fn detect_animation_frames(loaded: &[String], base_name: &str, naming: FrameNaming) -> (r: Option<Vec<String>>)
    ensures
        match r {
            Some(f) => animation_frames(loaded@, base_name@, naming) == Some(names_view(f@)),
            None => animation_frames(loaded@, base_name@, naming) is None,
        },
{
    let mut frames = collect_animation_frames(loaded, base_name, naming, 0);
    if frames.len() <= 1 {
        frames = collect_animation_frames(loaded, base_name, naming, 1);
    }
    if frames.len() > 1 {
        Some(frames)
    } else {
        None
    }
}

/// A gameplay texture drawn at `@2x` when that variant is loaded: the id
/// lower-cased, with `@2x` before its extension if loaded.
pub open spec fn preferred_gameplay_texture(loaded: Seq<String>, texture_id: Seq<char>) -> Seq<char> {
    let (normalized, hidpi) = hidpi_candidate(texture_id);
    if is_loaded(loaded, hidpi) {
        hidpi
    } else {
        normalized
    }
}

pub fn prefer_hidpi_texture_id(loaded: &[String], texture_id: &str) -> (id: String)
    ensures
        id@ == preferred_gameplay_texture(loaded@, texture_id@),
{
    let (normalized, hidpi) = hidpi_texture_candidate(texture_id);
    if texture_loaded(loaded, hidpi.as_str()) {
        hidpi
    } else {
        normalized
    }
}

/// A HUD texture drawn at `@2x` when that variant is loaded.
pub open spec fn preferred_hud_texture(loaded: Seq<String>, texture_id: Seq<char>) -> Seq<char> {
    match hidpi_name(texture_id) {
        Some(h) => if is_loaded(loaded, h) {
            h
        } else {
            texture_id
        },
        None => texture_id,
    }
}

pub fn prefer_hidpi_texture(loaded: &[String], texture_id: &str) -> (id: String)
    ensures
        id@ == preferred_hud_texture(loaded@, texture_id@),
{
    if let Some(h) = hidpi_texture_name(texture_id) {
        if texture_loaded(loaded, h.as_str()) {
            return h;
        }
    }
    String::from_str(texture_id)
}

proof fn lemma_first_loaded_is_loaded(loaded: Seq<String>, names: Seq<Seq<char>>)
    ensures
        first_loaded(loaded, names) matches Some(n) ==> is_loaded(loaded, n) && names.contains(n),
    decreases names.len(),
{
    if names.len() > 0 && !is_loaded(loaded, names[0]) {
        lemma_first_loaded_is_loaded(loaded, names.drop_first());
        if let Some(n) = first_loaded(loaded, names.drop_first()) {
            let k = choose|k: int| 0 <= k < names.drop_first().len() && names.drop_first()[k] == n;
            assert(names[k + 1] == n);
        }
    } else if names.len() > 0 {
        assert(names[0] == names[0]);
    }
}

proof fn lemma_frames_from_loaded(loaded: Seq<String>, base: Seq<char>, naming: FrameNaming, idx: nat)
    ensures
        forall|k: int|
            0 <= k < frames_from(loaded, base, naming, idx).len() ==> is_loaded(
                loaded,
                #[trigger] frames_from(loaded, base, naming, idx)[k],
            ),
    decreases usize::MAX - idx,
{
    if idx < usize::MAX {
        lemma_first_loaded_is_loaded(loaded, frame_candidates(base, idx, naming));
        lemma_frames_from_loaded(loaded, base, naming, idx + 1);
        if let Some(name) = first_loaded(loaded, frame_candidates(base, idx, naming)) {
            let rest = frames_from(loaded, base, naming, idx + 1);
            assert forall|k: int| 0 <= k < frames_from(loaded, base, naming, idx).len() implies is_loaded(
                loaded,
                #[trigger] frames_from(loaded, base, naming, idx)[k],
            ) by {
                if k > 0 {
                    assert(frames_from(loaded, base, naming, idx)[k] == rest[k - 1]);
                }
            }
        }
    }
}

/// A detected animation has at least two frames, and every frame is a loaded
/// texture.
pub proof fn lemma_animation_frames_are_loaded(loaded: Seq<String>, base: Seq<char>, naming: FrameNaming)
    ensures
        animation_frames(loaded, base, naming) matches Some(f) ==> f.len() >= 2 && forall|k: int|
            0 <= k < f.len() ==> is_loaded(loaded, #[trigger] f[k]),
{
    lemma_frames_from_loaded(loaded, base, naming, 0);
    lemma_frames_from_loaded(loaded, base, naming, 1);
}

/// The loaded icon of a mod, when its display has one for it.
pub open spec fn mod_icon(loaded: Seq<String>, display: Option<ReplayModDisplay>, acronym: Seq<char>) -> Option<Seq<char>> {
    match mod_texture_candidates(display, acronym) {
        Some(names) => first_loaded(loaded, names),
        None => None,
    }
}

pub fn resolve_replay_mod_texture_id(loaded: &[String], display: Option<&ReplayModDisplay>, acronym: &str) -> (r: Option<String>)
    ensures
        match r {
            Some(id) => mod_icon(
                loaded@,
                match display {
                    Some(d) => Some(*d),
                    None => None,
                },
                acronym@,
            ) == Some(id@),
            None => mod_icon(
                loaded@,
                match display {
                    Some(d) => Some(*d),
                    None => None,
                },
                acronym@,
            ) is None,
        },
{
    match replay_mod_texture_candidates(display, acronym) {
        Some(names) => {
            assert(crate::model::strings_of(names@) =~= names_view(names@));
            find_first_texture_owned(loaded, &names)
        },
        None => None,
    }
}

/// The mods of the display, in order, that have a loaded icon.
pub open spec fn mods_with_icons(loaded: Seq<String>, display: ReplayModDisplay, acronyms: Seq<String>) -> Seq<Seq<char>>
    decreases acronyms.len(),
{
    if acronyms.len() == 0 {
        seq![]
    } else {
        let rest = mods_with_icons(loaded, display, acronyms.drop_last());
        if mod_icon(loaded, Some(display), acronyms.last()@) is Some {
            rest.push(acronyms.last()@)
        } else {
            rest
        }
    }
}

pub fn resolved_replay_mod_display_acronyms(loaded: &[String], display: Option<&ReplayModDisplay>) -> (r: Vec<String>)
    ensures
        match display {
            Some(d) => names_view(r@) == mods_with_icons(loaded@, *d, d.acronyms@),
            None => r@.len() == 0,
        },
{
    let d = match display {
        Some(d) => d,
        None => return Vec::new(),
    };
    let mut out: Vec<String> = Vec::new();
    for i in 0..d.acronyms.len()
        invariant
            names_view(out@) == mods_with_icons(loaded@, *d, d.acronyms@.take(i as int)),
    {
        let a = &d.acronyms[i];
        assert(d.acronyms@.take(i + 1).drop_last() =~= d.acronyms@.take(i as int));
        assert(d.acronyms@.take(i + 1).last() == *a);
        if resolve_replay_mod_texture_id(loaded, Some(d), a.as_str()).is_some() {
            let ghost before = names_view(out@);
            out.push(a.clone());
            assert(names_view(out@) =~= before.push(a@));
        }
    }
    assert(d.acronyms@.take(d.acronyms@.len() as int) =~= d.acronyms@);
    out
}

/// The texture a legacy HUD glyph is drawn with: its `@2x` variant when that
/// is loaded and measured, else the base texture when that is measured; none
/// otherwise. `measured` lists the textures whose size is known.
pub open spec fn hud_glyph_texture(loaded: Seq<String>, measured: Seq<String>, base: Seq<char>) -> Option<Seq<char>> {
    let preferred = preferred_hud_texture(loaded, base);
    if is_loaded(measured, preferred) {
        Some(preferred)
    } else if is_loaded(measured, base) {
        Some(base)
    } else {
        None
    }
}

pub fn resolve_legacy_hud_glyph_texture(loaded: &[String], measured: &[String], base_name: &str) -> (r: Option<String>)
    ensures
        match r {
            Some(id) => hud_glyph_texture(loaded@, measured@, base_name@) == Some(id@),
            None => hud_glyph_texture(loaded@, measured@, base_name@) is None,
        },
{
    let preferred = prefer_hidpi_texture(loaded, base_name);
    if texture_loaded(measured, preferred.as_str()) {
        Some(preferred)
    } else if texture_loaded(measured, base_name) {
        Some(String::from_str(base_name))
    } else {
        None
    }
}

/// How close to empty the life bar is, as the old-style score bar marker
/// shows it.
#[derive(Debug, Clone, Copy, PartialEq, Eq, Structural)]
pub enum LifeDanger {
    Safe,
    Danger,
    Critical,
}

pub open spec fn ki_names(stem: Seq<char>) -> Seq<Seq<char>> {
    seq![stem + ".png"@, stem + ".jpg"@, stem]
}

/// The marker textures tried, most urgent first: a critical life tries
/// `scorebar-kidanger2`, then `scorebar-kidanger`, then `scorebar-ki`; a life
/// in danger starts at `scorebar-kidanger`; a safe one only tries `scorebar-ki`
/// (each as `.png`, `.jpg`, then without extension).
pub open spec fn marker_candidates(danger: LifeDanger) -> Seq<Seq<char>> {
    match danger {
        LifeDanger::Critical => ki_names("scorebar-kidanger2"@) + ki_names("scorebar-kidanger"@) + ki_names(
            "scorebar-ki"@,
        ),
        LifeDanger::Danger => ki_names("scorebar-kidanger"@) + ki_names("scorebar-ki"@),
        LifeDanger::Safe => ki_names("scorebar-ki"@),
    }
}

fn push_ki_names(names: &mut Vec<String>, stem: &str)
    ensures
        names_view(final(names)@) == names_view(old(names)@) + ki_names(stem@),
{
    let ghost before = names_view(names@);
    let mut png: Vec<char> = Vec::new();
    push_str(&mut png, stem);
    push_str(&mut png, ".png");
    let mut jpg: Vec<char> = Vec::new();
    push_str(&mut jpg, stem);
    push_str(&mut jpg, ".jpg");
    names.push(string_from_chars(&png));
    names.push(string_from_chars(&jpg));
    names.push(String::from_str(stem));
    assert(names_view(names@) =~= before + ki_names(stem@));
}

/// The old-style score bar marker: the first loaded of its candidates.
pub fn old_style_scorebar_marker(loaded: &[String], danger: LifeDanger) -> (r: Option<String>)
    ensures
        match r {
            Some(id) => first_loaded(loaded@, marker_candidates(danger)) == Some(id@),
            None => first_loaded(loaded@, marker_candidates(danger)) is None,
        },
{
    let mut names: Vec<String> = Vec::new();
    assert(names_view(names@) =~= Seq::<Seq<char>>::empty());
    match danger {
        LifeDanger::Critical => {
            push_ki_names(&mut names, "scorebar-kidanger2");
            push_ki_names(&mut names, "scorebar-kidanger");
            push_ki_names(&mut names, "scorebar-ki");
        },
        LifeDanger::Danger => {
            push_ki_names(&mut names, "scorebar-kidanger");
            push_ki_names(&mut names, "scorebar-ki");
        },
        LifeDanger::Safe => {
            push_ki_names(&mut names, "scorebar-ki");
        },
    }
    assert(names_view(names@) =~= marker_candidates(danger));
    find_first_texture_owned(loaded, &names)
}

/// A legacy HUD texture: what is drawn, and what its layout is measured by.
#[derive(Debug, Clone, PartialEq, Eq)]
pub struct LegacyTextureSelection {
    pub texture_id: String,
    pub anchor_texture_id: String,
}

/// The texture of a legacy HUD piece. Without animation (or with animations
/// off), the first loaded static candidate, else the animation's first frame,
/// drawn at `@2x` when loaded and measured as itself. With animation, frame
/// `frame_idx` drawn at `@2x` when loaded, measured by the first frame so the
/// layout does not move between frames.
pub open spec fn legacy_selection(
    loaded: Seq<String>,
    statics: Seq<Seq<char>>,
    frames: Option<Seq<Seq<char>>>,
    animations_enabled: bool,
    frame_idx: nat,
) -> Option<(Seq<char>, Seq<char>)> {
    let fallback_id = match first_loaded(loaded, statics) {
        Some(t) => Some(t),
        None => match frames {
            Some(f) => if f.len() > 0 {
                Some(f[0])
            } else {
                None
            },
            None => None,
        },
    };
    let fallback = match fallback_id {
        Some(t) => Some((preferred_hud_texture(loaded, t), t)),
        None => None,
    };
    match frames {
        Some(f) => if !animations_enabled {
            fallback
        } else if f.len() == 0 || frame_idx >= f.len() {
            None
        } else {
            Some((preferred_hud_texture(loaded, f[frame_idx as int]), f[0]))
        },
        None => fallback,
    }
}

pub open spec fn selection_view(s: LegacyTextureSelection) -> (Seq<char>, Seq<char>) {
    (s.texture_id@, s.anchor_texture_id@)
}

pub fn resolve_legacy_texture(
    loaded: &[String],
    static_candidates: &Vec<String>,
    frames: Option<&Vec<String>>,
    animations_enabled: bool,
    frame_idx: usize,
) -> (r: Option<LegacyTextureSelection>)
    ensures
        match r {
            Some(s) => legacy_selection(
                loaded@,
                names_view(static_candidates@),
                match frames {
                    Some(f) => Some(names_view(f@)),
                    None => None,
                },
                animations_enabled,
                frame_idx as nat,
            ) == Some(selection_view(s)),
            None => legacy_selection(
                loaded@,
                names_view(static_candidates@),
                match frames {
                    Some(f) => Some(names_view(f@)),
                    None => None,
                },
                animations_enabled,
                frame_idx as nat,
            ) is None,
        },
{
    let fallback_id = match find_first_texture_owned(loaded, static_candidates) {
        Some(t) => Some(t),
        None => match frames {
            Some(f) => if f.len() > 0 {
                Some(f[0].clone())
            } else {
                None
            },
            None => None,
        },
    };
    let fallback = match fallback_id {
        Some(t) => Some(
            LegacyTextureSelection { texture_id: prefer_hidpi_texture(loaded, t.as_str()), anchor_texture_id: t },
        ),
        None => None,
    };
    match frames {
        Some(f) => if !animations_enabled {
            fallback
        } else if f.len() == 0 || frame_idx >= f.len() {
            None
        } else {
            Some(
                LegacyTextureSelection {
                    texture_id: prefer_hidpi_texture(loaded, f[frame_idx].as_str()),
                    anchor_texture_id: f[0].clone(),
                },
            )
        },
        None => fallback,
    }
}

} // verus!
