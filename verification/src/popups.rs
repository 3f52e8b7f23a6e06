//! Judgment popups: which texture a judgment shows, and how many animation
//! frames a skin has for it.
use vstd::prelude::*;
use crate::animation::{is_loaded, texture_loaded};
use crate::hud::{strip_suffix_chars, strip_suffixes};
use crate::judgment::JudgmentKind;
use crate::text::{chars_of, decimal, push_decimal, push_str, string_from_chars, to_lowercase, unicode_lowercase};

verus! {

/// The texture a judgment pops up by default.
pub open spec fn default_popup(kind: JudgmentKind) -> Seq<char> {
    match kind {
        JudgmentKind::Miss => "mania-hit0.png"@,
        JudgmentKind::Hit50 => "mania-hit50.png"@,
        JudgmentKind::Hit100 => "mania-hit100.png"@,
        JudgmentKind::Hit200 => "mania-hit200.png"@,
        JudgmentKind::Hit300 => "mania-hit300.png"@,
        JudgmentKind::Max => "mania-hit300g.png"@,
    }
}

pub fn default_popup_name(kind: JudgmentKind) -> (name: &'static str)
    ensures
        name@ == default_popup(kind),
{
    let name = match kind {
        JudgmentKind::Miss => "mania-hit0.png",
        JudgmentKind::Hit50 => "mania-hit50.png",
        JudgmentKind::Hit100 => "mania-hit100.png",
        JudgmentKind::Hit200 => "mania-hit200.png",
        JudgmentKind::Hit300 => "mania-hit300.png",
        JudgmentKind::Max => "mania-hit300g.png",
    };
    proof {
        reveal_strlit("mania-hit0.png");
        reveal_strlit("mania-hit50.png");
        reveal_strlit("mania-hit100.png");
        reveal_strlit("mania-hit200.png");
        reveal_strlit("mania-hit300.png");
        reveal_strlit("mania-hit300g.png");
    }
    name
}

/// The base name of a judgment's popup: the skin's configured image (an
/// empty one hides the popup) or the default, without `.png` and `.jpg`
/// endings, lower-cased.
pub open spec fn popup_base(configured: Option<Seq<char>>, default_name: Seq<char>) -> Option<Seq<char>> {
    let name = match configured {
        Some(n) => n,
        None => default_name,
    };
    if configured == Some(Seq::<char>::empty()) {
        None
    } else {
        Some(unicode_lowercase(strip_suffixes(strip_suffixes(name, ".png"@), ".jpg"@)))
    }
}

pub fn judgment_popup_base(configured: Option<&str>, default_name: &str) -> (r: Option<String>)
    ensures
        match r {
            Some(b) => popup_base(
                match configured {
                    Some(c) => Some(c@),
                    None => None,
                },
                default_name@,
            ) == Some(b@),
            None => popup_base(
                match configured {
                    Some(c) => Some(c@),
                    None => None,
                },
                default_name@,
            ) is None,
        },
{
    let name = match configured {
        Some(c) => {
            if chars_of(c).len() == 0 {
                assert(c@ =~= Seq::<char>::empty());
                return None;
            }
            c
        },
        None => default_name,
    };
    let a = strip_suffix_chars(&chars_of(name), ".png");
    let b = strip_suffix_chars(&a, ".jpg");
    let trimmed = string_from_chars(&b);
    Some(to_lowercase(trimmed.as_str()))
}

/// Frame `n` of a popup animation: `<base>-<n>.png`.
pub open spec fn popup_frame(base: Seq<char>, n: nat) -> Seq<char> {
    base + "-"@ + decimal(n) + ".png"@
}

/// A frame counts when it, or its prescaled `@judgment` variant, is loaded.
pub open spec fn popup_frame_found(loaded: Seq<String>, base: Seq<char>, n: nat) -> bool {
    is_loaded(loaded, popup_frame(base, n) + "@judgment"@) || is_loaded(loaded, popup_frame(base, n))
}

/// The frames found from `n` on, up to a cap of 101 so that a malformed skin
/// cannot keep the search going.
pub open spec fn popup_frames_from(loaded: Seq<String>, base: Seq<char>, n: nat) -> nat
    decreases 101 - n,
{
    if n > 100 {
        101
    } else if !popup_frame_found(loaded, base, n) {
        n
    } else {
        popup_frames_from(loaded, base, n + 1)
    }
}

fn frame_name(base: &str, n: u32) -> (name: Vec<char>)
    ensures
        name@ == popup_frame(base@, n as nat),
{
    let mut name: Vec<char> = Vec::new();
    push_str(&mut name, base);
    push_str(&mut name, "-");
    push_decimal(&mut name, n as u64);
    push_str(&mut name, ".png");
    name
}

/// How many animation frames a popup has: the leading run of frames found.
pub fn judgment_popup_frame_count(loaded: &[String], base: &str) -> (n: u32)
    ensures
        n as nat == popup_frames_from(loaded@, base@, 0),
{
    let mut total: u32 = 0;
    while total <= 100
        invariant
            total <= 101,
            popup_frames_from(loaded@, base@, 0) == popup_frames_from(loaded@, base@, total as nat),
        decreases 101 - total,
    {
        let name = frame_name(base, total);
        let mut scaled = name.clone();
        push_str(&mut scaled, "@judgment");
        let found = texture_loaded(loaded, string_from_chars(&scaled).as_str())
            || texture_loaded(loaded, string_from_chars(&name).as_str());
        if !found {
            return total;
        }
        total = total + 1;
    }
    total
}

/// The texture drawn for a popup frame: its prescaled `@judgment` variant
/// when loaded, else the frame itself when loaded; nothing otherwise.
pub open spec fn popup_texture(loaded: Seq<String>, name: Seq<char>) -> Option<Seq<char>> {
    if is_loaded(loaded, name + "@judgment"@) {
        Some(name + "@judgment"@)
    } else if is_loaded(loaded, name) {
        Some(name)
    } else {
        None
    }
}

pub fn judgment_popup_texture(loaded: &[String], name: &str) -> (r: Option<String>)
    ensures
        match r {
            Some(t) => popup_texture(loaded@, name@) == Some(t@),
            None => popup_texture(loaded@, name@) is None,
        },
{
    let mut scaled = chars_of(name);
    push_str(&mut scaled, "@judgment");
    let scaled_name = string_from_chars(&scaled);
    if texture_loaded(loaded, scaled_name.as_str()) {
        Some(scaled_name)
    } else if texture_loaded(loaded, name) {
        Some(String::from_str(name))
    } else {
        None
    }
}


/// A judgment's default popup is named by the accuracy it is worth:
/// `mania-hit<weight>.png` (a miss, worth nothing, is `mania-hit0.png`), and the
/// MAX judgment, worth as much as a 300, is told apart by a `g` after it.
pub proof fn lemma_default_popup_names_the_judgment(kind: JudgmentKind)
    ensures
        default_popup(kind) == "mania-hit"@ + decimal(
            crate::model::standard_score_tables().acc_weights[crate::judgment::judgment_index(kind) as int] as nat,
        ) + (if kind is Max {
            "g.png"@
        } else {
            ".png"@
        }),
{
    reveal_strlit("mania-hit");
    reveal_strlit(".png");
    reveal_strlit("g.png");
    reveal_strlit("mania-hit0.png");
    reveal_strlit("mania-hit50.png");
    reveal_strlit("mania-hit100.png");
    reveal_strlit("mania-hit200.png");
    reveal_strlit("mania-hit300.png");
    reveal_strlit("mania-hit300g.png");
    reveal_with_fuel(decimal, 4);
    let w = crate::model::standard_score_tables().acc_weights[crate::judgment::judgment_index(kind) as int] as nat;
    let tail: Seq<char> = if kind is Max {
        "g.png"@
    } else {
        ".png"@
    };
    assert(default_popup(kind) =~= "mania-hit"@ + decimal(w) + tail);
}

/// Different judgments pop up different textures.
pub proof fn lemma_default_popups_distinct(a: JudgmentKind, b: JudgmentKind)
    requires
        a != b,
    ensures
        default_popup(a) != default_popup(b),
{
    reveal_strlit("mania-hit0.png");
    reveal_strlit("mania-hit50.png");
    reveal_strlit("mania-hit100.png");
    reveal_strlit("mania-hit200.png");
    reveal_strlit("mania-hit300.png");
    reveal_strlit("mania-hit300g.png");
    if default_popup(a) == default_popup(b) {
        assert(default_popup(a).len() == default_popup(b).len());
        assert(default_popup(a)[9] == default_popup(b)[9]);
        assert(default_popup(a)[10] == default_popup(b)[10]);
        assert(default_popup(a)[12] == default_popup(b)[12]);
    }
}


/// Different frames of a popup animation have different texture names.
pub proof fn lemma_popup_frames_distinct(base: Seq<char>, n: nat, m: nat)
    requires
        n != m,
    ensures
        popup_frame(base, n) != popup_frame(base, m),
{
    crate::text::lemma_numbered_names_distinct(base + "-"@, ".png"@, n, m);
    assert(popup_frame(base, n) =~= (base + "-"@) + decimal(n) + ".png"@);
    assert(popup_frame(base, m) =~= (base + "-"@) + decimal(m) + ".png"@);
}

} // verus!
