//! HUD font lookup: family keys, configured weight paths, `@fontsource` package
//! and file names, and loading fonts from file bytes.
use vstd::prelude::*;
use ab_glyph::{FontArc, InvalidFont};
use crate::text::{
    CharClass, chars_of, trim_chars, trim_of, trim_white_space, trimmed, to_ascii_lower,
    ascii_lower_seq, ends_with_chars, has_suffix, copy_range, chars_equal, split_chars, split_on,
    views_of, push_chars, push_str, push_decimal, decimal, parse_unsigned, parse_unsigned_chars,
    string_from_chars,
};

verus! {

/// The two built-in font weights.
#[derive(Debug, Clone, Copy, PartialEq, Eq, Structural)]
pub enum FontWeight {
    Normal,
    Bold,
}

/// Weights of 600 and above fall back to bold.
pub fn fallback_font_weight(weight: u16) -> (w: FontWeight)
    ensures
        w == (if weight >= 600 {
            FontWeight::Bold
        } else {
            FontWeight::Normal
        }),
{
    if weight >= 600 {
        FontWeight::Bold
    } else {
        FontWeight::Normal
    }
}

pub fn font_weight_number(weight: FontWeight) -> (n: u16)
    ensures
        n == (match weight {
            FontWeight::Bold => 700u16,
            FontWeight::Normal => 400u16,
        }),
{
    match weight {
        FontWeight::Bold => 700,
        FontWeight::Normal => 400,
    }
}

/// A font reference from the HUD configuration.
#[derive(Debug, Clone)]
pub struct HudFontRefConfig {
    pub id: String,
    pub family: String,
    pub css_family: Option<String>,
    /// Font files by weight, keyed by the weight written in decimal.
    pub weight_paths: Vec<(String, String)>,
    pub path: Option<String>,
    pub bold_path: Option<String>,
    pub normal_path: Option<String>,
    pub package_name: Option<String>,
}

/// How a family name is compared: trimmed, unquoted, ASCII lower case, and
/// without a trailing ` variable`.
pub open spec fn font_lookup_key(s: Seq<char>) -> Seq<char> {
    let unquoted = trim_of(trim_of(trimmed(s), CharClass::Exactly('"')), CharClass::Exactly('\''));
    let lower = ascii_lower_seq(unquoted);
    if has_suffix(lower, " variable"@) {
        trimmed(lower.take(lower.len() - 9))
    } else {
        lower
    }
}

fn lookup_key_chars(value: &Vec<char>) -> (out: Vec<char>)
    ensures
        out@ == font_lookup_key(value@),
{
    let t = trim_white_space(value);
    let q = trim_chars(&t, CharClass::Exactly('"'));
    let a = trim_chars(&q, CharClass::Exactly('\''));
    let lower = to_ascii_lower(&a);
    let suffix = chars_of(" variable");
    proof {
        reveal_strlit(" variable");
    }
    assert(suffix@.len() == 9);
    if ends_with_chars(&lower, &suffix) {
        let head = copy_range(&lower, 0, lower.len() - 9);
        assert(head@ =~= lower@.take(lower@.len() - 9));
        trim_white_space(&head)
    } else {
        lower
    }
}

pub fn normalize_font_lookup_key(value: &str) -> (key: String)
    ensures
        key@ == font_lookup_key(value@),
{
    string_from_chars(&lookup_key_chars(&chars_of(value)))
}

pub fn normalized_family_key(family: Option<&str>) -> (key: String)
    ensures
        key@ == (match family {
            Some(f) => font_lookup_key(f@),
            None => Seq::<char>::empty(),
        }),
{
    match family {
        Some(f) => normalize_font_lookup_key(f),
        None => String::new(),
    }
}

/// The names a font reference answers to: its id, family and CSS family.
pub open spec fn font_candidates(font: HudFontRefConfig) -> Seq<Seq<char>> {
    seq![
        font.id@,
        font.family@,
        match font.css_family {
            Some(c) => c@,
            None => Seq::<char>::empty(),
        },
    ]
}

/// Whether a font reference answers to a CSS `font-family` list: some non-empty
/// name of the font has the lookup key of some non-blank entry of the list.
pub open spec fn font_matches(font: HudFontRefConfig, family: Seq<char>) -> bool {
    let requested = split_on(family, ',');
    exists|c: int, k: int|
        0 <= c < 3 && 0 <= k < requested.len() && font_candidates(font)[c].len() > 0
            && font_lookup_key(requested[k]).len() > 0 && font_lookup_key(
            #[trigger] font_candidates(font)[c],
        ) == font_lookup_key(#[trigger] requested[k])
}

pub fn font_ref_matches(font: &HudFontRefConfig, family: &str) -> (m: bool)
    ensures
        m == font_matches(*font, family@),
{
    let pieces = split_chars(&chars_of(family), ',');
    let ghost requested = split_on(family@, ',');
    let mut keys: Vec<Vec<char>> = Vec::new();
    for k in 0..pieces.len()
        invariant
            views_of(pieces@) == requested,
            keys@.len() == k,
            forall|i: int| 0 <= i < k ==> #[trigger] keys@[i]@ == font_lookup_key(requested[i]),
    {
        let key = lookup_key_chars(&pieces[k]);
        assert(pieces@[k as int]@ == requested[k as int]);
        keys.push(key);
    }
    let empty: Vec<char> = Vec::new();
    let css: Vec<char> = match &font.css_family {
        Some(c) => chars_of(c.as_str()),
        None => empty,
    };
    let cands: [Vec<char>; 3] = [chars_of(font.id.as_str()), chars_of(font.family.as_str()), css];
    assert(cands[0]@ == font_candidates(*font)[0]);
    assert(cands[1]@ == font_candidates(*font)[1]);
    assert(cands[2]@ == font_candidates(*font)[2]);
    let mut c: usize = 0;
    while c < 3
        invariant
            c <= 3,
            requested == split_on(family@, ','),
            keys@.len() == requested.len(),
            forall|i: int| 0 <= i < requested.len() ==> #[trigger] keys@[i]@ == font_lookup_key(requested[i]),
            forall|i: int| 0 <= i < 3 ==> #[trigger] cands@[i]@ == font_candidates(*font)[i],
            forall|ci: int, k: int|
                0 <= ci < c && 0 <= k < requested.len() && font_candidates(*font)[ci].len() > 0
                    && font_lookup_key(requested[k]).len() > 0 ==> font_lookup_key(
                    #[trigger] font_candidates(*font)[ci],
                ) != font_lookup_key(#[trigger] requested[k]),
        decreases 3 - c,
    {
        let cand = &cands[c];
        if cand.len() > 0 {
            let ck = lookup_key_chars(cand);
            let mut k: usize = 0;
            while k < keys.len()
                invariant
                    c < 3,
                    requested == split_on(family@, ','),
                    k <= keys@.len() == requested.len(),
                    forall|i: int| 0 <= i < requested.len() ==> #[trigger] keys@[i]@ == font_lookup_key(requested[i]),
                    ck@ == font_lookup_key(font_candidates(*font)[c as int]),
                    font_candidates(*font)[c as int].len() > 0,
                    forall|j: int|
                        0 <= j < k && font_lookup_key(requested[j]).len() > 0 ==> ck@ != #[trigger] font_lookup_key(
                            requested[j],
                        ),
                decreases keys.len() - k,
            {
                if keys[k].len() > 0 && chars_equal(&ck, &keys[k]) {
                    assert(font_lookup_key(font_candidates(*font)[c as int]) == font_lookup_key(requested[k as int]));
                    assert(font_lookup_key(requested[k as int]).len() > 0);
                    assert(0 <= c < 3 && 0 <= k < requested.len() && font_candidates(*font)[c as int].len() > 0
                        && font_lookup_key(requested[k as int]).len() > 0 && font_lookup_key(
                        font_candidates(*font)[c as int],
                    ) == font_lookup_key(requested[k as int]));
                    return true;
                }
                k = k + 1;
            }
        }
        c = c + 1;
    }
    false
}

/// Index of the first configured path whose weight key is exactly `key`.
pub open spec fn exact_weight_entry(paths: Seq<(String, String)>, key: Seq<char>) -> Option<int>
    decreases paths.len(),
{
    if paths.len() == 0 {
        None
    } else {
        match exact_weight_entry(paths.drop_last(), key) {
            Some(i) => Some(i),
            None => if paths.last().0@ == key {
                Some(paths.len() - 1)
            } else {
                None
            },
        }
    }
}

pub open spec fn abs_diff(a: nat, b: nat) -> nat {
    if a >= b {
        (a - b) as nat
    } else {
        (b - a) as nat
    }
}

/// How far a configured weight is from the wanted one: distance first, then
/// distance from 400.
pub open spec fn weight_score(parsed: nat, weight: nat) -> nat {
    abs_diff(parsed, weight) * 0x10000 + abs_diff(parsed, 400)
}

/// Index of the first configured path whose weight key parses and scores lowest.
pub open spec fn nearest_weight_entry(paths: Seq<(String, String)>, weight: nat) -> Option<int>
    decreases paths.len(),
{
    if paths.len() == 0 {
        None
    } else {
        let best = nearest_weight_entry(paths.drop_last(), weight);
        match parse_unsigned(paths.last().0@, 0xffff) {
            None => best,
            Some(p) => match best {
                None => Some(paths.len() - 1),
                Some(i) => {
                    let bp = parse_unsigned(paths[i].0@, 0xffff).unwrap();
                    if weight_score(p, weight) < weight_score(bp, weight) {
                        Some(paths.len() - 1)
                    } else {
                        Some(i)
                    }
                },
            },
        }
    }
}

/// The configured file for a weight: the one keyed by that exact weight, else
/// the nearest parseable weight (ties go to the one nearer 400, then the first).
pub open spec fn weight_path(font: HudFontRefConfig, weight: u16) -> Option<Seq<char>> {
    let paths = font.weight_paths@;
    match exact_weight_entry(paths, decimal(weight as nat)) {
        Some(i) => Some(paths[i].1@),
        None => match nearest_weight_entry(paths, weight as nat) {
            Some(i) => Some(paths[i].1@),
            None => None,
        },
    }
}

proof fn lemma_exact_in_range(paths: Seq<(String, String)>, key: Seq<char>)
    ensures
        exact_weight_entry(paths, key) matches Some(i) ==> 0 <= i < paths.len(),
    decreases paths.len(),
{
    if paths.len() > 0 {
        lemma_exact_in_range(paths.drop_last(), key);
    }
}

proof fn lemma_nearest_in_range(paths: Seq<(String, String)>, weight: nat)
    ensures
        nearest_weight_entry(paths, weight) matches Some(i) ==> 0 <= i < paths.len()
            && parse_unsigned(paths[i].0@, 0xffff) is Some,
    decreases paths.len(),
{
    if paths.len() > 0 {
        lemma_nearest_in_range(paths.drop_last(), weight);
        let best = nearest_weight_entry(paths.drop_last(), weight);
        if let Some(i) = best {
            assert(paths.drop_last()[i] == paths[i]);
        }
    }
}

fn u16_abs_diff(a: u64, b: u64) -> (d: u64)
    ensures
        d == abs_diff(a as nat, b as nat),
{
    if a >= b {
        a - b
    } else {
        b - a
    }
}

pub fn configured_weight_path(font: &HudFontRefConfig, weight: u16) -> (p: Option<&str>)
    ensures
        match p {
            Some(s) => weight_path(*font, weight) == Some(s@),
            None => weight_path(*font, weight) is None,
        },
{
    let paths = &font.weight_paths;
    let mut key: Vec<char> = Vec::new();
    push_decimal(&mut key, weight as u64);
    assert(key@ =~= decimal(weight as nat));
    let mut k: usize = 0;
    while k < paths.len()
        invariant
            k <= paths@.len(),
            paths@ == font.weight_paths@,
            key@ == decimal(weight as nat),
            exact_weight_entry(paths@.take(k as int), key@) is None,
        decreases paths.len() - k,
    {
        assert(paths@.take(k + 1).drop_last() =~= paths@.take(k as int));
        let name = chars_of(paths[k].0.as_str());
        if chars_equal(&name, &key) {
            assert(exact_weight_entry(paths@.take(k + 1), key@) == Some(k as int));
            proof {
                lemma_exact_prefix(paths@, key@, k as int);
            }
            let r = paths[k].1.as_str();
            assert(r@ == paths@[k as int].1@);
            assert(weight_path(*font, weight) == Some(paths@[k as int].1@));
            return Some(r);
        }
        k = k + 1;
    }
    assert(paths@.take(paths.len() as int) =~= paths@);
    let mut best: Option<usize> = None;
    let mut best_score: u64 = 0;
    for j in 0..paths.len()
        invariant
            paths@ == font.weight_paths@,
            exact_weight_entry(paths@, decimal(weight as nat)) is None,
            best == (match nearest_weight_entry(paths@.take(j as int), weight as nat) {
                Some(i) => Some(i as usize),
                None => None::<usize>,
            }),
            nearest_weight_entry(paths@.take(j as int), weight as nat) matches Some(i) ==> (0 <= i < j
                && parse_unsigned(paths@[i].0@, 0xffff) is Some && best_score == weight_score(
                parse_unsigned(paths@[i].0@, 0xffff).unwrap(),
                weight as nat,
            )),
    {
        proof {
            lemma_nearest_in_range(paths@.take(j as int), weight as nat);
        }
        assert(paths@.take(j + 1).drop_last() =~= paths@.take(j as int));
        assert(paths@.take(j + 1).last() == paths@[j as int]);
        let name = chars_of(paths[j].0.as_str());
        match parse_unsigned_chars(&name, 0xffff) {
            None => {},
            Some(parsed) => {
                let score = u16_abs_diff(parsed, weight as u64) * 0x10000 + u16_abs_diff(parsed, 400);
                match best {
                    None => {
                        best = Some(j);
                        best_score = score;
                    },
                    Some(i) => {
                        assert(paths@.take(j as int)[i as int] == paths@[i as int]);
                        if score < best_score {
                            best = Some(j);
                            best_score = score;
                        }
                    },
                }
            },
        }
        proof {
            if let Some(i) = nearest_weight_entry(paths@.take(j + 1), weight as nat) {
                lemma_nearest_in_range(paths@.take(j + 1), weight as nat);
                assert(paths@.take(j + 1)[i] == paths@[i]);
            }
        }
    }
    assert(paths@.take(paths.len() as int) =~= paths@);
    match best {
        None => None,
        Some(i) => Some(paths[i].1.as_str()),
    }
}

proof fn lemma_exact_prefix(paths: Seq<(String, String)>, key: Seq<char>, k: int)
    requires
        0 <= k < paths.len(),
        exact_weight_entry(paths.take(k + 1), key) == Some(k),
    ensures
        exact_weight_entry(paths, key) == Some(k),
    decreases paths.len(),
{
    if paths.len() > k + 1 {
        assert(paths.drop_last().take(k + 1) =~= paths.take(k + 1));
        lemma_exact_prefix(paths.drop_last(), key, k);
    } else {
        assert(paths.take(k + 1) =~= paths);
    }
}

pub open spec fn opt_view(s: Option<String>) -> Seq<Seq<char>> {
    match s {
        Some(p) => seq![p@],
        None => seq![],
    }
}

/// The single-file paths to try for a weight: bold first for bold weights,
/// normal first otherwise, the generic path in between.
pub open spec fn legacy_font_paths(font: HudFontRefConfig, weight: u16) -> Seq<Seq<char>> {
    if weight >= 600 {
        opt_view(font.bold_path) + opt_view(font.path) + opt_view(font.normal_path)
    } else {
        opt_view(font.normal_path) + opt_view(font.path) + opt_view(font.bold_path)
    }
}

pub open spec fn strs_view(v: Seq<&str>) -> Seq<Seq<char>> {
    v.map_values(|s: &str| s@)
}

fn push_opt<'a>(paths: &mut Vec<&'a str>, p: &'a Option<String>)
    ensures
        strs_view(final(paths)@) == strs_view(old(paths)@) + opt_view(*p),
{
    match p {
        Some(s) => {
            paths.push(s.as_str());
            assert(strs_view(paths@) =~= strs_view(old(paths)@) + opt_view(*p));
        },
        None => {
            assert(strs_view(paths@) =~= strs_view(old(paths)@) + opt_view(*p));
        },
    }
}

pub fn configured_legacy_font_paths_for_weight(font: &HudFontRefConfig, weight: u16) -> (paths: Vec<&str>)
    ensures
        strs_view(paths@) == legacy_font_paths(*font, weight),
{
    let mut paths: Vec<&str> = Vec::new();
    match fallback_font_weight(weight) {
        FontWeight::Bold => {
            push_opt(&mut paths, &font.bold_path);
            push_opt(&mut paths, &font.path);
            push_opt(&mut paths, &font.normal_path);
        },
        FontWeight::Normal => {
            push_opt(&mut paths, &font.normal_path);
            push_opt(&mut paths, &font.path);
            push_opt(&mut paths, &font.bold_path);
        },
    }
    assert(strs_view(Seq::<&str>::empty()) =~= Seq::<Seq<char>>::empty());
    paths
}

pub open spec fn strings_view(v: Seq<String>) -> Seq<Seq<char>> {
    v.map_values(|s: String| s@)
}

/// Adds a candidate path unless it is blank or already listed.
pub fn push_unique_font_candidate(paths: &mut Vec<String>, path: String)
    ensures
        strings_view(final(paths)@) == (if trimmed(path@).len() == 0 || strings_view(
            old(paths)@,
        ).contains(path@) {
            strings_view(old(paths)@)
        } else {
            strings_view(old(paths)@).push(path@)
        }),
{
    let chars = chars_of(path.as_str());
    if trim_white_space(&chars).len() == 0 {
        return;
    }
    for k in 0..paths.len()
        invariant
            paths@ == old(paths)@,
            forall|i: int| 0 <= i < k ==> #[trigger] paths@[i]@ != path@,
    {
        if paths[k] == path {
            assert(strings_view(old(paths)@)[k as int] == path@);
            return;
        }
    }
    assert(!strings_view(old(paths)@).contains(path@)) by {
        if strings_view(old(paths)@).contains(path@) {
            let i = choose|i: int| 0 <= i < strings_view(old(paths)@).len() && strings_view(old(paths)@)[i] == path@;
            assert(paths@[i]@ == path@);
        }
    }
    paths.push(path);
    assert(strings_view(paths@) =~= strings_view(old(paths)@).push(path@));
}

/// The npm packages that may hold a font: `@fontsource/<id>` (id trimmed) and
/// the configured package name, each only when non-blank and new.
pub open spec fn package_candidates(font: HudFontRefConfig) -> Seq<Seq<char>> {
    let first = if trimmed(font.id@).len() > 0 {
        seq!["@fontsource/"@ + trimmed(font.id@)]
    } else {
        seq![]
    };
    match font.package_name {
        Some(p) => if trimmed(p@).len() > 0 && !first.contains(p@) {
            first.push(p@)
        } else {
            first
        },
        None => first,
    }
}

pub fn fontsource_package_candidates(font: &HudFontRefConfig) -> (c: Vec<String>)
    ensures
        strings_view(c@) == package_candidates(*font),
{
    let mut candidates: Vec<String> = Vec::new();
    let id = trim_white_space(&chars_of(font.id.as_str()));
    if id.len() > 0 {
        let mut name: Vec<char> = Vec::new();
        push_str(&mut name, "@fontsource/");
        push_chars(&mut name, &id);
        candidates.push(string_from_chars(&name));
    }
    let ghost first = strings_view(candidates@);
    assert(first =~= (if trimmed(font.id@).len() > 0 {
        seq!["@fontsource/"@ + trimmed(font.id@)]
    } else {
        Seq::<Seq<char>>::empty()
    }));
    match &font.package_name {
        Some(p) => {
            let pc = chars_of(p.as_str());
            if trim_white_space(&pc).len() > 0 {
                let mut present = false;
                if candidates.len() > 0 {
                    let existing = chars_of(candidates[0].as_str());
                    present = chars_equal(&existing, &pc);
                }
                assert(present == first.contains(p@)) by {
                    if first.contains(p@) {
                        assert(first[0] == p@);
                    }
                    if present {
                        assert(first[0] == p@);
                    }
                }
                if !present {
                    candidates.push(p.clone());
                    assert(strings_view(candidates@) =~= first.push(p@));
                }
            }
        },
        None => {},
    }
    candidates
}

/// The weights tried for a requested weight, in order, without repeats: the
/// weight itself, then nearby weights toward bold (from 600 up) or toward
/// regular (below 600).
pub open spec fn weight_preferences(weight: u16) -> Seq<u16> {
    if weight >= 600 {
        seq![weight, 800u16, 700u16, 600u16, 500u16, 400u16, 300u16]
    } else {
        seq![weight, 400u16, 500u16, 300u16, 600u16, 700u16, 800u16]
    }
}

/// `s` with later repeats removed.
pub open spec fn dedup_first(s: Seq<u16>) -> Seq<u16>
    decreases s.len(),
{
    if s.len() == 0 {
        seq![]
    } else {
        let d = dedup_first(s.drop_last());
        if d.contains(s.last()) {
            d
        } else {
            d.push(s.last())
        }
    }
}

pub fn font_weight_candidate_numbers(weight: u16) -> (out: Vec<u16>)
    ensures
        out@ == dedup_first(weight_preferences(weight)),
{
    let preferred: [u16; 7] = if weight >= 600 {
        [weight, 800, 700, 600, 500, 400, 300]
    } else {
        [weight, 400, 500, 300, 600, 700, 800]
    };
    assert(preferred@ =~= weight_preferences(weight));
    let mut out: Vec<u16> = Vec::new();
    for k in 0..7
        invariant
            preferred@ == weight_preferences(weight),
            out@ == dedup_first(preferred@.take(k as int)),
    {
        assert(preferred@.take(k + 1).drop_last() =~= preferred@.take(k as int));
        let candidate = preferred[k];
        let mut seen = false;
        for j in 0..out.len()
            invariant
                seen == exists|i: int| 0 <= i < j && out@[i] == candidate,
        {
            if out[j] == candidate {
                seen = true;
            }
        }
        if !seen {
            out.push(candidate);
        }
    }
    assert(preferred@.take(7) =~= preferred@);
    out
}

/// `<id><infix><weight>-normal.woff2` for every weight, in order.
pub open spec fn weighted_names(id: Seq<char>, infix: Seq<char>, weights: Seq<u16>) -> Seq<Seq<char>>
    decreases weights.len(),
{
    if weights.len() == 0 {
        seq![]
    } else {
        weighted_names(id, infix, weights.drop_last()).push(
            id + infix + decimal(weights.last() as nat) + "-normal.woff2"@,
        )
    }
}

/// The `@fontsource` file names tried for a font id and weight, most preferred
/// first: per-weight Japanese, Latin, Latin-extended and numbered subsets, then
/// the variable and standard files.
pub open spec fn fontsource_file_names(font_id: Seq<char>, weight: u16) -> Seq<Seq<char>> {
    let w = dedup_first(weight_preferences(weight));
    weighted_names(font_id, "-japanese-"@, w) + weighted_names(font_id, "-latin-"@, w)
        + weighted_names(font_id, "-latin-ext-"@, w) + weighted_names(font_id, "-0-"@, w)
        + weighted_names(font_id, "-1-"@, w) + seq![
        font_id + "-japanese-wght-normal.woff2"@,
        font_id + "-japanese-standard-normal.woff2"@,
        font_id + "-latin-wght-normal.woff2"@,
        font_id + "-latin-standard-normal.woff2"@,
        font_id + "-latin-opsz-normal.woff2"@,
        font_id + "-latin-ext-wght-normal.woff2"@,
    ]
}

fn push_weighted_names(out: &mut Vec<String>, id: &Vec<char>, infix: &str, weights: &Vec<u16>)
    ensures
        strings_view(final(out)@) == strings_view(old(out)@) + weighted_names(id@, infix@, weights@),
{
    for k in 0..weights.len()
        invariant
            strings_view(out@) == strings_view(old(out)@) + weighted_names(
                id@,
                infix@,
                weights@.take(k as int),
            ),
    {
        assert(weights@.take(k + 1).drop_last() =~= weights@.take(k as int));
        assert(weights@.take(k + 1).last() == weights@[k as int]);
        let mut name: Vec<char> = Vec::new();
        push_chars(&mut name, id);
        push_str(&mut name, infix);
        push_decimal(&mut name, weights[k] as u64);
        push_str(&mut name, "-normal.woff2");
        assert(name@ =~= id@ + infix@ + decimal(weights@.take(k + 1).last() as nat) + "-normal.woff2"@);
        let ghost prev = strings_view(out@);
        assert(weighted_names(id@, infix@, weights@.take(k + 1)) == weighted_names(
            id@,
            infix@,
            weights@.take(k as int),
        ).push(name@));
        out.push(string_from_chars(&name));
        assert(strings_view(out@) =~= prev.push(name@));
        assert(strings_view(out@) =~= strings_view(old(out)@) + weighted_names(
            id@,
            infix@,
            weights@.take(k + 1),
        ));
    }
    assert(weights@.take(weights.len() as int) =~= weights@);
}

fn push_named(out: &mut Vec<String>, id: &Vec<char>, suffix: &str)
    ensures
        strings_view(final(out)@) == strings_view(old(out)@).push(id@ + suffix@),
{
    let mut name: Vec<char> = Vec::new();
    push_chars(&mut name, id);
    push_str(&mut name, suffix);
    out.push(string_from_chars(&name));
    assert(strings_view(out@) =~= strings_view(old(out)@).push(id@ + suffix@));
}

/// The file names `pick_fontsource_file` looks for, in preference order.
pub fn fontsource_file_candidates(font_id: &str, weight: u16) -> (names: Vec<String>)
    ensures
        strings_view(names@) == fontsource_file_names(font_id@, weight),
{
    let id = chars_of(font_id);
    let weights = font_weight_candidate_numbers(weight);
    let mut names: Vec<String> = Vec::new();
    assert(strings_view(names@) =~= Seq::<Seq<char>>::empty());
    push_weighted_names(&mut names, &id, "-japanese-", &weights);
    push_weighted_names(&mut names, &id, "-latin-", &weights);
    push_weighted_names(&mut names, &id, "-latin-ext-", &weights);
    push_weighted_names(&mut names, &id, "-0-", &weights);
    push_weighted_names(&mut names, &id, "-1-", &weights);
    push_named(&mut names, &id, "-japanese-wght-normal.woff2");
    push_named(&mut names, &id, "-japanese-standard-normal.woff2");
    push_named(&mut names, &id, "-latin-wght-normal.woff2");
    push_named(&mut names, &id, "-latin-standard-normal.woff2");
    push_named(&mut names, &id, "-latin-opsz-normal.woff2");
    push_named(&mut names, &id, "-latin-ext-wght-normal.woff2");
    assert(strings_view(names@) =~= fontsource_file_names(font_id@, weight));
    names
}

// ---------------------------------------------------------------------------
// Search paths.

/// Appends one path component, with a `/` between unless `base` is empty or
/// already ends in `/` (how `PathBuf::push` joins a relative component on Unix).
pub open spec fn join_path(base: Seq<char>, part: Seq<char>) -> Seq<char> {
    if base.len() == 0 || base.last() == '/' {
        base + part
    } else {
        base + seq!['/'] + part
    }
}

/// Joins the non-empty components of `parts` onto `base`, in order.
pub open spec fn join_nonempty(base: Seq<char>, parts: Seq<Seq<char>>) -> Seq<char>
    decreases parts.len(),
{
    if parts.len() == 0 {
        base
    } else {
        let head = join_nonempty(base, parts.drop_last());
        if parts.last().len() == 0 {
            head
        } else {
            join_path(head, parts.last())
        }
    }
}

fn push_path_component(path: &mut Vec<char>, part: &Vec<char>)
    ensures
        final(path)@ == join_path(old(path)@, part@),
{
    let n = path.len();
    if n > 0 && path[n - 1] != '/' {
        path.push('/');
    }
    push_chars(path, part);
}

/// The `files` directory of an npm package under a `node_modules` root: the
/// package name's `/`-separated parts (empty ones skipped), then `files`.
pub open spec fn package_files_dir(root: Seq<char>, package_name: Seq<char>) -> Seq<char> {
    join_path(join_nonempty(root, split_on(package_name, '/')), "files"@)
}

pub fn fontsource_package_files_dir(root: &str, package_name: &str) -> (dir: String)
    ensures
        dir@ == package_files_dir(root@, package_name@),
{
    let mut path = chars_of(root);
    let parts = split_chars(&chars_of(package_name), '/');
    let ghost pv = views_of(parts@);
    for k in 0..parts.len()
        invariant
            pv == views_of(parts@),
            path@ == join_nonempty(root@, pv.take(k as int)),
    {
        assert(pv.take(k + 1).drop_last() =~= pv.take(k as int));
        if parts[k].len() > 0 {
            push_path_component(&mut path, &parts[k]);
        }
    }
    assert(pv.take(parts.len() as int) =~= pv);
    let mut files: Vec<char> = Vec::new();
    push_str(&mut files, "files");
    push_path_component(&mut path, &files);
    string_from_chars(&path)
}

/// The `node_modules` directories looked for under one base directory, in order.
pub open spec fn node_modules_dirs(base: Seq<char>) -> Seq<Seq<char>> {
    seq![
        join_path(base, "node_modules"@),
        join_path(join_path(base, "frontend"@), "node_modules"@),
        join_path(join_path(join_path(base, "Miru Renderer Web"@), "frontend"@), "node_modules"@),
    ]
}

fn joined(base: &Vec<char>, part: &str) -> (out: Vec<char>)
    ensures
        out@ == join_path(base@, part@),
{
    let mut out = base.clone();
    let mut p: Vec<char> = Vec::new();
    push_str(&mut p, part);
    push_path_component(&mut out, &p);
    out
}

/// The candidate `node_modules` roots under `base`; which of them exist is
/// for the caller to find out.
pub fn node_modules_candidates(base: &str) -> (dirs: Vec<String>)
    ensures
        strings_view(dirs@) == node_modules_dirs(base@),
{
    let b = chars_of(base);
    let first = joined(&b, "node_modules");
    let front = joined(&b, "frontend");
    let second = joined(&front, "node_modules");
    let web = joined(&b, "Miru Renderer Web");
    let web_front = joined(&web, "frontend");
    let third = joined(&web_front, "node_modules");
    let mut dirs: Vec<String> = Vec::new();
    dirs.push(string_from_chars(&first));
    dirs.push(string_from_chars(&second));
    dirs.push(string_from_chars(&third));
    assert(strings_view(dirs@) =~= node_modules_dirs(base@));
    dirs
}

/// The `files` directories searched for `@fontsource` files: for each root in
/// order, each package candidate in order; none when the font id is blank.
pub open spec fn fontsource_dirs(font: HudFontRefConfig, roots: Seq<Seq<char>>) -> Seq<Seq<char>>
    decreases roots.len(),
{
    if trimmed(font.id@).len() == 0 || roots.len() == 0 {
        seq![]
    } else {
        fontsource_dirs(font, roots.drop_last()) + package_candidates(font).map_values(
            |p: Seq<char>| package_files_dir(roots.last(), p),
        )
    }
}

pub fn fontsource_search_dirs(font: &HudFontRefConfig, roots: &Vec<String>) -> (dirs: Vec<String>)
    ensures
        strings_view(dirs@) == fontsource_dirs(*font, strings_view(roots@)),
{
    let mut dirs: Vec<String> = Vec::new();
    let ghost rv = strings_view(roots@);
    if trim_white_space(&chars_of(font.id.as_str())).len() == 0 {
        assert(strings_view(dirs@) =~= fontsource_dirs(*font, rv));
        return dirs;
    }
    let packages = fontsource_package_candidates(font);
    let ghost pv = strings_view(packages@);
    assert(strings_view(dirs@) =~= fontsource_dirs(*font, rv.take(0)));
    for r in 0..roots.len()
        invariant
            rv == strings_view(roots@),
            pv == strings_view(packages@),
            pv == package_candidates(*font),
            trimmed(font.id@).len() > 0,
            strings_view(dirs@) == fontsource_dirs(*font, rv.take(r as int)),
    {
        let ghost before = strings_view(dirs@);
        assert(rv.take(r + 1).drop_last() =~= rv.take(r as int));
        assert(rv.take(r + 1).last() == roots@[r as int]@);
        for q in 0..packages.len()
            invariant
                rv == strings_view(roots@),
                pv == strings_view(packages@),
                r < roots.len(),
                strings_view(dirs@) == before + pv.take(q as int).map_values(
                    |p: Seq<char>| package_files_dir(roots@[r as int]@, p),
                ),
        {
            let d = fontsource_package_files_dir(roots[r].as_str(), packages[q].as_str());
            assert(pv[q as int] == packages@[q as int]@);
            assert(d@ == package_files_dir(roots@[r as int]@, pv[q as int]));
            let ghost mid = strings_view(dirs@);
            dirs.push(d);
            assert(strings_view(dirs@) =~= mid.push(d@));
            assert(pv.take(q + 1).map_values(|p: Seq<char>| package_files_dir(roots@[r as int]@, p))
                =~= pv.take(q as int).map_values(|p: Seq<char>| package_files_dir(roots@[r as int]@, p)).push(
                package_files_dir(roots@[r as int]@, pv[q as int]),
            ));
            assert(strings_view(dirs@) =~= before + pv.take(q + 1).map_values(
                |p: Seq<char>| package_files_dir(roots@[r as int]@, p),
            ));
        }
        assert(pv.take(packages.len() as int) =~= pv);
    }
    assert(rv.take(roots.len() as int) =~= rv);
    dirs
}

/// `acc` with each of `items` added as `push_unique_font_candidate` adds it.
pub open spec fn push_unique_all(acc: Seq<Seq<char>>, items: Seq<Seq<char>>) -> Seq<Seq<char>>
    decreases items.len(),
{
    if items.len() == 0 {
        acc
    } else {
        let prev = push_unique_all(acc, items.drop_last());
        let p = items.last();
        if trimmed(p).len() == 0 || prev.contains(p) {
            prev
        } else {
            prev.push(p)
        }
    }
}

fn push_unique_strs(paths: &mut Vec<String>, items: &Vec<&str>)
    ensures
        strings_view(final(paths)@) == push_unique_all(strings_view(old(paths)@), strs_view(items@)),
{
    let ghost iv = strs_view(items@);
    for k in 0..items.len()
        invariant
            iv == strs_view(items@),
            strings_view(paths@) == push_unique_all(strings_view(old(paths)@), iv.take(k as int)),
    {
        assert(iv.take(k + 1).drop_last() =~= iv.take(k as int));
        let s = string_from_chars(&chars_of(items[k]));
        push_unique_font_candidate(paths, s);
    }
    assert(iv.take(items.len() as int) =~= iv);
}

/// Every path to try for a weight, without blanks or repeats: the configured
/// weight path, then the `@fontsource` files found (`found`, in search order),
/// then the legacy single-file paths.
pub fn font_path_candidates_for_weight(font: &HudFontRefConfig, weight: u16, found: &Vec<String>) -> (c: Vec<String>)
    ensures
        strings_view(c@) == push_unique_all(
            push_unique_all(
                push_unique_all(
                    seq![],
                    match weight_path(*font, weight) {
                        Some(p) => seq![p],
                        None => seq![],
                    },
                ),
                strings_view(found@),
            ),
            legacy_font_paths(*font, weight),
        ),
{
    let mut c: Vec<String> = Vec::new();
    let mut first: Vec<&str> = Vec::new();
    match configured_weight_path(font, weight) {
        Some(p) => first.push(p),
        None => {},
    }
    assert(strs_view(first@) =~= match weight_path(*font, weight) {
        Some(p) => seq![p],
        None => Seq::<Seq<char>>::empty(),
    });
    assert(strings_view(c@) =~= Seq::<Seq<char>>::empty());
    push_unique_strs(&mut c, &first);
    let mut found_strs: Vec<&str> = Vec::new();
    for k in 0..found.len()
        invariant
            strs_view(found_strs@) == strings_view(found@).take(k as int),
    {
        let f = found[k].as_str();
        assert(f@ == strings_view(found@)[k as int]);
        let ghost prev = strs_view(found_strs@);
        found_strs.push(f);
        assert(strs_view(found_strs@) =~= prev.push(f@));
        assert(strs_view(found_strs@) =~= strings_view(found@).take(k + 1));
    }
    assert(strings_view(found@).take(found.len() as int) =~= strings_view(found@));
    push_unique_strs(&mut c, &found_strs);
    let legacy = configured_legacy_font_paths_for_weight(font, weight);
    push_unique_strs(&mut c, &legacy);
    c
}

// ---------------------------------------------------------------------------
// Font bytes.

#[verifier::external_type_specification]
#[verifier::external_body]
pub struct ExFontArc(FontArc);

#[verifier::external_type_specification]
#[verifier::external_body]
pub struct ExInvalidFont(InvalidFont);

/// The WOFF2 magic number `wOF2` at the start.
pub open spec fn has_woff2_signature(b: Seq<u8>) -> bool {
    b.len() >= 4 && b[0] == 0x77u8 && b[1] == 0x4Fu8 && b[2] == 0x46u8 && b[3] == 0x32u8
}

/// `woff2_patched::decode::is_woff2`: whether the bytes start with `wOF2`.
#[verifier::external_body]
fn is_woff2(bytes: &[u8]) -> (b: bool)
    ensures
        b == has_woff2_signature(bytes@),
{
    woff2_patched::decode::is_woff2(bytes)
}

/// Whether a font file is WOFF2, which is decoded to TrueType before parsing.
pub fn is_woff2_font(bytes: &[u8]) -> (b: bool)
    ensures
        b == has_woff2_signature(bytes@),
{
    is_woff2(bytes)
}

/// A parsed font together with the bytes it was parsed from.
pub struct LoadedFont {
    font: FontArc,
    source: Ghost<Seq<u8>>,
}

impl LoadedFont {
    /// The bytes the font was parsed from.
    pub closed spec fn source(&self) -> Seq<u8> {
        self.source@
    }

    /// The parsed font.
    pub closed spec fn parsed(&self) -> FontArc {
        self.font
    }

    pub fn font(&self) -> (f: &FontArc)
        ensures
            *f == self.parsed(),
    {
        &self.font
    }

    pub fn into_font(self) -> (f: FontArc)
        ensures
            f == self.parsed(),
    {
        self.font
    }
}

/// Whether `ab_glyph::FontArc::try_from_vec` accepts the bytes as a font.
pub uninterp spec fn font_data_parses(bytes: Seq<u8>) -> bool;

/// `ab_glyph::FontArc::try_from_vec`. Claimed: whether it succeeds depends on the
/// bytes alone, and the font it gives is the one parsed from those bytes (the
/// crate keeps them as the font's data).
#[verifier::external_body]
fn font_arc_from_vec(data: Vec<u8>) -> (r: Result<LoadedFont, InvalidFont>)
    ensures
        r is Ok == font_data_parses(data@),
        r matches Ok(f) ==> f.source() == data@,
{
    let source = Ghost(data@);
    match FontArc::try_from_vec(data) {
        Ok(font) => Ok(LoadedFont { font, source }),
        Err(e) => Err(e),
    }
}

/// What parsing `t` gives: the font parsed from exactly those bytes, or, when
/// the parser rejects them, an error naming the file.
pub open spec fn parse_outcome(t: Seq<u8>, path_label: Seq<char>, r: Result<LoadedFont, String>) -> bool {
    match r {
        Ok(f) => font_data_parses(t) && f.source() == t,
        Err(msg) => !font_data_parses(t) && msg@ == "font parser rejected "@ + path_label,
    }
}

/// What loading a font file gives, once its WOFF2 decoding (if any) is known:
/// plain font bytes are parsed as they are; a WOFF2 file is parsed from what
/// `decoded` holds, or fails with the decoder's message.
pub open spec fn load_outcome(
    bytes: Seq<u8>,
    decoded: Result<Vec<u8>, String>,
    path_label: Seq<char>,
    r: Result<LoadedFont, String>,
) -> bool {
    if !has_woff2_signature(bytes) {
        parse_outcome(bytes, path_label, r)
    } else {
        match decoded {
            Ok(t) => parse_outcome(t@, path_label, r),
            Err(detail) => r matches Err(msg) && msg@ == "failed to decode WOFF2 "@ + path_label + ": "@
                + detail@,
        }
    }
}

fn parse_font(font_bytes: Vec<u8>, path_label: &str) -> (r: Result<LoadedFont, String>)
    ensures
        parse_outcome(font_bytes@, path_label@, r),
{
    let ghost t = font_bytes@;
    match font_arc_from_vec(font_bytes) {
        Ok(font) => Ok(font),
        Err(_) => {
            let mut msg: Vec<char> = Vec::new();
            push_str(&mut msg, "font parser rejected ");
            push_str(&mut msg, path_label);
            Err(string_from_chars(&msg))
        },
    }
}

/// Loads a font from a file's bytes (`path_label` names the file in errors).
/// A WOFF2 file is first handed to `decode_woff2`, which turns it into TrueType
/// bytes or says why it could not; the font parser must accept the result.
pub fn load_font_arc_from_bytes<D>(bytes: Vec<u8>, decode_woff2: D, path_label: &str) -> (r: Result<
    LoadedFont,
    String,
>)
    where
        D: FnOnce(Vec<u8>) -> Result<Vec<u8>, String>,
    requires
        has_woff2_signature(bytes@) ==> call_requires(decode_woff2, (bytes,)),
    ensures
        !has_woff2_signature(bytes@) ==> parse_outcome(bytes@, path_label@, r),
        has_woff2_signature(bytes@) ==> exists|d: Result<Vec<u8>, String>|
            call_ensures(decode_woff2, (bytes,), d) && load_outcome(bytes@, d, path_label@, r),
{
    if is_woff2(bytes.as_slice()) {
        let ghost input = bytes;
        let decoded = decode_woff2(bytes);
        let r = match decoded {
            Ok(t) => parse_font(t, path_label),
            Err(detail) => {
                let mut msg: Vec<char> = Vec::new();
                push_str(&mut msg, "failed to decode WOFF2 ");
                push_str(&mut msg, path_label);
                push_str(&mut msg, ": ");
                push_str(&mut msg, detail.as_str());
                Err(string_from_chars(&msg))
            },
        };
        assert(call_ensures(decode_woff2, (input,), decoded) && load_outcome(input@, decoded, path_label@, r));
        r
    } else {
        parse_font(bytes, path_label)
    }
}

} // verus!
