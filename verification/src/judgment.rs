//! Judgment kinds and the fixed tables keyed by them.
use vstd::prelude::*;
use crate::text::{chars_equal_str, chars_of};

verus! {

/// A hit judgment, best first.
#[derive(Debug, Clone, Copy, PartialEq, Eq, Hash, Structural)]
pub enum JudgmentKind {
    Max,
    Hit300,
    Hit200,
    Hit100,
    Hit50,
    Miss,
}

/// The judgment of a long-note release; `Unjudged` when no release was judged.
#[derive(Debug, Clone, Copy, PartialEq, Eq, Default, Structural)]
pub enum ReleaseKind {
    #[default]
    Unjudged,
    Max,
    Hit300,
    Hit200,
    Hit100,
    Hit50,
    Miss,
}

/// Position of a judgment in the tables ordered Max, 300, 200, 100, 50, Miss.
pub open spec fn judgment_index(kind: JudgmentKind) -> nat {
    match kind {
        JudgmentKind::Max => 0,
        JudgmentKind::Hit300 => 1,
        JudgmentKind::Hit200 => 2,
        JudgmentKind::Hit100 => 3,
        JudgmentKind::Hit50 => 4,
        JudgmentKind::Miss => 5,
    }
}

pub fn judgment_kind_index(kind: JudgmentKind) -> (i: usize)
    ensures
        i == judgment_index(kind),
        i < 6,
{
    match kind {
        JudgmentKind::Max => 0,
        JudgmentKind::Hit300 => 1,
        JudgmentKind::Hit200 => 2,
        JudgmentKind::Hit100 => 3,
        JudgmentKind::Hit50 => 4,
        JudgmentKind::Miss => 5,
    }
}

pub open spec fn release_of(kind: JudgmentKind) -> ReleaseKind {
    match kind {
        JudgmentKind::Max => ReleaseKind::Max,
        JudgmentKind::Hit300 => ReleaseKind::Hit300,
        JudgmentKind::Hit200 => ReleaseKind::Hit200,
        JudgmentKind::Hit100 => ReleaseKind::Hit100,
        JudgmentKind::Hit50 => ReleaseKind::Hit50,
        JudgmentKind::Miss => ReleaseKind::Miss,
    }
}

/// The judgment a release counts as; an unjudged release counts as a miss.
pub open spec fn judgment_of_release(kind: ReleaseKind) -> JudgmentKind {
    match kind {
        ReleaseKind::Max => JudgmentKind::Max,
        ReleaseKind::Hit300 => JudgmentKind::Hit300,
        ReleaseKind::Hit200 => JudgmentKind::Hit200,
        ReleaseKind::Hit100 => JudgmentKind::Hit100,
        ReleaseKind::Hit50 => JudgmentKind::Hit50,
        ReleaseKind::Miss | ReleaseKind::Unjudged => JudgmentKind::Miss,
    }
}

impl ReleaseKind {
    pub fn from_judgment(kind: JudgmentKind) -> (r: Self)
        ensures
            r == release_of(kind),
    {
        match kind {
            JudgmentKind::Max => ReleaseKind::Max,
            JudgmentKind::Hit300 => ReleaseKind::Hit300,
            JudgmentKind::Hit200 => ReleaseKind::Hit200,
            JudgmentKind::Hit100 => ReleaseKind::Hit100,
            JudgmentKind::Hit50 => ReleaseKind::Hit50,
            JudgmentKind::Miss => ReleaseKind::Miss,
        }
    }
}

pub fn rel_kind_to_judgment(kind: ReleaseKind) -> (j: JudgmentKind)
    ensures
        j == judgment_of_release(kind),
{
    match kind {
        ReleaseKind::Max => JudgmentKind::Max,
        ReleaseKind::Hit300 => JudgmentKind::Hit300,
        ReleaseKind::Hit200 => JudgmentKind::Hit200,
        ReleaseKind::Hit100 => JudgmentKind::Hit100,
        ReleaseKind::Hit50 => JudgmentKind::Hit50,
        ReleaseKind::Miss | ReleaseKind::Unjudged => JudgmentKind::Miss,
    }
}

/// Text shown for a judgment in debug overlays.
pub open spec fn judgment_label(j: JudgmentKind) -> Seq<char> {
    match j {
        JudgmentKind::Max => "MAX"@,
        JudgmentKind::Hit300 => "300"@,
        JudgmentKind::Hit200 => "200"@,
        JudgmentKind::Hit100 => "100"@,
        JudgmentKind::Hit50 => "50"@,
        JudgmentKind::Miss => "MISS"@,
    }
}

pub fn judgment_to_string(j: JudgmentKind) -> (s: String)
    ensures
        s@ == judgment_label(j),
{
    match j {
        JudgmentKind::Max => String::from_str("MAX"),
        JudgmentKind::Hit300 => String::from_str("300"),
        JudgmentKind::Hit200 => String::from_str("200"),
        JudgmentKind::Hit100 => String::from_str("100"),
        JudgmentKind::Hit50 => String::from_str("50"),
        JudgmentKind::Miss => String::from_str("MISS"),
    }
}

/// RGBA colour of a judgment's debug label.
pub open spec fn judgment_rgba(j: JudgmentKind) -> [u8; 4] {
    match j {
        JudgmentKind::Max => [255, 255, 255, 255],
        JudgmentKind::Hit300 => [249, 164, 2, 255],
        JudgmentKind::Hit200 => [43, 237, 71, 255],
        JudgmentKind::Hit100 => [68, 72, 242, 255],
        JudgmentKind::Hit50 => [180, 59, 235, 255],
        JudgmentKind::Miss => [196, 29, 49, 255],
    }
}

pub fn judgment_to_color(j: JudgmentKind) -> (c: [u8; 4])
    ensures
        c == judgment_rgba(j),
{
    match j {
        JudgmentKind::Max => [255, 255, 255, 255],
        JudgmentKind::Hit300 => [249, 164, 2, 255],
        JudgmentKind::Hit200 => [43, 237, 71, 255],
        JudgmentKind::Hit100 => [68, 72, 242, 255],
        JudgmentKind::Hit50 => [180, 59, 235, 255],
        JudgmentKind::Miss => [196, 29, 49, 255],
    }
}

/// Index of a judgment-count binding such as `judgments.hit300`.
pub open spec fn binding_index(binding: Seq<char>) -> Option<nat> {
    if binding == "judgments.max"@ {
        Some(0)
    } else if binding == "judgments.hit300"@ {
        Some(1)
    } else if binding == "judgments.hit200"@ {
        Some(2)
    } else if binding == "judgments.hit100"@ {
        Some(3)
    } else if binding == "judgments.hit50"@ {
        Some(4)
    } else if binding == "judgments.miss"@ {
        Some(5)
    } else {
        None
    }
}

pub fn judgment_binding_index(binding: &str) -> (r: Option<usize>)
    ensures
        match r {
            Some(i) => binding_index(binding@) == Some(i as nat),
            None => binding_index(binding@) is None,
        },
{
    let b = chars_of(binding);
    if chars_equal_str(&b, "judgments.max") {
        Some(0)
    } else if chars_equal_str(&b, "judgments.hit300") {
        Some(1)
    } else if chars_equal_str(&b, "judgments.hit200") {
        Some(2)
    } else if chars_equal_str(&b, "judgments.hit100") {
        Some(3)
    } else if chars_equal_str(&b, "judgments.hit50") {
        Some(4)
    } else if chars_equal_str(&b, "judgments.miss") {
        Some(5)
    } else {
        None
    }
}


/// A release judgment converted back gives the judgment it was made from.
pub proof fn lemma_release_round_trip(kind: JudgmentKind)
    ensures
        judgment_of_release(release_of(kind)) == kind,
{
}


/// Judgments are indexed best first, MAX at 0 to Miss at 5, each at its own index.
pub proof fn lemma_judgment_index_ranks(a: JudgmentKind, b: JudgmentKind)
    ensures
        judgment_index(a) < 6,
        a != b ==> judgment_index(a) != judgment_index(b),
        judgment_index(JudgmentKind::Max) < judgment_index(JudgmentKind::Hit300),
        judgment_index(JudgmentKind::Hit300) < judgment_index(JudgmentKind::Hit200),
        judgment_index(JudgmentKind::Hit200) < judgment_index(JudgmentKind::Hit100),
        judgment_index(JudgmentKind::Hit100) < judgment_index(JudgmentKind::Hit50),
        judgment_index(JudgmentKind::Hit50) < judgment_index(JudgmentKind::Miss),
{
}

/// Each judgment-count binding names its own count: the six bindings reach the
/// six judgment indices, no two the same.
pub proof fn lemma_binding_index_one_to_one(b1: Seq<char>, b2: Seq<char>)
    ensures
        binding_index(b1) matches Some(i) ==> i < 6,
        binding_index(b1) is Some && binding_index(b1) == binding_index(b2) ==> b1 == b2,
        forall|k: JudgmentKind| exists|b: Seq<char>| binding_index(b) == Some(#[trigger] judgment_index(k)),
{
    reveal_strlit("judgments.max");
    reveal_strlit("judgments.hit300");
    reveal_strlit("judgments.hit200");
    reveal_strlit("judgments.hit100");
    reveal_strlit("judgments.hit50");
    reveal_strlit("judgments.miss");
    assert("judgments.max"@.len() != "judgments.hit300"@.len());
    assert("judgments.max"@.len() != "judgments.hit200"@.len());
    assert("judgments.max"@.len() != "judgments.hit100"@.len());
    assert("judgments.max"@.len() != "judgments.hit50"@.len());
    assert("judgments.max"@.len() != "judgments.miss"@.len());
    assert("judgments.hit300"@[13] != "judgments.hit200"@[13]);
    assert("judgments.hit300"@[13] != "judgments.hit100"@[13]);
    assert("judgments.hit300"@.len() != "judgments.hit50"@.len());
    assert("judgments.hit300"@.len() != "judgments.miss"@.len());
    assert("judgments.hit200"@[13] != "judgments.hit100"@[13]);
    assert("judgments.hit200"@.len() != "judgments.hit50"@.len());
    assert("judgments.hit200"@.len() != "judgments.miss"@.len());
    assert("judgments.hit100"@.len() != "judgments.hit50"@.len());
    assert("judgments.hit100"@.len() != "judgments.miss"@.len());
    assert("judgments.hit50"@.len() != "judgments.miss"@.len());
    assert forall|k: JudgmentKind| exists|b: Seq<char>| binding_index(b) == Some(#[trigger] judgment_index(k)) by {
        match k {
            JudgmentKind::Max => assert(binding_index("judgments.max"@) == Some(judgment_index(k))),
            JudgmentKind::Hit300 => assert(binding_index("judgments.hit300"@) == Some(judgment_index(k))),
            JudgmentKind::Hit200 => assert(binding_index("judgments.hit200"@) == Some(judgment_index(k))),
            JudgmentKind::Hit100 => assert(binding_index("judgments.hit100"@) == Some(judgment_index(k))),
            JudgmentKind::Hit50 => assert(binding_index("judgments.hit50"@) == Some(judgment_index(k))),
            JudgmentKind::Miss => assert(binding_index("judgments.miss"@) == Some(judgment_index(k))),
        }
    }
}

/// Different judgments are labelled differently.
pub proof fn lemma_judgment_labels_distinct(a: JudgmentKind, b: JudgmentKind)
    requires
        a != b,
    ensures
        judgment_label(a) != judgment_label(b),
{
    reveal_strlit("MAX");
    reveal_strlit("300");
    reveal_strlit("200");
    reveal_strlit("100");
    reveal_strlit("50");
    reveal_strlit("MISS");
    assert("MAX"@[0] != "300"@[0]);
    assert("MAX"@[0] != "200"@[0]);
    assert("MAX"@[0] != "100"@[0]);
    assert("MAX"@.len() != "50"@.len());
    assert("MAX"@.len() != "MISS"@.len());
    assert("300"@[0] != "200"@[0]);
    assert("300"@[0] != "100"@[0]);
    assert("300"@.len() != "50"@.len());
    assert("300"@.len() != "MISS"@.len());
    assert("200"@[0] != "100"@[0]);
    assert("200"@.len() != "50"@.len());
    assert("200"@.len() != "MISS"@.len());
    assert("100"@.len() != "50"@.len());
    assert("100"@.len() != "MISS"@.len());
    assert("50"@.len() != "MISS"@.len());
}

} // verus!
