//! Cache of rendered debug labels (note indices and release judgments), with
//! least-recently-used pruning.
use vstd::prelude::*;
use crate::judgment::{JudgmentKind, judgment_label, judgment_rgba, judgment_to_color, judgment_to_string};
use crate::text::{decimal, push_decimal, string_from_chars};
use crate::lru::{LruStamp, least_recently_used, lru_victims};

verus! {

broadcast use vstd::seq_lib::group_to_multiset_ensures;

/// What a cached label shows: a note index, or a release judgment; both at a target width.
#[derive(Debug, Clone, Copy, PartialEq, Eq, Structural)]
pub enum DebugTextKey {
    Index { idx: usize, judgment: JudgmentKind, width: u32 },
    Tail { judgment: JudgmentKind, width: u32 },
}

/// A rendered label: RGBA bytes and size.
#[derive(Debug)]
pub struct DebugTexture {
    pub data: Vec<u8>,
    pub w: u32,
    pub h: u32,
}

#[derive(Debug)]
struct DebugTextureEntry {
    key: DebugTextKey,
    texture: DebugTexture,
    last_used_frame: u64,
}

/// A borrowed view of a cached label.
pub struct DebugTextureView<'a> {
    pub data: &'a [u8],
    pub w: u32,
    pub h: u32,
}

/// A cache entry as the contracts see it.
pub struct CachedLabel {
    pub key: DebugTextKey,
    pub data: Seq<u8>,
    pub w: u32,
    pub h: u32,
    pub last_used: u64,
}

spec fn cached_label_of(e: DebugTextureEntry) -> CachedLabel {
    CachedLabel {
        key: e.key,
        data: e.texture.data@,
        w: e.texture.w,
        h: e.texture.h,
        last_used: e.last_used_frame,
    }
}

/// Position of `key` among the cached labels, if cached.
pub open spec fn position_of(entries: Seq<CachedLabel>, key: DebugTextKey) -> Option<int>
    decreases entries.len(),
{
    if entries.len() == 0 {
        None
    } else if entries.last().key == key {
        Some(entries.len() - 1)
    } else {
        position_of(entries.drop_last(), key)
    }
}

/// The width a key asks for.
pub open spec fn key_width(k: DebugTextKey) -> u32 {
    match k {
        DebugTextKey::Index { width, .. } => width,
        DebugTextKey::Tail { width, .. } => width,
    }
}

/// A label holds four bytes per pixel and is at least as wide as its key asks.
pub open spec fn label_shaped(e: CachedLabel) -> bool {
    e.data.len() == 4 * e.w * e.h && e.w >= key_width(e.key)
}

pub open spec fn labels_shaped(entries: Seq<CachedLabel>) -> bool {
    forall|i: int| 0 <= i < entries.len() ==> label_shaped(#[trigger] entries[i])
}

/// No key is cached twice.
pub open spec fn keys_distinct(entries: Seq<CachedLabel>) -> bool {
    forall|i: int, j: int|
        0 <= i < j < entries.len() ==> #[trigger] entries[i].key != #[trigger] entries[j].key
}

/// The labels whose keys are not among `keys`, in order.
pub open spec fn without_keys(entries: Seq<CachedLabel>, keys: Seq<DebugTextKey>) -> Seq<CachedLabel>
    decreases entries.len(),
{
    if entries.len() == 0 {
        seq![]
    } else if keys.contains(entries.last().key) {
        without_keys(entries.drop_last(), keys)
    } else {
        without_keys(entries.drop_last(), keys).push(entries.last())
    }
}

/// The labels' keys with their last use, in cache order.
pub open spec fn stamps_of(entries: Seq<CachedLabel>) -> Seq<LruStamp<DebugTextKey>> {
    entries.map_values(|e: CachedLabel| LruStamp { key: e.key, last_used: e.last_used })
}

/// Rendered debug labels keyed by what they show.
pub struct DebugTextCache {
    textures: Vec<DebugTextureEntry>,
    frame_id: u64,
}

impl DebugTextCache {
    /// The cached labels, in insertion order.
    pub closed spec fn entries(&self) -> Seq<CachedLabel> {
        self.textures@.map_values(|e: DebugTextureEntry| cached_label_of(e))
    }

    /// The use counter: it advances on every lookup.
    pub closed spec fn frame(&self) -> u64 {
        self.frame_id
    }

    pub open spec fn wf(&self) -> bool {
        &&& keys_distinct(self.entries())
        &&& labels_shaped(self.entries())
    }

    pub fn new() -> (c: Self)
        ensures
            c.wf(),
            c.entries() == Seq::<CachedLabel>::empty(),
            c.frame() == 0,
    {
        let c = DebugTextCache { textures: Vec::new(), frame_id: 0 };
        assert(c.entries() =~= Seq::<CachedLabel>::empty());
        c
    }

    fn next_frame_id(&mut self) -> (f: u64)
        ensures
            f == old(self).frame_id.wrapping_add(1),
            final(self).frame_id == f,
            final(self).textures@ == old(self).textures@,
    {
        self.frame_id = self.frame_id.wrapping_add(1);
        self.frame_id
    }

    pub fn len(&self) -> (n: usize)
        ensures
            n == self.entries().len(),
    {
        self.textures.len()
    }

    fn find(&self, key: DebugTextKey) -> (r: Option<usize>)
        ensures
            match r {
                Some(p) => position_of(self.entries(), key) == Some(p as int),
                None => position_of(self.entries(), key) is None,
            },
    {
        let ghost es = self.entries();
        let mut j = self.textures.len();
        assert(es.take(j as int) =~= es);
        while j > 0
            invariant
                j <= self.textures.len(),
                es == self.entries(),
                es.len() == self.textures.len(),
                position_of(es, key) == position_of(es.take(j as int), key),
            decreases j,
        {
            assert(es[j - 1] == cached_label_of(self.textures@[j - 1]));
            if self.textures[j - 1].key == key {
                return Some(j - 1);
            }
            assert(es.take(j as int).drop_last() =~= es.take(j - 1));
            j = j - 1;
        }
        None
    }

    /// Prunes the least recently used labels until at most `max_entries` remain;
    /// the others stay in order.
    pub fn compact(&mut self, max_entries: usize)
        requires
            old(self).wf(),
        ensures
            final(self).wf(),
            final(self).frame() == old(self).frame(),
            final(self).entries() == without_keys(
                old(self).entries(),
                lru_victims(stamps_of(old(self).entries()), max_entries as nat),
            ),
            final(self).entries().len() == if old(self).entries().len() <= max_entries {
                old(self).entries().len()
            } else {
                max_entries as nat
            },
    {
        let ghost es = self.entries();
        let mut stamps: Vec<LruStamp<DebugTextKey>> = Vec::new();
        for k in 0..self.textures.len()
            invariant
                es == self.entries(),
                stamps@ == stamps_of(es.take(k as int)),
        {
            stamps.push(LruStamp { key: self.textures[k].key, last_used: self.textures[k].last_used_frame });
            assert(stamps@ =~= stamps_of(es.take(k + 1)));
        }
        assert(es.take(es.len() as int) =~= es);
        let victims = least_recently_used(stamps, max_entries);
        let mut old_entries: Vec<DebugTextureEntry> = Vec::new();
        std::mem::swap(&mut old_entries, &mut self.textures);
        let ghost old_vec = old_entries@;
        let n = old_entries.len();
        let mut rev: Vec<DebugTextureEntry> = Vec::new();
        while old_entries.len() > 0
            invariant
                old_entries.len() + rev.len() == n == old_vec.len(),
                old_entries@ == old_vec.take(old_entries.len() as int),
                forall|i: int| 0 <= i < rev.len() ==> #[trigger] rev@[i] == old_vec[n - 1 - i],
            decreases old_entries.len(),
        {
            let e = old_entries.pop().unwrap();
            assert(old_entries@ =~= old_vec.take(old_entries.len() as int));
            rev.push(e);
        }
        let mut kept: Vec<DebugTextureEntry> = Vec::new();
        assert(es =~= old_vec.map_values(|e: DebugTextureEntry| cached_label_of(e)));
        while rev.len() > 0
            invariant
                rev.len() <= n == old_vec.len(),
                es =~= old_vec.map_values(|e: DebugTextureEntry| cached_label_of(e)),
                forall|i: int| 0 <= i < rev.len() ==> #[trigger] rev@[i] == old_vec[n - 1 - i],
                kept@.map_values(|e: DebugTextureEntry| cached_label_of(e)) == without_keys(
                    es.take(n - rev.len()),
                    victims@,
                ),
            decreases rev.len(),
        {
            let e = rev.pop().unwrap();
            let ghost m = n - rev.len() - 1;
            assert(e == old_vec[m]);
            assert(es.take(m + 1).drop_last() =~= es.take(m));
            assert(es.take(m + 1).last() == cached_label_of(e));
            let mut hit = false;
            for v in 0..victims.len()
                invariant
                    hit == exists|i: int| 0 <= i < v && victims@[i] == e.key,
            {
                if victims[v] == e.key {
                    hit = true;
                }
            }
            assert(hit == victims@.contains(e.key));
            if !hit {
                kept.push(e);
                assert(kept@.map_values(|e: DebugTextureEntry| cached_label_of(e)) =~= without_keys(
                    es.take(m + 1),
                    victims@,
                ));
            }
        }
        assert(es.take(n as int) =~= es);
        self.textures = kept;
        proof {
            lemma_without_keys_distinct(es, victims@);
            lemma_compact_leaves_limit(es, max_entries as nat);
            lemma_without_keys_subseq(es, victims@);
            let kept_labels = without_keys(es, victims@);
            assert forall|i: int| 0 <= i < kept_labels.len() implies label_shaped(#[trigger] kept_labels[i]) by {
                let j = choose|j: int| 0 <= j < es.len() && kept_labels[i] == es[j];
                assert(label_shaped(es[j]));
            }
        }
    }

    fn get_or_create_keyed<F>(
        &mut self,
        key: DebugTextKey,
        target: u32,
        render: F,
        text: String,
        color: [u8; 4],
        keep_exact: bool,
    ) -> (r: Option<DebugTextureView<'_>>)
        where
            F: FnOnce(String, [u8; 4], u32) -> Option<(Vec<u8>, u32, u32)>,
        requires
            old(self).wf(),
            target == key_width(key),
            call_requires(render, (text, color, target)),
        ensures
            final(self).wf(),
            lookup_outcome(
                old(self).entries(),
                old(self).frame(),
                final(self).entries(),
                final(self).frame(),
                key,
                render,
                text@,
                color,
                keep_exact,
                r,
            ),
            r matches Some(v) ==> v.w >= target && v.data@.len() == 4 * v.w * v.h,
    {
        let frame = self.next_frame_id();
        assert(self.entries() == old(self).entries());
        match self.find(key) {
            Some(p) => {
                proof {
                    lemma_position_in_range(old(self).entries(), key);
                }
                assert(p < self.textures.len());
                self.textures[p].last_used_frame = frame;
                assert(self.entries() =~= old(self).entries().update(
                    p as int,
                    CachedLabel { last_used: frame, ..old(self).entries()[p as int] },
                ));
                proof {
                    assert(keys_distinct(self.entries())) by {
                        assert forall|i: int, j: int|
                            0 <= i < j < self.entries().len() implies #[trigger] self.entries()[i].key
                            != #[trigger] self.entries()[j].key by {
                            assert(self.entries()[i].key == old(self).entries()[i].key);
                            assert(self.entries()[j].key == old(self).entries()[j].key);
                        }
                    }
                    assert(labels_shaped(self.entries())) by {
                        assert forall|i: int| 0 <= i < self.entries().len() implies label_shaped(
                            #[trigger] self.entries()[i],
                        ) by {
                            assert(label_shaped(old(self).entries()[i]));
                        }
                    }
                    assert(label_shaped(old(self).entries()[p as int]));
                }
                let tex = &self.textures[p].texture;
                Some(DebugTextureView { data: tex.data.as_slice(), w: tex.w, h: tex.h })
            },
            None => {
                let ghost t = text;
                let out = render(text, color, target);
                let ghost out_g = out;
                let label = match out {
                    None => None,
                    Some(img) => {
                        let ghost img_g = img;
                        let l = finish_label(img, target, keep_exact);
                        proof {
                            if l is Some {
                                lemma_finished_label_shape(img_g, target, keep_exact);
                            }
                        }
                        l
                    },
                };
                match label {
                    None => {
                        assert(call_ensures(render, (t, color, key_width(key)), out_g) && t@ == text@
                            && rendered_outcome(old(self).entries(), self.entries(), key, frame, out_g, keep_exact, None));
                        None
                    },
                    Some((data, w, h)) => {
                        self.textures.push(
                            DebugTextureEntry {
                                key,
                                texture: DebugTexture { data, w, h },
                                last_used_frame: frame,
                            },
                        );
                        let p = self.textures.len() - 1;
                        assert(self.entries() =~= old(self).entries().push(self.entries()[p as int]));
                        proof {
                            lemma_position_none(old(self).entries(), key);
                            assert(labels_shaped(self.entries())) by {
                                assert forall|i: int| 0 <= i < self.entries().len() implies label_shaped(
                                    #[trigger] self.entries()[i],
                                ) by {
                                    if i < p {
                                        assert(self.entries()[i] == old(self).entries()[i]);
                                    }
                                }
                            }
                        }
                        let tex = &self.textures[p].texture;
                        let v = DebugTextureView { data: tex.data.as_slice(), w: tex.w, h: tex.h };
                        assert(call_ensures(render, (t, color, key_width(key)), out_g) && t@ == text@
                            && rendered_outcome(old(self).entries(), self.entries(), key, frame, out_g, keep_exact, Some(v)));
                        Some(v)
                    },
                }
            },
        }
    }

    /// The label for note `idx` at a target width. When it is not cached, the
    /// note's index is rendered with `render` (handed the index as decimal text,
    /// white, and the target width; the judgment plays no part in the picture)
    /// and centred on a transparent label at least the target width wide.
    pub fn get_or_create<F>(&mut self, idx: usize, judgment: JudgmentKind, target_width: u32, render: F) -> (r:
        Option<DebugTextureView<'_>>)
        where
            F: FnOnce(String, [u8; 4], u32) -> Option<(Vec<u8>, u32, u32)>,
        requires
            old(self).wf(),
            forall|t: String, c: [u8; 4], w: u32| #[trigger] call_requires(render, (t, c, w)),
        ensures
            final(self).wf(),
            lookup_outcome(
                old(self).entries(),
                old(self).frame(),
                final(self).entries(),
                final(self).frame(),
                DebugTextKey::Index { idx, judgment, width: target_width },
                render,
                decimal(idx as nat),
                white(),
                false,
                r,
            ),
            r matches Some(v) ==> v.w >= target_width && v.data@.len() == 4 * v.w * v.h,
    {
        let mut chars: Vec<char> = Vec::new();
        push_decimal(&mut chars, idx as u64);
        let text = string_from_chars(&chars);
        let color: [u8; 4] = [255, 255, 255, 255];
        assert(color == white());
        self.get_or_create_keyed(
            DebugTextKey::Index { idx, judgment, width: target_width },
            target_width,
            render,
            text,
            color,
            false,
        )
    }

    /// Like `get_or_create`, with the bytes copied out.
    pub fn get_or_create_owned<F>(&mut self, idx: usize, judgment: JudgmentKind, target_width: u32, render: F) -> (r:
        Option<(Vec<u8>, u32, u32)>)
        where
            F: FnOnce(String, [u8; 4], u32) -> Option<(Vec<u8>, u32, u32)>,
        requires
            old(self).wf(),
            forall|t: String, c: [u8; 4], w: u32| #[trigger] call_requires(render, (t, c, w)),
        ensures
            final(self).wf(),
            owned_outcome(
                old(self).entries(),
                old(self).frame(),
                final(self).entries(),
                final(self).frame(),
                DebugTextKey::Index { idx, judgment, width: target_width },
                render,
                decimal(idx as nat),
                white(),
                false,
                r,
            ),
            r matches Some(o) ==> o.1 >= target_width && o.0@.len() == 4 * o.1 * o.2,
    {
        let v = self.get_or_create(idx, judgment, target_width, render);
        match v {
            None => None,
            Some(tex) => Some((vstd::slice::slice_to_vec(tex.data), tex.w, tex.h)),
        }
    }

    /// The label for a release judgment at a target width. When it is not
    /// cached, the judgment's text is rendered with `render` (handed the text,
    /// the judgment's colour and the target width); a text narrower than the
    /// target is centred on a transparent label of the target width, a wider
    /// one is kept as rendered.
    pub fn get_or_create_tail<F>(&mut self, judgment: JudgmentKind, target_width: u32, render: F) -> (r:
        Option<DebugTextureView<'_>>)
        where
            F: FnOnce(String, [u8; 4], u32) -> Option<(Vec<u8>, u32, u32)>,
        requires
            old(self).wf(),
            forall|t: String, c: [u8; 4], w: u32| #[trigger] call_requires(render, (t, c, w)),
        ensures
            final(self).wf(),
            lookup_outcome(
                old(self).entries(),
                old(self).frame(),
                final(self).entries(),
                final(self).frame(),
                DebugTextKey::Tail { judgment, width: target_width },
                render,
                judgment_label(judgment),
                judgment_rgba(judgment),
                true,
                r,
            ),
            r matches Some(v) ==> v.w >= target_width && v.data@.len() == 4 * v.w * v.h,
    {
        let text = judgment_to_string(judgment);
        let color = judgment_to_color(judgment);
        self.get_or_create_keyed(
            DebugTextKey::Tail { judgment, width: target_width },
            target_width,
            render,
            text,
            color,
            true,
        )
    }

    /// Like `get_or_create_tail`, with the bytes copied out.
    pub fn get_or_create_tail_owned<F>(&mut self, judgment: JudgmentKind, target_width: u32, render: F) -> (r:
        Option<(Vec<u8>, u32, u32)>)
        where
            F: FnOnce(String, [u8; 4], u32) -> Option<(Vec<u8>, u32, u32)>,
        requires
            old(self).wf(),
            forall|t: String, c: [u8; 4], w: u32| #[trigger] call_requires(render, (t, c, w)),
        ensures
            final(self).wf(),
            owned_outcome(
                old(self).entries(),
                old(self).frame(),
                final(self).entries(),
                final(self).frame(),
                DebugTextKey::Tail { judgment, width: target_width },
                render,
                judgment_label(judgment),
                judgment_rgba(judgment),
                true,
                r,
            ),
            r matches Some(o) ==> o.1 >= target_width && o.0@.len() == 4 * o.1 * o.2,
    {
        let v = self.get_or_create_tail(judgment, target_width, render);
        match v {
            None => None,
            Some(tex) => Some((vstd::slice::slice_to_vec(tex.data), tex.w, tex.h)),
        }
    }
}

impl Default for DebugTextCache {
    fn default() -> (c: Self)
        ensures
            c.wf(),
            c.entries() == Seq::<CachedLabel>::empty(),
            c.frame() == 0,
    {
        DebugTextCache::new()
    }
}

/// The colour the note index is drawn in.
pub open spec fn white() -> [u8; 4] {
    [255u8, 255u8, 255u8, 255u8]
}

/// What caching a rendered text gives: when the renderer produced a usable
/// image, the finished label is cached at the end, marked used now, and
/// returned; otherwise nothing is cached and nothing returned.
pub open spec fn rendered_outcome(
    before: Seq<CachedLabel>,
    after: Seq<CachedLabel>,
    key: DebugTextKey,
    frame: u64,
    out: Option<(Vec<u8>, u32, u32)>,
    keep_exact: bool,
    r: Option<DebugTextureView<'_>>,
) -> bool {
    match out {
        Some(img) => if label_fits(img, key_width(key)) {
            let l = finished_label(img, key_width(key), keep_exact);
            &&& r matches Some(v) && v.data@ == l.0 && v.w == l.1 && v.h == l.2
            &&& after == before.push(CachedLabel { key, data: l.0, w: l.1, h: l.2, last_used: frame })
        } else {
            r is None && after == before
        },
        None => r is None && after == before,
    }
}

/// A lookup of `key`: the use counter advances by one (wrapping). A cached label
/// is returned as cached and marked used now; the renderer is not consulted. An
/// uncached label is rendered: the renderer is handed `text`, `color` and the
/// key's width, and what it gives back is made into a label as
/// `rendered_outcome` says.
pub open spec fn lookup_outcome<F: FnOnce(String, [u8; 4], u32) -> Option<(Vec<u8>, u32, u32)>>(
    before: Seq<CachedLabel>,
    frame_before: u64,
    after: Seq<CachedLabel>,
    frame_after: u64,
    key: DebugTextKey,
    render: F,
    text: Seq<char>,
    color: [u8; 4],
    keep_exact: bool,
    r: Option<DebugTextureView<'_>>,
) -> bool {
    let frame = frame_before.wrapping_add(1);
    &&& frame_after == frame
    &&& match position_of(before, key) {
        Some(p) => {
            &&& after == before.update(p, CachedLabel { last_used: frame, ..before[p] })
            &&& r matches Some(v) && v.data@ == before[p].data && v.w == before[p].w && v.h
                == before[p].h
        },
        None => exists|t: String, out: Option<(Vec<u8>, u32, u32)>|
            #[trigger] call_ensures(render, (t, color, key_width(key)), out) && t@ == text
                && rendered_outcome(before, after, key, frame, out, keep_exact, r),
    }
}

/// The same outcome as a lookup, with the returned bytes copied.
pub open spec fn owned_outcome<F: FnOnce(String, [u8; 4], u32) -> Option<(Vec<u8>, u32, u32)>>(
    before: Seq<CachedLabel>,
    frame_before: u64,
    after: Seq<CachedLabel>,
    frame_after: u64,
    key: DebugTextKey,
    render: F,
    text: Seq<char>,
    color: [u8; 4],
    keep_exact: bool,
    r: Option<(Vec<u8>, u32, u32)>,
) -> bool {
    exists|v: Option<DebugTextureView<'_>>|
        lookup_outcome(before, frame_before, after, frame_after, key, render, text, color, keep_exact, v)
            && match v {
            None => r is None,
            Some(view) => r matches Some(o) && o.0@ == view.data@ && o.1 == view.w && o.2
                == view.h,
        }
}

proof fn lemma_position_in_range(entries: Seq<CachedLabel>, key: DebugTextKey)
    ensures
        position_of(entries, key) matches Some(p) ==> 0 <= p < entries.len() && entries[p].key
            == key,
    decreases entries.len(),
{
    if entries.len() > 0 && entries.last().key != key {
        lemma_position_in_range(entries.drop_last(), key);
    }
}

proof fn lemma_position_none(entries: Seq<CachedLabel>, key: DebugTextKey)
    ensures
        position_of(entries, key) is None ==> forall|i: int|
            0 <= i < entries.len() ==> #[trigger] entries[i].key != key,
    decreases entries.len(),
{
    if entries.len() > 0 && entries.last().key != key {
        lemma_position_none(entries.drop_last(), key);
        if position_of(entries, key) is None {
            assert forall|i: int| 0 <= i < entries.len() implies #[trigger] entries[i].key != key by {
                if i < entries.len() - 1 {
                    assert(entries.drop_last()[i] == entries[i]);
                }
            }
        }
    }
}

proof fn lemma_without_keys_subseq(entries: Seq<CachedLabel>, keys: Seq<DebugTextKey>)
    ensures
        forall|i: int|
            0 <= i < without_keys(entries, keys).len() ==> exists|j: int|
                0 <= j < entries.len() && #[trigger] without_keys(entries, keys)[i] == entries[j],
    decreases entries.len(),
{
    if entries.len() > 0 {
        lemma_without_keys_subseq(entries.drop_last(), keys);
        let w = without_keys(entries, keys);
        let d = without_keys(entries.drop_last(), keys);
        assert forall|i: int| 0 <= i < w.len() implies exists|j: int|
            0 <= j < entries.len() && #[trigger] w[i] == entries[j] by {
            if i < d.len() {
                let j = choose|j: int| 0 <= j < entries.drop_last().len() && d[i] == entries.drop_last()[j];
                assert(w[i] == d[i]);
                assert(entries[j] == entries.drop_last()[j]);
            } else {
                assert(w[i] == entries.last());
            }
        }
    }
}

proof fn lemma_without_keys_distinct(entries: Seq<CachedLabel>, keys: Seq<DebugTextKey>)
    requires
        keys_distinct(entries),
    ensures
        keys_distinct(without_keys(entries, keys)),
    decreases entries.len(),
{
    if entries.len() > 0 {
        let d = entries.drop_last();
        assert(keys_distinct(d)) by {
            assert forall|i: int, j: int| 0 <= i < j < d.len() implies #[trigger] d[i].key
                != #[trigger] d[j].key by {
                assert(d[i] == entries[i]);
                assert(d[j] == entries[j]);
            }
        }
        lemma_without_keys_distinct(d, keys);
        lemma_without_keys_subseq(d, keys);
        let w = without_keys(entries, keys);
        let wd = without_keys(d, keys);
        if !keys.contains(entries.last().key) {
            assert forall|i: int, j: int| 0 <= i < j < w.len() implies #[trigger] w[i].key
                != #[trigger] w[j].key by {
                if j == w.len() - 1 {
                    let k = choose|k: int| 0 <= k < d.len() && #[trigger] wd[i] == d[k];
                    assert(w[i] == wd[i]);
                    assert(d[k] == entries[k]);
                    assert(entries[k].key != entries[entries.len() - 1].key);
                } else {
                    assert(w[i] == wd[i]);
                    assert(w[j] == wd[j]);
                }
            }
        }
    }
}

/// A label is cached after a lookup that returned it, with the returned bytes:
/// looking it up again gives the same label without rendering.
pub proof fn lemma_lookup_then_cached<F: FnOnce(String, [u8; 4], u32) -> Option<(Vec<u8>, u32, u32)>>(
    before: Seq<CachedLabel>,
    frame_before: u64,
    after: Seq<CachedLabel>,
    frame_after: u64,
    key: DebugTextKey,
    render: F,
    text: Seq<char>,
    color: [u8; 4],
    keep_exact: bool,
    v: DebugTextureView<'_>,
)
    requires
        keys_distinct(before),
        lookup_outcome(before, frame_before, after, frame_after, key, render, text, color, keep_exact, Some(v)),
    ensures
        position_of(after, key) matches Some(p) && after[p].data == v.data@ && after[p].w == v.w
            && after[p].h == v.h && after[p].last_used == frame_after,
{
    lemma_position_in_range(before, key);
    match position_of(before, key) {
        Some(p) => {
            lemma_position_of_unique(after, key, p);
        },
        None => {
            assert(after.last().key == key);
        },
    }
}

/// A lookup keeps every label already cached: under any other key, as under
/// its own, the cached bytes and size stay as they were.
pub proof fn lemma_lookup_keeps_cached<F: FnOnce(String, [u8; 4], u32) -> Option<(Vec<u8>, u32, u32)>>(
    before: Seq<CachedLabel>,
    frame_before: u64,
    after: Seq<CachedLabel>,
    frame_after: u64,
    key: DebugTextKey,
    render: F,
    text: Seq<char>,
    color: [u8; 4],
    keep_exact: bool,
    r: Option<DebugTextureView<'_>>,
    other: DebugTextKey,
)
    requires
        keys_distinct(before),
        lookup_outcome(before, frame_before, after, frame_after, key, render, text, color, keep_exact, r),
    ensures
        position_of(before, other) matches Some(p) ==> position_of(after, other) matches Some(q)
            && after[q].data == before[p].data && after[q].w == before[p].w && after[q].h == before[p].h,
{
    lemma_position_in_range(before, other);
    if let Some(p) = position_of(before, other) {
        lemma_position_none(before, other);
        match position_of(before, key) {
            Some(k) => {
                lemma_position_in_range(before, key);
                assert forall|i: int| 0 <= i < after.len() && i != p implies #[trigger] after[i].key != other by {
                    assert(after[i].key == before[i].key);
                    if i < p {
                        assert(before[i].key != before[p].key);
                    } else {
                        assert(before[p].key != before[i].key);
                    }
                }
                lemma_position_of_unique(after, other, p);
            },
            None => {
                let (t, out) = choose|t: String, out: Option<(Vec<u8>, u32, u32)>|
                    #[trigger] call_ensures(render, (t, color, key_width(key)), out) && t@ == text
                        && rendered_outcome(before, after, key, frame_before.wrapping_add(1), out, keep_exact, r);
                if after != before {
                    assert(after.drop_last() =~= before);
                    assert(after.last().key == key);
                    assert(key != other);
                }
            },
        }
    }
}

proof fn lemma_position_of_unique(entries: Seq<CachedLabel>, key: DebugTextKey, p: int)
    requires
        0 <= p < entries.len(),
        entries[p].key == key,
        forall|i: int| 0 <= i < entries.len() && i != p ==> #[trigger] entries[i].key != key,
    ensures
        position_of(entries, key) == Some(p),
    decreases entries.len(),
{
    if p < entries.len() - 1 {
        let d = entries.drop_last();
        assert forall|i: int| 0 <= i < d.len() && i != p implies #[trigger] d[i].key != key by {
            assert(d[i] == entries[i]);
        }
        lemma_position_of_unique(d, key, p);
    }
}

/// Pruning evicts the least recently used: every label it removes was last used
/// no later than every label it keeps.
pub proof fn lemma_compact_keeps_recent(entries: Seq<CachedLabel>, max_entries: nat)
    requires
        keys_distinct(entries),
    ensures
        ({
            let victims = lru_victims(stamps_of(entries), max_entries);
            let kept = without_keys(entries, victims);
            forall|r: int, k: int|
                0 <= r < entries.len() && 0 <= k < kept.len() && victims.contains(
                    #[trigger] entries[r].key,
                ) ==> entries[r].last_used <= #[trigger] kept[k].last_used
        }),
{
    let stamps = stamps_of(entries);
    let victims = lru_victims(stamps, max_entries);
    let kept = without_keys(entries, victims);
    lemma_without_keys_subseq(entries, victims);
    lemma_without_keys_excludes(entries, victims);
    if stamps.len() > max_entries {
        crate::lru::lemma_victims_are_oldest(stamps, max_entries);
        let sorted = crate::sorting::stable_sorted(stamps);
        let c = stamps.len() - max_entries;
        assert forall|r: int, k: int|
            0 <= r < entries.len() && 0 <= k < kept.len() && victims.contains(
                #[trigger] entries[r].key,
            ) implies entries[r].last_used <= #[trigger] kept[k].last_used by {
            // The victim slot holding r's key.
            let i = choose|i: int| 0 <= i < victims.len() && victims[i] == entries[r].key;
            assert(victims[i] == sorted[i].key);
            // That stamp is r's own: keys are unique among the stamps.
            assert(sorted.contains(sorted[i]));
            assert(sorted.to_multiset().count(sorted[i]) > 0);
            assert(stamps.to_multiset().count(sorted[i]) > 0);
            assert(stamps.contains(sorted[i]));
            let a = choose|a: int| 0 <= a < stamps.len() && stamps[a] == sorted[i];
            assert(stamps[a].key == entries[a].key);
            assert(a == r);
            // The kept label's stamp sits after the victims.
            let e = choose|e: int| 0 <= e < entries.len() && kept[k] == entries[e];
            let st = LruStamp { key: entries[e].key, last_used: entries[e].last_used };
            assert(stamps[e] == st);
            assert(stamps.contains(st));
            assert(stamps.to_multiset().count(st) > 0);
            assert(sorted.to_multiset().count(st) > 0);
            assert(sorted.contains(st));
            let j = choose|j: int| 0 <= j < sorted.len() && sorted[j] == st;
            if j < c {
                assert(victims[j] == st.key);
                assert(victims.contains(kept[k].key));
            }
            assert(victims.len() == c);
            assert(i < c <= j);
            assert(sorted[i].last_used <= sorted[j].last_used);
            assert(entries[r].last_used == stamps[a].last_used);
        }
    }
}

/// The keys of the labels, in cache order.
pub open spec fn keys_of(entries: Seq<CachedLabel>) -> Seq<DebugTextKey> {
    entries.map_values(|e: CachedLabel| e.key)
}

proof fn lemma_keys_of_no_duplicates(entries: Seq<CachedLabel>)
    requires
        keys_distinct(entries),
    ensures
        keys_of(entries).no_duplicates(),
{
    assert forall|i: int, j: int| 0 <= i < keys_of(entries).len() && 0 <= j < keys_of(entries).len()
        && i != j implies keys_of(entries)[i] != keys_of(entries)[j] by {
        if i < j {
            assert(entries[i].key != entries[j].key);
        } else {
            assert(entries[j].key != entries[i].key);
        }
    }
}

proof fn lemma_without_keys_key_set(entries: Seq<CachedLabel>, keys: Seq<DebugTextKey>)
    ensures
        keys_of(without_keys(entries, keys)).to_set() == keys_of(entries).to_set().difference(keys.to_set()),
    decreases entries.len(),
{
    if entries.len() == 0 {
        assert(keys_of(without_keys(entries, keys)).to_set() =~= keys_of(entries).to_set().difference(
            keys.to_set(),
        ));
    } else {
        let d = entries.drop_last();
        lemma_without_keys_key_set(d, keys);
        assert(keys_of(entries) =~= keys_of(d).push(entries.last().key));
        keys_of(d).lemma_push_to_set_commute(entries.last().key);
        if keys.contains(entries.last().key) {
            assert(keys_of(without_keys(entries, keys)).to_set() =~= keys_of(entries).to_set().difference(
                keys.to_set(),
            ));
        } else {
            assert(keys_of(without_keys(entries, keys)) =~= keys_of(without_keys(d, keys)).push(
                entries.last().key,
            ));
            keys_of(without_keys(d, keys)).lemma_push_to_set_commute(entries.last().key);
            assert(keys_of(without_keys(entries, keys)).to_set() =~= keys_of(entries).to_set().difference(
                keys.to_set(),
            ));
        }
    }
}

proof fn lemma_victims_are_distinct_entry_keys(entries: Seq<CachedLabel>, max_entries: nat)
    requires
        keys_distinct(entries),
    ensures
        lru_victims(stamps_of(entries), max_entries).no_duplicates(),
        lru_victims(stamps_of(entries), max_entries).to_set().subset_of(keys_of(entries).to_set()),
        entries.len() > max_entries ==> lru_victims(stamps_of(entries), max_entries).len()
            == entries.len() - max_entries,
{
    let stamps = stamps_of(entries);
    let victims = lru_victims(stamps, max_entries);
    if stamps.len() > max_entries {
        let sorted = crate::sorting::stable_sorted(stamps);
        crate::sorting::lemma_stable_sorted(stamps);
        let c = stamps.len() - max_entries;
        assert(stamps.no_duplicates()) by {
            assert forall|i: int, j: int| 0 <= i < stamps.len() && 0 <= j < stamps.len() && i != j
                implies stamps[i] != stamps[j] by {
                if i < j {
                    assert(entries[i].key != entries[j].key);
                } else {
                    assert(entries[j].key != entries[i].key);
                }
            }
        }
        stamps.lemma_multiset_has_no_duplicates();
        sorted.lemma_multiset_has_no_duplicates_conv();
        // Every sorted stamp is a stamp of some entry.
        assert forall|i: int| 0 <= i < sorted.len() implies exists|a: int|
            0 <= a < entries.len() && #[trigger] sorted[i] == stamps[a] by {
            assert(sorted.contains(sorted[i]));
            assert(sorted.to_multiset().count(sorted[i]) > 0);
            assert(stamps.to_multiset().count(sorted[i]) > 0);
            assert(stamps.contains(sorted[i]));
        }
        assert forall|i: int, j: int| 0 <= i < victims.len() && 0 <= j < victims.len() && i != j
            implies victims[i] != victims[j] by {
            let a = choose|a: int| 0 <= a < entries.len() && sorted[i] == stamps[a];
            let b = choose|b: int| 0 <= b < entries.len() && sorted[j] == stamps[b];
            assert(victims[i] == sorted[i].key);
            assert(victims[j] == sorted[j].key);
            if victims[i] == victims[j] {
                if a < b {
                    assert(entries[a].key != entries[b].key);
                } else if b < a {
                    assert(entries[b].key != entries[a].key);
                }
                assert(sorted[i] != sorted[j]);
            }
        }
        assert forall|k: DebugTextKey| victims.to_set().contains(k) implies keys_of(entries).to_set().contains(
            k,
        ) by {
            let i = choose|i: int| 0 <= i < victims.len() && victims[i] == k;
            let a = choose|a: int| 0 <= a < entries.len() && sorted[i] == stamps[a];
            assert(victims[i] == sorted[i].key);
            assert(keys_of(entries)[a] == k);
        }
    } else {
        assert(victims.to_set() =~= Set::<DebugTextKey>::empty());
    }
}

/// Pruning leaves exactly as many labels as the limit allows: all of them when
/// there are no more than `max_entries`, otherwise exactly `max_entries`.
pub proof fn lemma_compact_leaves_limit(entries: Seq<CachedLabel>, max_entries: nat)
    requires
        keys_distinct(entries),
    ensures
        without_keys(entries, lru_victims(stamps_of(entries), max_entries)).len() == if entries.len()
            <= max_entries {
            entries.len()
        } else {
            max_entries
        },
{
    let victims = lru_victims(stamps_of(entries), max_entries);
    let kept = without_keys(entries, victims);
    let all = keys_of(entries).to_set();
    let gone = victims.to_set();
    lemma_keys_of_no_duplicates(entries);
    keys_of(entries).unique_seq_to_set();
    lemma_victims_are_distinct_entry_keys(entries, max_entries);
    victims.unique_seq_to_set();
    lemma_without_keys_distinct(entries, victims);
    lemma_keys_of_no_duplicates(kept);
    keys_of(kept).unique_seq_to_set();
    lemma_without_keys_key_set(entries, victims);
    vstd::set_lib::lemma_set_difference_len(all, gone);
    assert(all.intersect(gone) =~= gone);
    if entries.len() <= max_entries {
        assert(victims.len() == 0);
    }
}

// ---------------------------------------------------------------------------
// Labels made of rendered text.

/// `n` transparent bytes.
pub open spec fn blank(n: int) -> Seq<u8> {
    Seq::new(n as nat, |i: int| 0u8)
}

/// Row `y` of a text image `w` pixels wide, as drawn onto a transparent label:
/// pixels with zero alpha stay transparent, the others are copied.
pub open spec fn drawn_row(src: Seq<u8>, w: int, y: int) -> Seq<u8> {
    Seq::new(
        (4 * w) as nat,
        |i: int|
            {
                let p = 4 * (y * w) + 4 * (i / 4);
                if src[p + 3] > 0 {
                    src[p + i % 4]
                } else {
                    0u8
                }
            },
    )
}

/// Row `y` of the text centred on a transparent row `width` pixels wide.
pub open spec fn centred_row(src: Seq<u8>, w: int, width: int, y: int) -> Seq<u8> {
    let off = (width - w) / 2;
    blank(4 * off) + drawn_row(src, w, y) + blank(4 * (width - w - off))
}

/// The first `k` rows of the text centred on a transparent image `width` wide.
pub open spec fn centred_rows(src: Seq<u8>, w: int, width: int, k: int) -> Seq<u8>
    decreases k,
{
    if k <= 0 {
        seq![]
    } else {
        centred_rows(src, w, width, k - 1) + centred_row(src, w, width, k - 1)
    }
}

/// A label is as wide as its text, and at least as wide as asked for.
pub open spec fn label_width(w: u32, target: u32) -> u32 {
    if w >= target {
        w
    } else {
        target
    }
}

/// A rendered text image (RGBA bytes, width, height) makes a label when its
/// bytes match its size and the label's bytes can be addressed.
pub open spec fn label_fits(image: (Vec<u8>, u32, u32), target: u32) -> bool {
    &&& image.0@.len() == 4 * image.1 * image.2
    &&& 4 * label_width(image.1, target) * image.2 <= usize::MAX
}

/// The label made of a rendered text image: the text centred on a transparent
/// image of the label's width. A text already at least as wide as asked for
/// is kept exactly as rendered when `keep_exact`.
pub open spec fn finished_label(image: (Vec<u8>, u32, u32), target: u32, keep_exact: bool) -> (Seq<u8>, u32, u32) {
    let width = label_width(image.1, target);
    if keep_exact && width == image.1 {
        (image.0@, image.1, image.2)
    } else {
        (centred_rows(image.0@, image.1 as int, width as int, image.2 as int), width, image.2)
    }
}

proof fn lemma_centred_rows_len(src: Seq<u8>, w: int, width: int, k: int)
    requires
        0 <= w <= width,
        0 <= k,
    ensures
        centred_rows(src, w, width, k).len() == 4 * width * k,
    decreases k,
{
    if k > 0 {
        lemma_centred_rows_len(src, w, width, k - 1);
        let off = (width - w) / 2;
        assert(0 <= off <= width - w);
        assert(centred_row(src, w, width, k - 1).len() == 4 * width);
        assert(4 * width * (k - 1) + 4 * width == 4 * width * k) by (nonlinear_arith);
    } else {
        assert(4 * width * k == 0) by (nonlinear_arith)
            requires
                k == 0,
        ;
    }
}

/// The finished label holds four bytes per pixel and is at least as wide as asked for.
proof fn lemma_finished_label_shape(image: (Vec<u8>, u32, u32), target: u32, keep_exact: bool)
    requires
        label_fits(image, target),
    ensures
        ({
            let l = finished_label(image, target, keep_exact);
            &&& l.0.len() == 4 * l.1 * l.2
            &&& l.1 >= target
            &&& l.1 >= image.1
        }),
{
    lemma_centred_rows_len(image.0@, image.1 as int, label_width(image.1, target) as int, image.2 as int);
}

fn push_blank(out: &mut Vec<u8>, n: usize)
    ensures
        final(out)@ == old(out)@ + blank(n as int),
{
    let ghost start = out@;
    for i in 0..n
        invariant
            out@ == start + blank(i as int),
    {
        out.push(0u8);
        assert(out@ =~= start + blank(i + 1));
    }
}

fn push_centred_row(out: &mut Vec<u8>, data: &Vec<u8>, w: usize, width: usize, y: Ghost<int>, base: usize)
    requires
        w <= width,
        4 * width <= usize::MAX,
        0 <= y@,
        base == 4 * (y@ * w),
        base + 4 * w <= data@.len(),
        data@.len() <= usize::MAX,
    ensures
        final(out)@ == old(out)@ + centred_row(data@, w as int, width as int, y@),
{
    let ghost start = out@;
    let off = (width - w) / 2;
    assert(4 * off <= 4 * width);
    push_blank(out, 4 * off);
    let ghost mid = out@;
    let ghost row = drawn_row(data@, w as int, y@);
    for x in 0..w
        invariant
            w <= width,
            base == 4 * (y@ * w),
            base + 4 * w <= data@.len(),
            data@.len() <= usize::MAX,
            row == drawn_row(data@, w as int, y@),
            out@ == mid + row.take(4 * x),
    {
        assert(x < w);
        let p = base + 4 * x;
        let a = data[p + 3];
        let mut c: usize = 0;
        while c < 4
            invariant
                c <= 4,
                x < w,
                p == base + 4 * x,
                a == data@[p + 3],
                base == 4 * (y@ * w),
                p + 4 <= data@.len(),
                row == drawn_row(data@, w as int, y@),
                out@ == mid + row.take(4 * x + c),
            decreases 4 - c,
        {
            let i: Ghost<int> = Ghost(4 * x + c);
            assert(i@ / 4 == x as int && i@ % 4 == c as int);
            assert(row[i@] == (if a > 0 {
                data@[p + c]
            } else {
                0u8
            }));
            if a > 0 {
                out.push(data[p + c]);
            } else {
                out.push(0u8);
            }
            assert(out@ =~= mid + row.take(4 * x + c + 1));
            c = c + 1;
        }
    }
    assert(row.take(4 * w as int) =~= row);
    assert(4 * (width - w - off) <= 4 * width);
    push_blank(out, 4 * (width - w - off));
    assert(out@ =~= start + centred_row(data@, w as int, width as int, y@));
}

/// Makes a label of a rendered text image, or none when the image's bytes do
/// not match its size or the label would be too large to address.
fn finish_label(image: (Vec<u8>, u32, u32), target: u32, keep_exact: bool) -> (r: Option<(Vec<u8>, u32, u32)>)
    ensures
        match r {
            Some(l) => label_fits(image, target) && (l.0@, l.1, l.2) == finished_label(image, target, keep_exact),
            None => !label_fits(image, target),
        },
{
    let ghost img = image;
    let (data, w, h) = image;
    let width = if w >= target {
        w
    } else {
        target
    };
    assert(4 * w * h <= 4 * 0xffff_ffffu128 * 0xffff_ffffu128) by (nonlinear_arith)
        requires
            w <= 0xffff_ffff,
            h <= 0xffff_ffff,
    ;
    assert(4 * width * h <= 4 * 0xffff_ffffu128 * 0xffff_ffffu128) by (nonlinear_arith)
        requires
            width <= 0xffff_ffff,
            h <= 0xffff_ffff,
    ;
    let need: u128 = 4u128 * (w as u128) * (h as u128);
    let total: u128 = 4u128 * (width as u128) * (h as u128);
    if data.len() as u128 != need || total > usize::MAX as u128 {
        return None;
    }
    if keep_exact && width == w {
        return Some((data, w, h));
    }
    let n = data.len();
    assert(data@.len() <= usize::MAX);
    let wu = w as usize;
    let widthu = width as usize;
    let mut out: Vec<u8> = Vec::new();
    let mut y: u32 = 0;
    let mut base: usize = 0;
    while y < h
        invariant
            y <= h,
            w <= width,
            wu == w,
            widthu == width,
            data@.len() == 4 * w * h,
            data@.len() <= usize::MAX,
            4 * width * h <= usize::MAX,
            base == 4 * (y * w),
            out@ == centred_rows(data@, w as int, width as int, y as int),
        decreases h - y,
    {
        assert(4 * width <= 4 * width * h) by (nonlinear_arith)
            requires
                y < h,
        ;
        assert(base + 4 * w <= data@.len()) by (nonlinear_arith)
            requires
                base == 4 * (y * w),
                y < h,
                data@.len() == 4 * w * h,
        ;
        push_centred_row(&mut out, &data, wu, widthu, Ghost(y as int), base);
        assert(base + 4 * wu == 4 * ((y + 1) * w)) by (nonlinear_arith)
            requires
                base == 4 * (y * w),
                wu == w,
        ;
        assert(4 * ((y + 1) * w) <= 4 * w * h) by (nonlinear_arith)
            requires
                y < h,
        ;
        base = base + 4 * wu;
        y = y + 1;
    }
    Some((out, width, h))
}

proof fn lemma_without_keys_excludes(entries: Seq<CachedLabel>, keys: Seq<DebugTextKey>)
    ensures
        forall|i: int|
            0 <= i < without_keys(entries, keys).len() ==> !keys.contains(
                #[trigger] without_keys(entries, keys)[i].key,
            ),
    decreases entries.len(),
{
    if entries.len() > 0 {
        lemma_without_keys_excludes(entries.drop_last(), keys);
        let w = without_keys(entries, keys);
        let d = without_keys(entries.drop_last(), keys);
        assert forall|i: int| 0 <= i < w.len() implies !keys.contains(#[trigger] w[i].key) by {
            if i < d.len() {
                assert(w[i] == d[i]);
            }
        }
    }
}

} // verus!
