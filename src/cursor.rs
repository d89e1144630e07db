use std::hash::DefaultHasher;
use std::hash::Hasher;
use vstd::prelude::*;
use vstd::std_specs::hash::DefaultHasherAdditionalSpecFns;
use vstd::string::StringExecFns;
use crate::text::{decimal, decimal_text};

verus! {

/// The hotspot of a cursor bitmap: the pixel `(x, y)` where the logical click point lies,
/// within a bitmap of `width` by `height` pixels.
/// Normalized, each axis is `x / width` and `y / height`.
#[derive(Clone, Copy, Debug, PartialEq, Eq)]
pub struct Hotspot {
    pub x: u32,
    pub y: u32,
    pub width: u32,
    pub height: u32,
}

/// A distinct pointer appearance seen during a session.
#[derive(Debug)]
pub struct Cursor {
    /// Name of the image file written for this cursor, derived from `id`.
    pub file_name: String,
    /// Identity of the cursor, unique within a session, assigned in first-seen order.
    pub id: u32,
    pub hotspot: Hotspot,
}

/// What the platform reports of the pointer's current appearance:
/// raw bitmap bytes and the hotspot.
#[derive(Debug)]
pub struct CursorData {
    pub image: Vec<u8>,
    pub hotspot: Hotspot,
}

/// The cursor that an event refers to: a cached identity, or the default
/// cursor when no bitmap could be captured, decoded or stored.
#[derive(Clone, Copy, Debug, PartialEq, Eq)]
pub enum CursorRef {
    Default,
    Id(u32),
}

impl CursorRef {
    /// The text form of the cursor in events: the decimal notation of its identity,
    /// or `default`.
    pub fn label(&self) -> (r: String)
        ensures
            match *self {
                CursorRef::Default => r@ == "default"@,
                CursorRef::Id(n) => r@ == decimal(n as nat),
            },
    {
        match self {
            CursorRef::Default => {
                proof {
                    reveal_strlit("default");
                }
                String::from_str("default")
            },
            CursorRef::Id(n) => decimal_text(*n),
        }
    }
}

/// The 64-bit content fingerprint of a bitmap: the digest of std's default hasher,
/// which is created with fixed keys, after the bitmap's bytes are written to it.
pub open spec fn fingerprint(b: Seq<u8>) -> u64 {
    DefaultHasher::spec_finish(seq![b])
}

/// The fingerprint of the bytes `b`.
pub fn fingerprint_of(b: &[u8]) -> (r: u64)
    ensures
        r == fingerprint(b@),
{
    let mut hasher = DefaultHasher::new();
    hasher.write(b);
    hasher.finish()
}

#[verifier::external_type_specification]
#[verifier::external_body]
pub struct ExDynamicImage(image::DynamicImage);

#[verifier::external_type_specification]
#[verifier::external_body]
pub struct ExImageError(image::ImageError);

/// Relies on `image::load_from_memory` to guess the format from the bytes and decode them.
/// Its outcome also depends on format and decoding hooks registered in the process, so
/// nothing is stated of it: callers handle success and failure alike.
#[verifier::external_body]
pub(crate) fn load_image(b: &[u8]) -> (r: Result<image::DynamicImage, image::ImageError>) {
    image::load_from_memory(b)
}

/// The identity view of a cache: fingerprint to identity, and the next identity to assign.
pub struct CacheState {
    pub ids: Map<u64, u32>,
    pub next: u32,
}

/// Every identity in the cache is below the next one to assign.
pub open spec fn ids_below_next(s: CacheState) -> bool {
    forall|k: u64| #[trigger] s.ids.contains_key(k) ==> s.ids[k] < s.next
}

/// The identities of a map of cursors.
pub open spec fn ids_of(m: Map<u64, Cursor>) -> Map<u64, u32> {
    m.map_values(|c: Cursor| c.id)
}

/// What looking a capture up in the cache finds.
pub enum Found {
    /// Nothing usable: no capture, bytes that do not decode, or no identity left to assign.
    Nothing,
    /// A cursor already in the cache.
    Known(u32),
    /// A decodable bitmap not yet in the cache, with its fingerprint and the identity it would get.
    Unseen(u64, u32),
}

/// The result of looking `capture` up in the cache `s`, where `decoded` tells whether
/// decoding the bytes of an unseen bitmap succeeded.
pub open spec fn find(s: CacheState, capture: Option<Seq<u8>>, decoded: bool) -> Found {
    match capture {
        None => Found::Nothing,
        Some(b) => {
            let fp = fingerprint(b);
            if s.ids.contains_key(fp) {
                Found::Known(s.ids[fp])
            } else if decoded && s.next < u32::MAX {
                Found::Unseen(fp, s.next)
            } else {
                Found::Nothing
            }
        },
    }
}

/// Adds the cursor of fingerprint `fp` under identity `id`, once its image is stored (`saved`).
/// A pending cursor that no longer fits the cache, or whose image was not stored,
/// leaves the cache as it is and falls back to the default cursor.
pub open spec fn insert_new(s: CacheState, fp: u64, id: u32, saved: bool) -> (CacheState, CursorRef) {
    if saved && !s.ids.contains_key(fp) && id == s.next && s.next < u32::MAX {
        (CacheState { ids: s.ids.insert(fp, id), next: (s.next + 1) as u32 }, CursorRef::Id(id))
    } else {
        (s, CursorRef::Default)
    }
}

/// One resolution of a capture: a lookup, whose outcome for an unseen bitmap depends on
/// whether it decoded, then the addition, whose success depends on whether its image was
/// stored.
pub open spec fn resolve(s: CacheState, capture: Option<Seq<u8>>, decoded: bool, saved: bool) -> (
    CacheState,
    CursorRef,
) {
    match find(s, capture, decoded) {
        Found::Nothing => (s, CursorRef::Default),
        Found::Known(id) => (s, CursorRef::Id(id)),
        Found::Unseen(fp, id) => insert_new(s, fp, id, saved),
    }
}

/// One capture of a session: the bytes the platform reported, if any, whether they
/// decoded, and whether the image of a new cursor was stored.
pub struct Step {
    pub capture: Option<Seq<u8>>,
    pub decoded: bool,
    pub saved: bool,
}

/// The cache after the first `k` steps of `steps`, starting from `s`.
pub open spec fn state_after(s: CacheState, steps: Seq<Step>, k: nat) -> CacheState
    decreases k,
{
    if k == 0 {
        s
    } else {
        let p = state_after(s, steps, (k - 1) as nat);
        resolve(p, steps[k - 1].capture, steps[k - 1].decoded, steps[k - 1].saved).0
    }
}

/// The cursor that step `k` resolves to.
pub open spec fn result_at(s: CacheState, steps: Seq<Step>, k: nat) -> CursorRef {
    resolve(state_after(s, steps, k), steps[k as int].capture, steps[k as int].decoded, steps[k as int].saved).1
}

/// Whether step `k` assigns a new identity.
pub open spec fn is_new_at(s: CacheState, steps: Seq<Step>, k: nat) -> bool {
    &&& find(state_after(s, steps, k), steps[k as int].capture, steps[k as int].decoded) is Unseen
    &&& result_at(s, steps, k) is Id
}

/// A resolution keeps every identity already cached, and advances the next identity
/// by one exactly when it assigns a new one.
pub proof fn lemma_resolve_keeps(s: CacheState, capture: Option<Seq<u8>>, decoded: bool, saved: bool)
    ensures
        forall|fp: u64| #[trigger]
            s.ids.contains_key(fp) ==> resolve(s, capture, decoded, saved).0.ids.contains_key(fp)
                && resolve(s, capture, decoded, saved).0.ids[fp] == s.ids[fp],
        (find(s, capture, decoded) is Unseen && resolve(s, capture, decoded, saved).1 is Id) ==> resolve(
            s,
            capture,
            decoded,
            saved,
        ).0.next == s.next + 1,
        !(find(s, capture, decoded) is Unseen && resolve(s, capture, decoded, saved).1 is Id) ==> resolve(
            s,
            capture,
            decoded,
            saved,
        ).0.next == s.next,
        ids_below_next(s) ==> ids_below_next(resolve(s, capture, decoded, saved).0),
        !(find(s, capture, decoded) is Unseen && resolve(s, capture, decoded, saved).1 is Id)
            ==> resolve(s, capture, decoded, saved).0 == s,
        (find(s, capture, decoded) is Unseen && resolve(s, capture, decoded, saved).1 is Id) ==> {
            &&& capture is Some
            &&& !s.ids.contains_key(fingerprint(capture.unwrap()))
            &&& resolve(s, capture, decoded, saved).0.ids == s.ids.insert(
                fingerprint(capture.unwrap()),
                s.next,
            )
            &&& resolve(s, capture, decoded, saved).1 == CursorRef::Id(s.next)
        },
{
}

/// After a step with bytes `b` resolves to identity `n`, the cache maps the fingerprint
/// of `b` to `n`.
pub proof fn lemma_resolve_records(s: CacheState, b: Seq<u8>, decoded: bool, saved: bool, n: u32)
    requires
        resolve(s, Some(b), decoded, saved).1 == CursorRef::Id(n),
    ensures
        resolve(s, Some(b), decoded, saved).0.ids.contains_key(fingerprint(b)),
        resolve(s, Some(b), decoded, saved).0.ids[fingerprint(b)] == n,
{
}

/// From step `i` to step `j`, cached identities stay and the next identity does not go down.
pub proof fn lemma_state_grows(s: CacheState, steps: Seq<Step>, i: nat, j: nat)
    requires
        i <= j <= steps.len(),
    ensures
        forall|fp: u64| #[trigger]
            state_after(s, steps, i).ids.contains_key(fp) ==> state_after(
                s,
                steps,
                j,
            ).ids.contains_key(fp) && state_after(s, steps, j).ids[fp] == state_after(
                s,
                steps,
                i,
            ).ids[fp],
        state_after(s, steps, i).next <= state_after(s, steps, j).next,
    decreases j - i,
{
    if i < j {
        let m = (j - 1) as nat;
        lemma_state_grows(s, steps, i, m);
        lemma_resolve_keeps(state_after(s, steps, m), steps[m as int].capture, steps[m as int].decoded, steps[m as int].saved);
    }
}

/// Identity stability: once bytes have resolved to an identity, every later capture of the
/// same bytes in the session resolves to that same identity.
pub proof fn lemma_same_bitmap_same_identity(
    s: CacheState,
    steps: Seq<Step>,
    i: nat,
    j: nat,
    b: Seq<u8>,
    n: u32,
)
    requires
        i < j < steps.len(),
        steps[i as int].capture == Some(b),
        steps[j as int].capture == Some(b),
        result_at(s, steps, i) == CursorRef::Id(n),
    ensures
        result_at(s, steps, j) == CursorRef::Id(n),
        state_after(s, steps, j + 1) == state_after(s, steps, j),
{
    lemma_resolve_records(state_after(s, steps, i), b, steps[i as int].decoded, steps[i as int].saved, n);
    lemma_state_grows(s, steps, i + 1, j);
}

/// In a well-formed cache, the next identity is above every cached one, and stays so
/// through any number of steps.
pub proof fn lemma_state_well_formed(s: CacheState, steps: Seq<Step>, k: nat)
    requires
        ids_below_next(s),
        k <= steps.len(),
    ensures
        ids_below_next(state_after(s, steps, k)),
    decreases k,
{
    if k > 0 {
        let m = (k - 1) as nat;
        lemma_state_well_formed(s, steps, m);
        lemma_resolve_keeps(state_after(s, steps, m), steps[m as int].capture, steps[m as int].decoded, steps[m as int].saved);
    }
}

/// New bitmaps get identities in first-seen order: each identity assigned to a newly seen
/// bitmap is the next one, above every identity in the cache at that point (seeded ones
/// included), and above the identity assigned to any earlier newly seen bitmap.
pub proof fn lemma_new_identities_increase(s: CacheState, steps: Seq<Step>, i: nat, j: nat)
    requires
        ids_below_next(s),
        i < j < steps.len(),
        is_new_at(s, steps, i),
        is_new_at(s, steps, j),
    ensures
        result_at(s, steps, i) == CursorRef::Id(state_after(s, steps, i).next),
        result_at(s, steps, j) == CursorRef::Id(state_after(s, steps, j).next),
        state_after(s, steps, i).next < state_after(s, steps, j).next,
        forall|fp: u64| #[trigger]
            state_after(s, steps, j).ids.contains_key(fp) ==> state_after(s, steps, j).ids[fp]
                < state_after(s, steps, j).next,
{
    lemma_resolve_keeps(state_after(s, steps, i), steps[i as int].capture, steps[i as int].decoded, steps[i as int].saved);
    lemma_state_grows(s, steps, i + 1, j);
    lemma_state_well_formed(s, steps, j);
}

/// Seeded continuity: when no step before step `i` assigned a new identity, the bitmap
/// newly seen at step `i` gets the counter the session was seeded with.
pub proof fn lemma_first_new_identity_is_seed(s: CacheState, steps: Seq<Step>, i: nat)
    requires
        i < steps.len(),
        is_new_at(s, steps, i),
        forall|k: nat| k < i ==> !#[trigger] is_new_at(s, steps, k),
    ensures
        result_at(s, steps, i) == CursorRef::Id(s.next),
    decreases i,
{
    lemma_seed_kept(s, steps, i);
}

/// Without a new identity among the first `k` steps, the counter is still the seed.
proof fn lemma_seed_kept(s: CacheState, steps: Seq<Step>, k: nat)
    requires
        k <= steps.len(),
        forall|m: nat| m < k ==> !#[trigger] is_new_at(s, steps, m),
    ensures
        state_after(s, steps, k).next == s.next,
    decreases k,
{
    if k > 0 {
        let m = (k - 1) as nat;
        assert(!is_new_at(s, steps, m));
        lemma_seed_kept(s, steps, m);
        lemma_resolve_keeps(state_after(s, steps, m), steps[m as int].capture, steps[m as int].decoded, steps[m as int].saved);
    }
}

/// How many of the first `k` steps assign a new identity.
pub open spec fn count_new(s: CacheState, steps: Seq<Step>, k: nat) -> nat
    decreases k,
{
    if k == 0 {
        0
    } else {
        let m = (k - 1) as nat;
        count_new(s, steps, m) + if is_new_at(s, steps, m) {
            1nat
        } else {
            0nat
        }
    }
}

/// Some key that `t` holds beyond those of `s0` carries identity `v`.
pub open spec fn holds_new_id(s0: CacheState, t: CacheState, v: u32) -> bool {
    exists|fp: u64| t.ids.contains_key(fp) && !s0.ids.contains_key(fp) && #[trigger] t.ids[fp] == v
}

/// The keys that `t` holds beyond those of the seed `s0` carry exactly the identities from
/// `s0.next` up to `t.next - 1`, one each; the seed's keys keep their identities.
pub open spec fn numbered_from(s0: CacheState, t: CacheState) -> bool {
    &&& s0.next <= t.next
    &&& forall|fp: u64| #[trigger]
        s0.ids.contains_key(fp) ==> t.ids.contains_key(fp) && t.ids[fp] == s0.ids[fp]
    &&& forall|fp: u64| #[trigger]
        t.ids.contains_key(fp) && !s0.ids.contains_key(fp) ==> s0.next <= t.ids[fp] < t.next
    &&& forall|v: u32| s0.next <= v < t.next ==> #[trigger] holds_new_id(s0, t, v)
    &&& forall|a: u64, b: u64|
        t.ids.contains_key(a) && !s0.ids.contains_key(a) && t.ids.contains_key(b)
            && !s0.ids.contains_key(b) && #[trigger] t.ids[a] == #[trigger] t.ids[b] ==> a == b
}

/// Identities are numbered from the seed: after `k` steps the next identity is the seed
/// plus the number of new bitmaps so far, the `m`-th new bitmap (counting from zero) got
/// identity `s.next + m`, and the new keys carry the identities `s.next` to the next
/// identity minus one, one each.
pub proof fn lemma_identities_numbered_from_seed(s: CacheState, steps: Seq<Step>, k: nat)
    requires
        k <= steps.len(),
    ensures
        state_after(s, steps, k).next == s.next + count_new(s, steps, k),
        k < steps.len() && is_new_at(s, steps, k) ==> result_at(s, steps, k) == CursorRef::Id(
            (s.next + count_new(s, steps, k)) as u32,
        ),
        numbered_from(s, state_after(s, steps, k)),
    decreases k,
{
    if k > 0 {
        let m = (k - 1) as nat;
        lemma_identities_numbered_from_seed(s, steps, m);
        let p = state_after(s, steps, m);
        let st = steps[m as int];
        lemma_resolve_keeps(p, st.capture, st.decoded, st.saved);
        let t = state_after(s, steps, k);
        if is_new_at(s, steps, m) {
            let fp = fingerprint(st.capture.unwrap());
            assert(!s.ids.contains_key(fp));
            assert forall|v: u32| s.next <= v < t.next implies #[trigger] holds_new_id(s, t, v) by {
                if v == p.next {
                    assert(t.ids[fp] == v);
                } else {
                    assert(holds_new_id(s, p, v));
                    let g = choose|g: u64|
                        p.ids.contains_key(g) && !s.ids.contains_key(g) && #[trigger] p.ids[g] == v;
                    assert(t.ids[g] == v);
                }
            }
            assert forall|a: u64, b: u64|
                t.ids.contains_key(a) && !s.ids.contains_key(a) && t.ids.contains_key(b)
                    && !s.ids.contains_key(b) && #[trigger] t.ids[a] == #[trigger] t.ids[b] implies a
                == b by {
                if a != fp && b != fp {
                    assert(p.ids[a] == p.ids[b]);
                } else if a != fp {
                    assert(p.ids.contains_key(a));
                } else if b != fp {
                    assert(p.ids.contains_key(b));
                }
            }
        }
    }
}

/// Fallback when capture is unavailable: the tick resolves to the default cursor and the
/// cache is left as it was.
pub proof fn lemma_no_capture_is_default(s: CacheState, decoded: bool, saved: bool)
    ensures
        resolve(s, None, decoded, saved) == (s, CursorRef::Default),
{
}

} // verus!
