use crate::cursor::{
    fingerprint_of, find, ids_of, insert_new, load_image, CacheState, Cursor,
    CursorData, CursorRef, Found, Hotspot,
};
use crate::events::{
    changed_buttons, lemma_changed_buttons_increasing, lemma_changed_buttons_members, is_click, is_move, ratio_x, ratio_y, Bounds, CursorClickEvent,
    CursorMoveEvent, MouseState, Ratio, SampleTime,
};
use crate::text::{cursor_file_name, file_name_for};
use std::collections::HashMap;
use vstd::prelude::*;

verus! {

broadcast use vstd::std_specs::hash::group_hash_axioms;

/// The finalized state of a capture session: the cursor cache, the next identity to
/// assign, and the move and click events in the order they were detected.
pub struct CursorActorResponse {
    pub cursors: HashMap<u64, Cursor>,
    pub next_cursor_id: u32,
    pub moves: Vec<CursorMoveEvent>,
    pub clicks: Vec<CursorClickEvent>,
}

/// A decodable bitmap not yet in the cache: the identity and file name it gets once its
/// image is stored.
#[derive(Debug)]
pub struct NewCursor {
    pub fingerprint: u64,
    pub id: u32,
    pub file_name: String,
    pub hotspot: Hotspot,
}

/// What a lookup of a capture in the cache finds.
pub enum CursorLookup {
    /// No capture, bytes that do not decode, or no identity left: the default cursor.
    Unavailable,
    /// A cursor already in the cache.
    Known(u32),
    /// A new cursor, with its decoded image, which is to be stored under `file_name`.
    Unseen(NewCursor, image::DynamicImage),
}

/// The sampling actor's private state: the screen bounds, the previous tick's pointer
/// state, the accumulated session, and whether a stop has been observed.
pub struct CursorRecorder {
    pub bounds: Bounds,
    pub last: MouseState,
    pub response: CursorActorResponse,
    pub stopped: bool,
}

impl CursorRecorder {
    /// The identity view of the recorder's cursor cache.
    pub open spec fn cache(&self) -> CacheState {
        CacheState { ids: ids_of(self.response.cursors@), next: self.response.next_cursor_id }
    }

    /// A running recorder over `bounds`, seeded with a prior session's cursors and
    /// next identity, with `first` as the pointer state to compare the first tick with.
    pub fn new(
        bounds: Bounds,
        first: MouseState,
        prev_cursors: HashMap<u64, Cursor>,
        next_cursor_id: u32,
    ) -> (r: Self)
        ensures
            r.bounds == bounds,
            r.last == first,
            r.response.cursors@ == prev_cursors@,
            r.response.next_cursor_id == next_cursor_id,
            r.response.moves@.len() == 0,
            r.response.clicks@.len() == 0,
            !r.stopped,
    {
        CursorRecorder {
            bounds,
            last: first,
            response: CursorActorResponse {
                cursors: prev_cursors,
                next_cursor_id,
                moves: Vec::new(),
                clicks: Vec::new(),
            },
            stopped: false,
        }
    }

    /// Decides at the top of a tick whether to sample. A stop request, once seen, is kept:
    /// from then on no tick samples.
    pub fn should_sample(&mut self, stop_requested: bool) -> (r: bool)
        ensures
            r == !(old(self).stopped || stop_requested),
            final(self).stopped == !r,
            final(self).bounds == old(self).bounds,
            final(self).last == old(self).last,
            final(self).response == old(self).response,
    {
        if stop_requested {
            self.stopped = true;
        }
        !self.stopped
    }

    /// Looks the capture of this tick up in the cursor cache: by fingerprint first, and for
    /// an unseen bitmap, by decoding it. Nothing in the cache changes. The result is what
    /// `find` gives for the decode outcome: an unseen bitmap comes back as `Unseen` where it
    /// decoded, as `Unavailable` where it did not.
    pub fn lookup(&self, capture: &Option<CursorData>) -> (r: CursorLookup)
        ensures
            ({
                let found = find(self.cache(), capture_bytes(*capture), r is Unseen);
                match r {
                    CursorLookup::Unavailable => found == Found::Nothing,
                    CursorLookup::Known(id) => found == Found::Known(id),
                    CursorLookup::Unseen(n, _) => {
                        &&& found == Found::Unseen(n.fingerprint, n.id)
                        &&& n.file_name@ == file_name_for(n.id as nat)
                        &&& n.hotspot == capture.unwrap().hotspot
                    },
                }
            }),
    {
        match capture {
            None => CursorLookup::Unavailable,
            Some(data) => {
                let fp = fingerprint_of(data.image.as_slice());
                match self.response.cursors.get(&fp) {
                    Some(c) => CursorLookup::Known(c.id),
                    None => {
                        let next = self.response.next_cursor_id;
                        if next == u32::MAX {
                            CursorLookup::Unavailable
                        } else {
                            match load_image(data.image.as_slice()) {
                                Ok(img) => {
                                    let n = NewCursor {
                                        fingerprint: fp,
                                        id: next,
                                        file_name: cursor_file_name(next),
                                        hotspot: data.hotspot,
                                    };
                                    CursorLookup::Unseen(n, img)
                                },
                                Err(_) => CursorLookup::Unavailable,
                            }
                        }
                    },
                }
            },
        }
    }

    /// Adds an unseen cursor to the cache once its image has been stored (`saved`), under
    /// the next identity, which then advances. Where the image was not stored, the
    /// recorder has stopped, or the pending cursor no longer fits the cache, nothing
    /// changes and the tick falls back to the default cursor.
    pub fn commit(&mut self, new: NewCursor, saved: bool) -> (r: CursorRef)
        ensures
            (final(self).cache(), r) == insert_new(
                old(self).cache(),
                new.fingerprint,
                new.id,
                saved && !old(self).stopped,
            ),
            r == CursorRef::Default ==> final(self).response == old(self).response,
            r != CursorRef::Default ==> {
                &&& final(self).response.cursors@ == old(self).response.cursors@.insert(
                    new.fingerprint,
                    final(self).response.cursors@[new.fingerprint],
                )
                &&& final(self).response.cursors@[new.fingerprint].id == new.id
                &&& final(self).response.cursors@[new.fingerprint].file_name@ == file_name_for(
                    new.id as nat,
                )
                &&& final(self).response.cursors@[new.fingerprint].hotspot == new.hotspot
                &&& final(self).response.moves == old(self).response.moves
                &&& final(self).response.clicks == old(self).response.clicks
            },
            final(self).bounds == old(self).bounds,
            final(self).last == old(self).last,
            final(self).stopped == old(self).stopped,
    {
        if saved && !self.stopped && new.id == self.response.next_cursor_id
            && self.response.next_cursor_id < u32::MAX && !self.response.cursors.contains_key(
            &new.fingerprint,
        ) {
            let id = new.id;
            let cursor = Cursor { file_name: cursor_file_name(id), id, hotspot: new.hotspot };
            self.response.cursors.insert(new.fingerprint, cursor);
            self.response.next_cursor_id = id + 1;
            proof {
                assert(ids_of(self.response.cursors@) =~= ids_of(old(self).response.cursors@).insert(
                    new.fingerprint,
                    id,
                ));
            }
            CursorRef::Id(id)
        } else {
            CursorRef::Default
        }
    }
}

/// `after` is `before` once a tick with pointer state `mouse`, taken at `time`, has been
/// recorded against `cursor`: a stopped recorder stays as it is; a running one appends a
/// move event when the position changed, a click event for each button present in both
/// samples whose state changed, in index order, and keeps `mouse` as the previous state.
pub open spec fn ticked(
    before: CursorRecorder,
    after: CursorRecorder,
    mouse: MouseState,
    time: SampleTime,
    cursor: CursorRef,
) -> bool {
    if before.stopped {
        after == before
    } else {
        let prev = before.last.button_pressed@;
        let cur = mouse.button_pressed@;
        let idx = changed_buttons(prev, cur, cur.len());
        let n = before.response.clicks@.len();
        &&& after.bounds == before.bounds
        &&& after.last == mouse
        &&& !after.stopped
        &&& after.response.cursors == before.response.cursors
        &&& after.response.next_cursor_id == before.response.next_cursor_id
        &&& if mouse.x != before.last.x || mouse.y != before.last.y {
            &&& after.response.moves@.len() == before.response.moves@.len() + 1
            &&& after.response.moves@.drop_last() == before.response.moves@
            &&& is_move(after.response.moves@.last(), before.bounds, mouse.x, mouse.y, time, cursor)
        } else {
            after.response.moves@ == before.response.moves@
        }
        &&& after.response.clicks@.len() == n + idx.len()
        &&& after.response.clicks@.subrange(0, n as int) == before.response.clicks@
        &&& forall|k: int|
            0 <= k < idx.len() ==> is_click(
                #[trigger] after.response.clicks@[n + k],
                idx[k],
                cur[idx[k] as int],
                before.bounds,
                mouse.x,
                mouse.y,
                time,
                cursor,
            )
    }
}

impl CursorRecorder {
    /// Records one tick: the pointer state `mouse`, taken at `time`, with the cursor that
    /// was resolved for it.
    pub fn record_tick(&mut self, mouse: MouseState, time: SampleTime, cursor: CursorRef)
        ensures
            ticked(*old(self), *final(self), mouse, time, cursor),
    {
        if self.stopped {
            return;
        }
        let x = Ratio { num: mouse.x as i64 - self.bounds.x as i64, den: self.bounds.width };
        let y = Ratio { num: mouse.y as i64 - self.bounds.y as i64, den: self.bounds.height };
        if mouse.x != self.last.x || mouse.y != self.last.y {
            let ev = CursorMoveEvent {
                active_modifiers: Vec::new(),
                cursor_id: cursor,
                process_time_us: time.process_time_us,
                unix_time_ms: time.unix_time_ms,
                x,
                y,
            };
            self.response.moves.push(ev);
            proof {
                assert(self.response.moves@.drop_last() =~= old(self).response.moves@);
            }
        }
        let ghost prev = old(self).last.button_pressed@;
        let ghost cur = mouse.button_pressed@;
        let ghost n = old(self).response.clicks@.len();
        let len = mouse.button_pressed.len();
        let mut num: usize = 0;
        while num < len
            invariant
                num <= len,
                len == cur.len(),
                cur == mouse.button_pressed@,
                prev == self.last.button_pressed@,
                n == old(self).response.clicks@.len(),
                self.bounds == old(self).bounds,
                self.last == old(self).last,
                !self.stopped,
                self.response.cursors == old(self).response.cursors,
                self.response.next_cursor_id == old(self).response.next_cursor_id,
                x == ratio_x(self.bounds, mouse.x),
                y == ratio_y(self.bounds, mouse.y),
                self.response.clicks@.len() == n + changed_buttons(prev, cur, num as nat).len(),
                self.response.clicks@.subrange(0, n as int) == old(self).response.clicks@,
                forall|k: int|
                    0 <= k < changed_buttons(prev, cur, num as nat).len() ==> is_click(
                        #[trigger] self.response.clicks@[n + k],
                        changed_buttons(prev, cur, num as nat)[k],
                        cur[changed_buttons(prev, cur, num as nat)[k] as int],
                        self.bounds,
                        mouse.x,
                        mouse.y,
                        time,
                        cursor,
                    ),
                mouse.x != old(self).last.x || mouse.y != old(self).last.y ==> {
                    &&& self.response.moves@.len() == old(self).response.moves@.len() + 1
                    &&& self.response.moves@.drop_last() == old(self).response.moves@
                    &&& is_move(self.response.moves@.last(), self.bounds, mouse.x, mouse.y, time, cursor)
                },
                !(mouse.x != old(self).last.x || mouse.y != old(self).last.y) ==> self.response.moves@
                    == old(self).response.moves@,
            decreases len - num,
        {
            let pressed = mouse.button_pressed[num];
            let ghost before = changed_buttons(prev, cur, num as nat);
            let ghost clicks0 = self.response.clicks@;
            if num < self.last.button_pressed.len() && pressed != self.last.button_pressed[num] {
                let ev = CursorClickEvent {
                    down: pressed,
                    active_modifiers: Vec::new(),
                    cursor_num: num,
                    cursor_id: cursor,
                    process_time_us: time.process_time_us,
                    unix_time_ms: time.unix_time_ms,
                    x,
                    y,
                };
                self.response.clicks.push(ev);
                proof {
                    let after = changed_buttons(prev, cur, (num + 1) as nat);
                    assert(after == before.push(num as nat));
                    assert(self.response.clicks@.subrange(0, n as int) =~= clicks0.subrange(0, n as int));
                    assert forall|k: int| 0 <= k < after.len() implies is_click(
                        #[trigger] self.response.clicks@[n + k],
                        after[k],
                        cur[after[k] as int],
                        self.bounds,
                        mouse.x,
                        mouse.y,
                        time,
                        cursor,
                    ) by {
                        if k < before.len() {
                            assert(self.response.clicks@[n + k] == clicks0[n + k]);
                        }
                    }
                }
            }
            num = num + 1;
        }
        self.last = mouse;
        proof {
            assert(self.response.clicks@.subrange(0, n as int) == old(self).response.clicks@);
        }
    }

    /// Hands the accumulated session over, consuming the recorder.
    pub fn finish(self) -> (r: CursorActorResponse)
        ensures
            r == self.response,
    {
        self.response
    }
}

/// Click triggering: when button `i` goes from released to pressed between the previous
/// tick and this one, the tick adds exactly one click event for that button, and it is a
/// press; when its state is unchanged, or either sample lacks it, the tick adds none.
pub proof fn lemma_click_on_change(
    before: CursorRecorder,
    after: CursorRecorder,
    mouse: MouseState,
    time: SampleTime,
    cursor: CursorRef,
    i: nat,
)
    requires
        ticked(before, after, mouse, time, cursor),
        !before.stopped,
    ensures
        ({
            let prev = before.last.button_pressed@;
            let cur = mouse.button_pressed@;
            let n = before.response.clicks@.len() as int;
            let c = after.response.clicks@;
            &&& (i < prev.len() && i < cur.len() && !prev[i as int] && cur[i as int]) ==> exists|
                k: int,
            |
                n <= k < c.len() && c[k].cursor_num == i && c[k].down && forall|j: int|
                    n <= j < c.len() && #[trigger] c[j].cursor_num == i ==> j == k
            &&& !(i < prev.len() && i < cur.len() && prev[i as int] != cur[i as int]) ==> forall|
                j: int,
            |
                n <= j < c.len() ==> #[trigger] c[j].cursor_num != i
        }),
{
    let prev = before.last.button_pressed@;
    let cur = mouse.button_pressed@;
    let n = before.response.clicks@.len() as int;
    let c = after.response.clicks@;
    let idx = changed_buttons(prev, cur, cur.len());
    assert forall|j: int| n <= j < c.len() implies #[trigger] c[j].cursor_num == idx[j - n] by {
        assert(is_click(c[n + (j - n)], idx[j - n], cur[idx[j - n] as int], before.bounds, mouse.x, mouse.y, time, cursor));
    }
    if i < cur.len() {
        lemma_changed_buttons_members(prev, cur, cur.len(), i);
        if i < prev.len() && !prev[i as int] && cur[i as int] {
            let k = choose|k: int|
                0 <= k < idx.len() && idx[k] == i && forall|j: int|
                    0 <= j < idx.len() && #[trigger] idx[j] == i ==> j == k;
            assert(is_click(c[n + k], idx[k], cur[idx[k] as int], before.bounds, mouse.x, mouse.y, time, cursor));
            assert forall|j: int| n <= j < c.len() && #[trigger] c[j].cursor_num == i implies j == n + k by {
                assert(idx[j - n] == i);
            }
        }
        if !(i < prev.len() && prev[i as int] != cur[i as int]) {
            assert forall|j: int| n <= j < c.len() implies #[trigger] c[j].cursor_num != i by {
                assert(idx.contains(idx[j - n]));
            }
        }
    } else {
        lemma_changed_buttons_increasing(prev, cur, cur.len());
        assert forall|j: int| n <= j < c.len() implies #[trigger] c[j].cursor_num != i by {
            assert(idx[j - n] < cur.len());
        }
    }
}

/// Graceful stop: once a stop has been observed, a tick changes nothing and no cursor is
/// added, so the session handed over is frozen.
pub proof fn lemma_stopped_is_frozen(
    before: CursorRecorder,
    after: CursorRecorder,
    mouse: MouseState,
    time: SampleTime,
    cursor: CursorRef,
    fp: u64,
    id: u32,
    saved: bool,
)
    requires
        before.stopped,
    ensures
        ticked(before, after, mouse, time, cursor) ==> after == before,
        insert_new(before.cache(), fp, id, saved && !before.stopped) == (
            before.cache(),
            CursorRef::Default,
        ),
{
}

/// Fallback on the default cursor: every event that a tick recorded against the default
/// cursor adds refers to the default cursor.
pub proof fn lemma_default_cursor_events(
    before: CursorRecorder,
    after: CursorRecorder,
    mouse: MouseState,
    time: SampleTime,
)
    requires
        ticked(before, after, mouse, time, CursorRef::Default),
    ensures
        forall|k: int|
            before.response.moves@.len() <= k < after.response.moves@.len() ==> (
            #[trigger] after.response.moves@[k]).cursor_id == CursorRef::Default,
        forall|k: int|
            before.response.clicks@.len() <= k < after.response.clicks@.len() ==> (
            #[trigger] after.response.clicks@[k]).cursor_id == CursorRef::Default,
        after.response.cursors == before.response.cursors,
{
    if !before.stopped {
        let n = before.response.clicks@.len() as int;
        let c = after.response.clicks@;
        let idx = changed_buttons(before.last.button_pressed@, mouse.button_pressed@, mouse.button_pressed@.len());
        assert forall|k: int| n <= k < c.len() implies (#[trigger] c[k]).cursor_id == CursorRef::Default by {
            assert(is_click(c[n + (k - n)], idx[k - n], mouse.button_pressed@[idx[k - n] as int], before.bounds, mouse.x, mouse.y, time, CursorRef::Default));
        }
    }
}

/// The bitmap bytes of a capture, if there is one.
pub open spec fn capture_bytes(capture: Option<CursorData>) -> Option<Seq<u8>> {
    match capture {
        Some(d) => Some(d.image@),
        None => None,
    }
}

} // verus!
