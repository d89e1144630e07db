use crate::cursor::CursorRef;
use vstd::prelude::*;

verus! {

/// The screen's pixel bounds that pointer positions are mapped into.
#[derive(Clone, Copy, Debug, PartialEq, Eq)]
pub struct Bounds {
    pub x: i32,
    pub y: i32,
    pub width: u32,
    pub height: u32,
}

/// The pointer's state at one tick: its position `(x, y)` in pixels and whether each button is pressed.
#[derive(Clone, Debug)]
pub struct MouseState {
    pub x: i32,
    pub y: i32,
    pub button_pressed: Vec<bool>,
}

/// When a tick was taken: time since capture start in microseconds, and wall-clock time
/// in milliseconds since the Unix epoch.
#[derive(Clone, Copy, Debug, PartialEq, Eq)]
pub struct SampleTime {
    pub process_time_us: u64,
    pub unix_time_ms: i64,
}

/// The fraction `num / den`, a position relative to the screen bounds.
/// It lies outside `[0, 1]` when the pointer is outside the bounds.
#[derive(Clone, Copy, Debug, PartialEq, Eq)]
pub struct Ratio {
    pub num: i64,
    pub den: u32,
}

/// One detected change of the pointer's position.
#[derive(Debug)]
pub struct CursorMoveEvent {
    /// Keyboard modifiers held at the time; none are recorded.
    pub active_modifiers: Vec<String>,
    pub cursor_id: CursorRef,
    pub process_time_us: u64,
    pub unix_time_ms: i64,
    pub x: Ratio,
    pub y: Ratio,
}

/// One detected change of a button's pressed state.
#[derive(Debug)]
pub struct CursorClickEvent {
    /// Whether the button went down (pressed) or up (released).
    pub down: bool,
    /// Keyboard modifiers held at the time; none are recorded.
    pub active_modifiers: Vec<String>,
    /// Zero-based index of the button.
    pub cursor_num: usize,
    pub cursor_id: CursorRef,
    pub process_time_us: u64,
    pub unix_time_ms: i64,
    pub x: Ratio,
    pub y: Ratio,
}

/// The horizontal position `(px - bounds.x) / bounds.width`.
pub open spec fn ratio_x(bounds: Bounds, x: i32) -> Ratio {
    Ratio { num: (x - bounds.x) as i64, den: bounds.width }
}

/// The vertical position `(py - bounds.y) / bounds.height`.
pub open spec fn ratio_y(bounds: Bounds, y: i32) -> Ratio {
    Ratio { num: (y - bounds.y) as i64, den: bounds.height }
}

/// The event for a move to `(x, y)`.
pub open spec fn is_move(
    e: CursorMoveEvent,
    bounds: Bounds,
    x: i32,
    y: i32,
    time: SampleTime,
    cursor: CursorRef,
) -> bool {
    &&& e.active_modifiers@.len() == 0
    &&& e.cursor_id == cursor
    &&& e.process_time_us == time.process_time_us
    &&& e.unix_time_ms == time.unix_time_ms
    &&& e.x == ratio_x(bounds, x)
    &&& e.y == ratio_y(bounds, y)
}

/// The event for button `num` turning to `down` with the pointer at `(x, y)`.
pub open spec fn is_click(
    e: CursorClickEvent,
    num: nat,
    down: bool,
    bounds: Bounds,
    x: i32,
    y: i32,
    time: SampleTime,
    cursor: CursorRef,
) -> bool {
    &&& e.down == down
    &&& e.cursor_num == num
    &&& e.active_modifiers@.len() == 0
    &&& e.cursor_id == cursor
    &&& e.process_time_us == time.process_time_us
    &&& e.unix_time_ms == time.unix_time_ms
    &&& e.x == ratio_x(bounds, x)
    &&& e.y == ratio_y(bounds, y)
}

/// The indices below `n`, in increasing order, of the buttons present in both samples
/// whose pressed state differs between them.
pub open spec fn changed_buttons(prev: Seq<bool>, cur: Seq<bool>, n: nat) -> Seq<nat>
    decreases n,
{
    if n == 0 {
        seq![]
    } else {
        let i = (n - 1) as nat;
        let s = changed_buttons(prev, cur, i);
        if i < prev.len() && i < cur.len() && prev[i as int] != cur[i as int] {
            s.push(i)
        } else {
            s
        }
    }
}

/// Every index that `changed_buttons` lists is below `n`, and they increase strictly.
pub proof fn lemma_changed_buttons_increasing(prev: Seq<bool>, cur: Seq<bool>, n: nat)
    ensures
        forall|k: int|
            0 <= k < changed_buttons(prev, cur, n).len() ==> #[trigger] changed_buttons(
                prev,
                cur,
                n,
            )[k] < n,
        forall|j: int, k: int|
            0 <= j < k < changed_buttons(prev, cur, n).len() ==> #[trigger] changed_buttons(
                prev,
                cur,
                n,
            )[j] < #[trigger] changed_buttons(prev, cur, n)[k],
    decreases n,
{
    if n > 0 {
        let m = (n - 1) as nat;
        lemma_changed_buttons_increasing(prev, cur, m);
        let t = changed_buttons(prev, cur, m);
        let s = changed_buttons(prev, cur, n);
        assert forall|k: int| 0 <= k < t.len() implies s[k] == t[k] by {}
        assert forall|k: int| 0 <= k < s.len() implies #[trigger] s[k] < n by {
            if k < t.len() {
                assert(t[k] < m);
            }
        }
        assert forall|j: int, k: int| 0 <= j < k < s.len() implies #[trigger] s[j] < #[trigger] s[k] by {
            assert(t[j] < m);
            if k < t.len() {
                assert(t[j] < t[k]);
            }
        }
    }
}

/// An index below `n` is listed by `changed_buttons` exactly once when both samples have
/// that button and its state differs between them, and not at all otherwise.
pub proof fn lemma_changed_buttons_members(prev: Seq<bool>, cur: Seq<bool>, n: nat, i: nat)
    requires
        i < n,
    ensures
        (i < prev.len() && i < cur.len() && prev[i as int] != cur[i as int]) ==> exists|k: int|
            0 <= k < changed_buttons(prev, cur, n).len() && changed_buttons(prev, cur, n)[k] == i
                && forall|j: int|
                0 <= j < changed_buttons(prev, cur, n).len() && #[trigger] changed_buttons(
                    prev,
                    cur,
                    n,
                )[j] == i ==> j == k,
        !(i < prev.len() && i < cur.len() && prev[i as int] != cur[i as int]) ==> !changed_buttons(
            prev,
            cur,
            n,
        ).contains(i),
    decreases n,
{
    lemma_changed_buttons_increasing(prev, cur, n);
    let s = changed_buttons(prev, cur, n);
    let m = (n - 1) as nat;
    lemma_changed_buttons_increasing(prev, cur, m);
    let t = changed_buttons(prev, cur, m);
    assert forall|k: int| 0 <= k < t.len() implies s[k] == t[k] by {}
    let differs = i < prev.len() && i < cur.len() && prev[i as int] != cur[i as int];
    if i < m {
        lemma_changed_buttons_members(prev, cur, m, i);
        if differs {
            let k = choose|k: int|
                0 <= k < t.len() && t[k] == i && forall|j: int|
                    0 <= j < t.len() && #[trigger] t[j] == i ==> j == k;
            assert(s[k] == i);
            assert forall|j: int| 0 <= j < s.len() && #[trigger] s[j] == i implies j == k by {
                if j != k {
                    if j < k {
                        assert(s[j] < s[k]);
                    } else {
                        assert(s[k] < s[j]);
                    }
                }
            }
        } else {
            if s.contains(i) {
                let k = choose|k: int| 0 <= k < s.len() && s[k] == i;
                if k < t.len() {
                    assert(t.contains(i));
                } else {
                    assert(s[k] == m);
                }
            }
        }
    } else {
        if differs {
            let k = s.len() - 1;
            assert(s[k] == i);
            assert forall|j: int| 0 <= j < s.len() && #[trigger] s[j] == i implies j == k by {
                if j < k {
                    assert(t[j] < m);
                }
            }
        } else {
            if s.contains(i) {
                let k = choose|k: int| 0 <= k < s.len() && s[k] == i;
                assert(t[k] < m);
            }
        }
    }
}

} // verus!
