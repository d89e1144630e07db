use cursor_recorder::cursor::{fingerprint_of, Cursor, CursorData, CursorRef, Hotspot};
use cursor_recorder::events::{Bounds, MouseState, Ratio, SampleTime};
use cursor_recorder::recorder::{CursorLookup, CursorRecorder};
use cursor_recorder::text::cursor_file_name;
use std::collections::HashMap;

fn png(width: u32, height: u32, shade: u8) -> Vec<u8> {
    let img = image::RgbaImage::from_pixel(width, height, image::Rgba([shade, 0, 0, 255]));
    let mut out = Vec::new();
    img.write_to(&mut std::io::Cursor::new(&mut out), image::ImageFormat::Png)
        .unwrap();
    out
}

fn hotspot() -> Hotspot {
    Hotspot { x: 1, y: 2, width: 4, height: 4 }
}

fn mouse(x: i32, y: i32, buttons: &[bool]) -> MouseState {
    MouseState { x, y, button_pressed: buttons.to_vec() }
}

fn time(us: u64) -> SampleTime {
    SampleTime { process_time_us: us, unix_time_ms: 1_700_000_000_000 }
}

fn bounds() -> Bounds {
    Bounds { x: 100, y: 50, width: 200, height: 100 }
}

fn recorder(prev: HashMap<u64, Cursor>, next: u32) -> CursorRecorder {
    CursorRecorder::new(bounds(), mouse(0, 0, &[false, false, false]), prev, next)
}

fn capture(bytes: Vec<u8>) -> Option<CursorData> {
    Some(CursorData { image: bytes, hotspot: hotspot() })
}

/// Resolves a capture as the sampling loop does, with the image store succeeding or not.
fn resolve(rec: &mut CursorRecorder, cap: &Option<CursorData>, saved: bool) -> CursorRef {
    match rec.lookup(cap) {
        CursorLookup::Unavailable => CursorRef::Default,
        CursorLookup::Known(id) => CursorRef::Id(id),
        CursorLookup::Unseen(new, _img) => rec.commit(new, saved),
    }
}

#[test]
fn label_of_default_and_identity() {
    assert_eq!(CursorRef::Default.label(), "default");
    assert_eq!(CursorRef::Id(0).label(), "0");
    assert_eq!(CursorRef::Id(42).label(), "42");
    assert_eq!(CursorRef::Id(u32::MAX).label(), "4294967295");
}

#[test]
fn file_names_follow_identity() {
    assert_eq!(cursor_file_name(0), "cursor_0.png");
    assert_eq!(cursor_file_name(7), "cursor_7.png");
    assert_eq!(cursor_file_name(1234), "cursor_1234.png");
}

#[test]
fn fingerprint_is_deterministic() {
    let a = png(2, 2, 10);
    let b = png(2, 2, 20);
    assert_eq!(fingerprint_of(&a), fingerprint_of(&a.clone()));
    assert_ne!(fingerprint_of(&a), fingerprint_of(&b));
}

#[test]
fn same_bitmap_resolves_to_same_identity() {
    let mut rec = recorder(HashMap::new(), 0);
    let cap = capture(png(2, 2, 10));
    let first = match rec.lookup(&cap) {
        CursorLookup::Unseen(new, _img) => {
            assert_eq!(new.id, 0);
            assert_eq!(new.file_name, "cursor_0.png");
            assert_eq!(new.hotspot, hotspot());
            rec.commit(new, true)
        }
        _ => panic!("a new decodable bitmap must be unseen"),
    };
    assert_eq!(first, CursorRef::Id(0));
    assert_eq!(rec.response.next_cursor_id, 1);
    assert!(matches!(rec.lookup(&cap), CursorLookup::Known(0)));
    assert_eq!(resolve(&mut rec, &cap, true), CursorRef::Id(0));
    assert_eq!(rec.response.cursors.len(), 1);
    assert_eq!(rec.response.next_cursor_id, 1);
    let c = &rec.response.cursors[&fingerprint_of(&png(2, 2, 10))];
    assert_eq!(c.id, 0);
    assert_eq!(c.file_name, "cursor_0.png");
    assert_eq!(c.hotspot, hotspot());
}

#[test]
fn distinct_bitmaps_get_increasing_identities() {
    let mut rec = recorder(HashMap::new(), 0);
    let a = capture(png(2, 2, 10));
    let b = capture(png(3, 3, 20));
    let c = capture(png(1, 1, 30));
    assert_eq!(resolve(&mut rec, &a, true), CursorRef::Id(0));
    assert_eq!(resolve(&mut rec, &b, true), CursorRef::Id(1));
    assert_eq!(resolve(&mut rec, &a, true), CursorRef::Id(0));
    assert_eq!(resolve(&mut rec, &c, true), CursorRef::Id(2));
    assert_eq!(resolve(&mut rec, &b, true), CursorRef::Id(1));
    assert_eq!(rec.response.next_cursor_id, 3);
}

#[test]
fn seeded_cache_continues_numbering() {
    let mut prev = HashMap::new();
    for i in 0..3u32 {
        prev.insert(
            1000 + i as u64,
            Cursor { file_name: format!("cursor_{}.png", i), id: i, hotspot: hotspot() },
        );
    }
    let mut rec = recorder(prev, 3);
    assert_eq!(resolve(&mut rec, &capture(png(2, 2, 10)), true), CursorRef::Id(3));
    assert_eq!(rec.response.cursors.len(), 4);
    assert_eq!(rec.response.next_cursor_id, 4);
}

#[test]
fn no_capture_falls_back_to_default() {
    let mut rec = recorder(HashMap::new(), 5);
    assert!(matches!(rec.lookup(&None), CursorLookup::Unavailable));
    let cursor = resolve(&mut rec, &None, true);
    assert_eq!(cursor, CursorRef::Default);
    rec.record_tick(mouse(150, 100, &[true, false, false]), time(10), cursor);
    assert_eq!(rec.response.moves.len(), 1);
    assert_eq!(rec.response.moves[0].cursor_id, CursorRef::Default);
    assert_eq!(rec.response.clicks.len(), 1);
    assert_eq!(rec.response.clicks[0].cursor_id, CursorRef::Default);
    assert!(rec.response.cursors.is_empty());
    assert_eq!(rec.response.next_cursor_id, 5);
}

#[test]
fn undecodable_bytes_consume_no_identity() {
    let mut rec = recorder(HashMap::new(), 2);
    let cap = capture(vec![1, 2, 3, 4, 5]);
    assert!(matches!(rec.lookup(&cap), CursorLookup::Unavailable));
    assert_eq!(resolve(&mut rec, &cap, true), CursorRef::Default);
    assert!(rec.response.cursors.is_empty());
    assert_eq!(rec.response.next_cursor_id, 2);
}

#[test]
fn failed_store_consumes_no_identity() {
    let mut rec = recorder(HashMap::new(), 0);
    let cap = capture(png(2, 2, 10));
    assert_eq!(resolve(&mut rec, &cap, false), CursorRef::Default);
    assert!(rec.response.cursors.is_empty());
    assert_eq!(rec.response.next_cursor_id, 0);
    assert_eq!(resolve(&mut rec, &cap, true), CursorRef::Id(0));
}

#[test]
fn exhausted_counter_falls_back_to_default() {
    let mut rec = recorder(HashMap::new(), u32::MAX);
    let cap = capture(png(2, 2, 10));
    assert!(matches!(rec.lookup(&cap), CursorLookup::Unavailable));
    assert_eq!(rec.response.next_cursor_id, u32::MAX);
}

#[test]
fn stale_pending_cursor_is_not_added() {
    let mut rec = recorder(HashMap::new(), 0);
    let a = capture(png(2, 2, 10));
    let pending = match rec.lookup(&a) {
        CursorLookup::Unseen(new, _img) => new,
        _ => panic!("a new decodable bitmap must be unseen"),
    };
    assert_eq!(resolve(&mut rec, &capture(png(3, 3, 20)), true), CursorRef::Id(0));
    assert_eq!(rec.commit(pending, true), CursorRef::Default);
    assert_eq!(rec.response.next_cursor_id, 1);
}

#[test]
fn move_event_maps_into_bounds() {
    let mut rec = recorder(HashMap::new(), 0);
    rec.record_tick(mouse(150, 100, &[false, false, false]), time(2500), CursorRef::Id(4));
    assert_eq!(rec.response.moves.len(), 1);
    let m = &rec.response.moves[0];
    assert_eq!(m.x, Ratio { num: 50, den: 200 });
    assert_eq!(m.y, Ratio { num: 50, den: 100 });
    assert_eq!(m.cursor_id, CursorRef::Id(4));
    assert_eq!(m.process_time_us, 2500);
    assert_eq!(m.unix_time_ms, 1_700_000_000_000);
    assert!(m.active_modifiers.is_empty());
    assert!(rec.response.clicks.is_empty());
}

#[test]
fn unchanged_position_adds_no_move() {
    let mut rec = recorder(HashMap::new(), 0);
    rec.record_tick(mouse(0, 0, &[false, false, false]), time(1), CursorRef::Default);
    assert!(rec.response.moves.is_empty());
    rec.record_tick(mouse(0, 1, &[false, false, false]), time(2), CursorRef::Default);
    rec.record_tick(mouse(0, 1, &[false, false, false]), time(3), CursorRef::Default);
    assert_eq!(rec.response.moves.len(), 1);
}

#[test]
fn positions_outside_bounds_are_not_clamped() {
    let mut rec = recorder(HashMap::new(), 0);
    rec.record_tick(mouse(-20, 400, &[false, false, false]), time(1), CursorRef::Default);
    let m = &rec.response.moves[0];
    assert_eq!(m.x, Ratio { num: -120, den: 200 });
    assert_eq!(m.y, Ratio { num: 350, den: 100 });
}

#[test]
fn button_changes_add_clicks_in_index_order() {
    let mut rec = recorder(HashMap::new(), 0);
    rec.record_tick(mouse(0, 0, &[false, false, true]), time(1), CursorRef::Id(1));
    assert_eq!(rec.response.clicks.len(), 1);
    rec.record_tick(mouse(0, 0, &[true, false, false, true]), time(2), CursorRef::Id(1));
    let clicks = &rec.response.clicks;
    assert_eq!(clicks.len(), 3);
    assert_eq!((clicks[0].cursor_num, clicks[0].down), (2, true));
    assert_eq!((clicks[1].cursor_num, clicks[1].down), (0, true));
    assert_eq!((clicks[2].cursor_num, clicks[2].down), (2, false));
    assert_eq!(clicks[1].x, Ratio { num: -100, den: 200 });
    assert_eq!(clicks[1].process_time_us, 2);
    assert!(rec.response.moves.is_empty());
}

#[test]
fn unchanged_buttons_add_no_click() {
    let mut rec = recorder(HashMap::new(), 0);
    rec.record_tick(mouse(0, 0, &[false, false, false]), time(1), CursorRef::Default);
    rec.record_tick(mouse(0, 0, &[false]), time(2), CursorRef::Default);
    rec.record_tick(mouse(0, 0, &[false, true]), time(3), CursorRef::Default);
    assert!(rec.response.clicks.is_empty());
}

#[test]
fn stop_freezes_the_session() {
    let mut rec = recorder(HashMap::new(), 0);
    assert!(rec.should_sample(false));
    rec.record_tick(mouse(150, 100, &[true, false, false]), time(1), CursorRef::Default);
    assert!(!rec.should_sample(true));
    assert!(!rec.should_sample(false));
    rec.record_tick(mouse(10, 10, &[false, true, false]), time(2), CursorRef::Default);
    assert_eq!(resolve(&mut rec, &capture(png(2, 2, 10)), true), CursorRef::Default);
    let response = rec.finish();
    assert_eq!(response.moves.len(), 1);
    assert_eq!(response.clicks.len(), 1);
    assert!(response.cursors.is_empty());
    assert_eq!(response.next_cursor_id, 0);
}
