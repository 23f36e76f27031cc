use beetle::error::Error;
use beetle::event::{
    translate_message, EventType, KeyInfo, MessageContext, PayloadValue, RawMessage, SignedPoint,
    WindowPos, WindowRegistry, WM_CLOSE, WM_KEYDOWN, WM_KEYUP, WM_PAINT, WM_SYSKEYDOWN,
    WM_WINDOWPOSCHANGED, WM_WINDOWPOSCHANGING,
};
use beetle::geometry::{Point, Rect};
use beetle::keyboard::KeyType;
use beetle::widget::WidgetTree;

const HWND: u64 = 7001;

fn setup(bounds: Rect) -> (WidgetTree, WindowRegistry, u64) {
    let mut tree = WidgetTree::new();
    let w = tree.new_widget(bounds).expect("identity space exhausted");
    let mut registry = WindowRegistry::new();
    registry.register(HWND, w);
    (tree, registry, w)
}

fn plain_msg(message: u32) -> RawMessage {
    RawMessage { hwnd: HWND, message, wparam: 0, lparam: 0, windowpos: None }
}

fn pos_msg(message: u32, x: i32, y: i32, cx: i32, cy: i32) -> RawMessage {
    RawMessage {
        hwnd: HWND,
        message,
        wparam: 0,
        lparam: 0,
        windowpos: Some(WindowPos { x, y, cx, cy }),
    }
}

fn quiet() -> MessageContext {
    MessageContext { ctrl_down: false, alt_down: false, shift_down: false, pointer: None }
}

#[test]
fn close_message_yields_one_close_event() {
    let (mut tree, registry, w) = setup(Rect::new(0, 0, 50, 50));
    let msg = plain_msg(WM_CLOSE);
    let evs = translate_message(&mut tree, &registry, msg, quiet()).unwrap();
    assert_eq!(evs.len(), 1);
    let ev = evs.get(0);
    assert_eq!(ev.target, w);
    assert_eq!(ev.ty, EventType::Close);
    assert_eq!(ev.payload, Vec::<PayloadValue>::new());
    assert_eq!(ev.extra, Some(msg));
}

#[test]
fn paint_message_yields_one_paint_event() {
    let (mut tree, registry, _) = setup(Rect::new(0, 0, 50, 50));
    let msg = plain_msg(WM_PAINT);
    let evs = translate_message(&mut tree, &registry, msg, quiet()).unwrap();
    assert_eq!(evs.len(), 1);
    assert_eq!(evs.get(0).ty, EventType::Paint);
    assert_eq!(evs.get(0).extra, Some(msg));
}

#[test]
fn keydown_shift_a() {
    let (mut tree, registry, _) = setup(Rect::new(0, 0, 50, 50));
    let mut msg = plain_msg(WM_KEYDOWN);
    msg.wparam = 0x41; // virtual-key code for the letter A
    let ctx = MessageContext { shift_down: true, ..quiet() };
    let evs = translate_message(&mut tree, &registry, msg, ctx).unwrap();
    assert_eq!(evs.len(), 1);
    let ev = evs.get(0);
    assert_eq!(ev.ty, EventType::KeyDown);
    assert_eq!(
        ev.payload[0],
        PayloadValue::Key(KeyInfo { key: KeyType::A, ctrl: false, alt: false, shift: true })
    );
    assert_eq!(ev.payload[1], PayloadValue::Location(None));
    assert_eq!(ev.extra, Some(msg));
}

#[test]
fn system_key_variant_translates_alike() {
    let (mut tree, registry, _) = setup(Rect::new(0, 0, 50, 50));
    let mut msg = plain_msg(WM_SYSKEYDOWN);
    msg.wparam = 0x41;
    let evs = translate_message(&mut tree, &registry, msg, quiet()).unwrap();
    assert_eq!(evs.get(0).ty, EventType::KeyDown);
}

#[test]
fn keyup_reports_pointer_location() {
    let (mut tree, registry, _) = setup(Rect::new(0, 0, 50, 50));
    let mut msg = plain_msg(WM_KEYUP);
    msg.wparam = 0x0D; // Enter
    let ctx = MessageContext { pointer: Some(SignedPoint { x: 12, y: 34 }), ..quiet() };
    let evs = translate_message(&mut tree, &registry, msg, ctx).unwrap();
    let ev = evs.get(0);
    assert_eq!(ev.ty, EventType::KeyUp);
    assert_eq!(
        ev.payload[0],
        PayloadValue::Key(KeyInfo { key: KeyType::Enter, ctrl: false, alt: false, shift: false })
    );
    assert_eq!(ev.payload[1], PayloadValue::Location(Some(Point::new(12, 34))));
}

#[test]
fn negative_pointer_degrades_to_no_location() {
    let (mut tree, registry, _) = setup(Rect::new(0, 0, 50, 50));
    let msg = plain_msg(WM_KEYDOWN);
    let ctx = MessageContext { pointer: Some(SignedPoint { x: -5, y: 34 }), ..quiet() };
    let evs = translate_message(&mut tree, &registry, msg, ctx).unwrap();
    assert_eq!(evs.get(0).payload[1], PayloadValue::Location(None));
}

#[test]
fn bounds_changing_then_changed() {
    let (mut tree, registry, w) = setup(Rect::new(0, 0, 50, 50));

    let changing = pos_msg(WM_WINDOWPOSCHANGING, 10, 20, 100, 50);
    let evs = translate_message(&mut tree, &registry, changing, quiet()).unwrap();
    assert_eq!(evs.len(), 1);
    let ev = evs.get(0);
    assert_eq!(ev.ty, EventType::BoundsChanging);
    assert_eq!(ev.payload[0], PayloadValue::Bounds(Rect::new(0, 0, 50, 50)));
    assert_eq!(ev.payload[1], PayloadValue::Bounds(Rect::new(10, 20, 100, 50)));
    assert_eq!(ev.payload[2], PayloadValue::Flags(false, false));
    assert_eq!(ev.extra, Some(changing));

    let changed = pos_msg(WM_WINDOWPOSCHANGED, 10, 20, 100, 50);
    let evs = translate_message(&mut tree, &registry, changed, quiet()).unwrap();
    assert_eq!(evs.len(), 1);
    let ev = evs.get(0);
    assert_eq!(ev.ty, EventType::BoundsChanged);
    assert_eq!(ev.payload[0], PayloadValue::Bounds(Rect::new(0, 0, 50, 50)));
    assert_eq!(ev.payload[1], PayloadValue::Bounds(Rect::new(10, 20, 100, 50)));
    assert_eq!(ev.extra, Some(changed));

    // the scratch slot was consumed: the next bounds-changed degrades
    let again = pos_msg(WM_WINDOWPOSCHANGED, 1, 2, 3, 4);
    let evs = translate_message(&mut tree, &registry, again, quiet()).unwrap();
    assert_eq!(evs.get(0).payload[0], PayloadValue::Bounds(Rect::new(1, 2, 3, 4)));
    let _ = w;
}

#[test]
fn bounds_changing_fills_scratch_slot() {
    let (mut tree, registry, w) = setup(Rect::new(0, 0, 50, 50));
    let changing = pos_msg(WM_WINDOWPOSCHANGING, 10, 20, 100, 50);
    translate_message(&mut tree, &registry, changing, quiet()).unwrap();
    assert_eq!(tree.take_old_bounds(w).unwrap(), Some(Rect::new(0, 0, 50, 50)));
    assert_eq!(tree.take_old_bounds(w).unwrap(), None);
}

#[test]
fn old_bounds_reads_scratch_slot_without_consuming_it() {
    let (mut tree, registry, w) = setup(Rect::new(0, 0, 50, 50));
    assert_eq!(tree.old_bounds(w), Ok(None));
    let changing = pos_msg(WM_WINDOWPOSCHANGING, 10, 20, 100, 50);
    translate_message(&mut tree, &registry, changing, quiet()).unwrap();
    assert_eq!(tree.old_bounds(w), Ok(Some(Rect::new(0, 0, 50, 50))));
    assert_eq!(tree.old_bounds(w), Ok(Some(Rect::new(0, 0, 50, 50))));
    tree.borrow_inner_mut(w).unwrap();
    assert_eq!(tree.old_bounds(w), Err(Error::BorrowConflict));
    tree.release_inner_mut(w);
}

#[test]
fn unresolved_scratch_slot_overwrites_last_write_wins() {
    let (mut tree, registry, w) = setup(Rect::new(0, 0, 50, 50));
    translate_message(&mut tree, &registry, pos_msg(WM_WINDOWPOSCHANGING, 1, 1, 1, 1), quiet())
        .unwrap();
    tree.set_bounds(w, Rect::new(9, 9, 9, 9)).unwrap();
    translate_message(&mut tree, &registry, pos_msg(WM_WINDOWPOSCHANGING, 2, 2, 2, 2), quiet())
        .unwrap();
    let changed = pos_msg(WM_WINDOWPOSCHANGED, 2, 2, 2, 2);
    let evs = translate_message(&mut tree, &registry, changed, quiet()).unwrap();
    assert_eq!(evs.get(0).payload[0], PayloadValue::Bounds(Rect::new(9, 9, 9, 9)));
}

#[test]
fn changed_without_changing_degrades_to_zero_delta() {
    let (mut tree, registry, _) = setup(Rect::new(0, 0, 50, 50));
    let changed = pos_msg(WM_WINDOWPOSCHANGED, 10, 20, 100, 50);
    let evs = translate_message(&mut tree, &registry, changed, quiet()).unwrap();
    assert_eq!(evs.len(), 1);
    let ev = evs.get(0);
    assert_eq!(ev.ty, EventType::BoundsChanged);
    assert_eq!(ev.payload[0], PayloadValue::Bounds(Rect::new(10, 20, 100, 50)));
    assert_eq!(ev.payload[1], PayloadValue::Bounds(Rect::new(10, 20, 100, 50)));
}

#[test]
fn unrecognized_message_yields_noop_carrier() {
    let (mut tree, registry, w) = setup(Rect::new(0, 0, 50, 50));
    let msg = plain_msg(0x9999);
    let evs = translate_message(&mut tree, &registry, msg, quiet()).unwrap();
    assert_eq!(evs.len(), 1);
    let ev = evs.get(0);
    assert_eq!(ev.target, w);
    assert_eq!(ev.ty, EventType::NoOp);
    assert_eq!(ev.payload, Vec::<PayloadValue>::new());
    assert_eq!(ev.extra, Some(msg));
}

#[test]
fn negative_coordinate_is_a_hard_error() {
    let (mut tree, registry, w) = setup(Rect::new(0, 0, 50, 50));
    let bad = pos_msg(WM_WINDOWPOSCHANGING, -10, 20, 100, 50);
    let r = translate_message(&mut tree, &registry, bad, quiet());
    assert_eq!(r.err(), Some(Error::NumericConversion));
    // the failed translation left the widget untouched
    assert_eq!(tree.take_old_bounds(w).unwrap(), None);

    let bad = pos_msg(WM_WINDOWPOSCHANGED, 10, 20, -1, 50);
    let r = translate_message(&mut tree, &registry, bad, quiet());
    assert!(matches!(r, Err(Error::NumericConversion)));
}

#[test]
fn borrowed_record_aborts_position_message() {
    let (mut tree, registry, w) = setup(Rect::new(0, 0, 50, 50));
    tree.borrow_inner_mut(w).unwrap();
    let msg = pos_msg(WM_WINDOWPOSCHANGING, 1, 2, 3, 4);
    let r = translate_message(&mut tree, &registry, msg, quiet());
    assert!(matches!(r, Err(Error::BorrowConflict)));
    tree.release_inner_mut(w);
    assert!(translate_message(&mut tree, &registry, msg, quiet()).is_ok());
}

#[test]
fn shared_borrow_aborts_position_message_before_mutation() {
    let (mut tree, registry, w) = setup(Rect::new(0, 0, 50, 50));
    tree.borrow_inner(w).unwrap();
    let msg = pos_msg(WM_WINDOWPOSCHANGING, 1, 2, 3, 4);
    let r = translate_message(&mut tree, &registry, msg, quiet());
    assert!(matches!(r, Err(Error::BorrowConflict)));
    tree.release_inner(w);
    // the scratch slot was never written
    assert_eq!(tree.take_old_bounds(w).unwrap(), None);
}

#[test]
fn untracked_window_translates_to_nothing() {
    let mut tree = WidgetTree::new();
    tree.new_widget(Rect::new(0, 0, 50, 50)).unwrap();
    let registry = WindowRegistry::new();
    let evs = translate_message(&mut tree, &registry, plain_msg(WM_CLOSE), quiet()).unwrap();
    assert_eq!(evs.len(), 0);
}

#[test]
fn registry_lookup_finds_earliest_entry() {
    let mut registry = WindowRegistry::new();
    registry.register(1, 10);
    registry.register(2, 20);
    registry.register(1, 30);
    assert_eq!(registry.lookup(1), Some(10));
    assert_eq!(registry.lookup(2), Some(20));
    assert_eq!(registry.lookup(3), None);
    registry.unregister(1);
    assert_eq!(registry.lookup(1), None);
    assert_eq!(registry.lookup(2), Some(20));
}

#[test]
fn key_table_spot_checks() {
    assert_eq!(KeyType::from_vk(0x41), KeyType::A);
    assert_eq!(KeyType::from_vk(0x5A), KeyType::Z);
    assert_eq!(KeyType::from_vk(0x0D), KeyType::Enter);
    assert_eq!(KeyType::from_vk(0x30), KeyType::N0);
    assert_eq!(KeyType::from_vk(0x69), KeyType::Numpad9);
    assert_eq!(KeyType::from_vk(0x70), KeyType::F1);
    assert_eq!(KeyType::from_vk(0x87), KeyType::F24);
    assert_eq!(KeyType::from_vk(0xA1), KeyType::RightShift);
    assert_eq!(KeyType::from_vk(0x03), KeyType::Unknown);
    assert_eq!(KeyType::from_vk(0xFFFF), KeyType::Unknown);
}
