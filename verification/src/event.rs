use vstd::prelude::*;

use crate::error::Error;
use crate::geometry::{Point, Rect};
use crate::keyboard::{key_of_vk, KeyType};
use crate::widget::{with_old_bounds, GuardState, WidgetModel, WidgetTree};

verus! {

/// The close-request message kind (Win32 numbering, as all kinds here).
pub const WM_CLOSE: u32 = 0x0010;

/// The repaint-request message kind.
pub const WM_PAINT: u32 = 0x000F;

/// The key-pressed message kind.
pub const WM_KEYDOWN: u32 = 0x0100;

/// The key-released message kind.
pub const WM_KEYUP: u32 = 0x0101;

/// The system-key-pressed message kind, translated like `WM_KEYDOWN`.
pub const WM_SYSKEYDOWN: u32 = 0x0104;

/// The system-key-released message kind, translated like `WM_KEYUP`.
pub const WM_SYSKEYUP: u32 = 0x0105;

/// The position-changing message kind: the window is about to move or
/// resize.
pub const WM_WINDOWPOSCHANGING: u32 = 0x0046;

/// The position-changed message kind: the window has moved or resized.
pub const WM_WINDOWPOSCHANGED: u32 = 0x0047;

/// The closed set of event kinds this core translates to.
///
/// `NoOp` signals no semantic event: it exists solely to carry an
/// otherwise-unrecognized raw message to the consumer.
#[derive(Clone, Copy, Debug, PartialEq, Eq, Structural)]
pub enum EventType {
    Close,
    Paint,
    KeyUp,
    KeyDown,
    BoundsChanging,
    BoundsChanged,
    NoOp,
}

/// Decoded keystroke information: the key and the modifier flags that were
/// held when the message was generated.
#[derive(Clone, Copy, Debug, PartialEq, Eq, Structural)]
pub struct KeyInfo {
    pub key: KeyType,
    pub ctrl: bool,
    pub alt: bool,
    pub shift: bool,
}

impl KeyInfo {
    /// Keystroke information for the given key with no modifiers held.
    pub fn new(key: KeyType) -> (k: KeyInfo)
        ensures
            k == (KeyInfo { key, ctrl: false, alt: false, shift: false }),
    {
        KeyInfo { key, ctrl: false, alt: false, shift: false }
    }

    /// Set the control-modifier flag.
    pub fn set_ctrl(&mut self, ctrl: bool)
        ensures
            *final(self) == (KeyInfo { ctrl, ..*old(self) }),
    {
        self.ctrl = ctrl;
    }

    /// Set the alt-modifier flag.
    pub fn set_alt(&mut self, alt: bool)
        ensures
            *final(self) == (KeyInfo { alt, ..*old(self) }),
    {
        self.alt = alt;
    }

    /// Set the shift-modifier flag.
    pub fn set_shift(&mut self, shift: bool)
        ensures
            *final(self) == (KeyInfo { shift, ..*old(self) }),
    {
        self.shift = shift;
    }
}

/// The position payload embedded in a position-changing or
/// position-changed message, in the platform's signed representation.
#[derive(Clone, Copy, Debug, PartialEq, Eq, Structural)]
pub struct WindowPos {
    pub x: i32,
    pub y: i32,
    pub cx: i32,
    pub cy: i32,
}

/// A pointer position in the platform's signed client-area coordinates.
#[derive(Clone, Copy, Debug, PartialEq, Eq, Structural)]
pub struct SignedPoint {
    pub x: i32,
    pub y: i32,
}

/// A raw window-system message: the window handle, the message kind, and
/// the two word-sized parameters. For position messages the second
/// parameter points at a position structure that only the platform layer
/// can follow, so that layer decodes it into `windowpos` before the
/// message reaches the translator.
#[derive(Clone, Copy, Debug, PartialEq)]
pub struct RawMessage {
    pub hwnd: u64,
    pub message: u32,
    pub wparam: u64,
    pub lparam: i64,
    pub windowpos: Option<WindowPos>,
}

/// What the translator needs from the platform beside the message itself:
/// the modifier key states, and the pointer position relative to the
/// target widget's client area. Each is queried at translation time by
/// the embedding; a failed pointer query is `None` and degrades the
/// location payload rather than aborting the translation.
#[derive(Clone, Copy, Debug)]
pub struct MessageContext {
    pub ctrl_down: bool,
    pub alt_down: bool,
    pub shift_down: bool,
    pub pointer: Option<SignedPoint>,
}

/// One typed payload value of an event.
#[derive(Clone, Copy, Debug, PartialEq)]
pub enum PayloadValue {
    /// A rectangle: the old or new bounds of a bounds event.
    Bounds(Rect),
    /// The keystroke information of a key event.
    Key(KeyInfo),
    /// The pointer location of a key event, if it could be resolved.
    Location(Option<Point>),
    /// The policy flags of a bounds-changing event: that it came from the
    /// platform loop rather than being synthesized, and that no derived
    /// bounds-changed event should be emitted for it.
    Flags(bool, bool),
}

/// A translated event: the target widget, the event type, the ordered
/// payload values, and optionally the originating raw message as
/// trailing metadata.
#[derive(Clone, Debug, PartialEq)]
pub struct Event {
    pub target: u64,
    pub ty: EventType,
    pub payload: Vec<PayloadValue>,
    pub extra: Option<RawMessage>,
}

impl Event {
    /// An event with the given target, type and payload, and no metadata
    /// attached yet.
    pub fn new(target: u64, ty: EventType, payload: Vec<PayloadValue>) -> (e: Event)
        ensures
            e.target == target,
            e.ty == ty,
            e.payload == payload,
            e.extra is None,
    {
        Event { target, ty, payload, extra: None }
    }

    /// Attach the originating raw message as trailing metadata.
    pub fn set_extra_evdata(&mut self, msg: RawMessage)
        ensures
            *final(self) == (Event { extra: Some(msg), ..*old(self) }),
    {
        self.extra = Some(msg);
    }
}

/// The ordered sequence of events one message translates to. It is
/// backed by a vector with inline capacity for two events, since nearly
/// every message translates to at most two.
#[verifier::external_body]
pub struct EventSeq {
    inner: smallvec::SmallVec<[Event; 2]>,
}

/// The events an `EventSeq` holds, in order.
pub uninterp spec fn events_of(s: EventSeq) -> Seq<Event>;

impl EventSeq {
    /// Relies on smallvec::SmallVec::new: the new vector is empty.
    #[verifier::external_body]
    pub fn new() -> (r: EventSeq)
        ensures
            events_of(r) == Seq::<Event>::empty(),
    {
        EventSeq { inner: smallvec::SmallVec::new() }
    }

    /// Relies on smallvec::SmallVec::push: the value is appended at the
    /// end and nothing else changes.
    #[verifier::external_body]
    pub fn push(&mut self, e: Event)
        ensures
            events_of(*final(self)) == events_of(*old(self)).push(e),
    {
        self.inner.push(e);
    }

    /// Relies on smallvec::SmallVec::len: the number of stored events.
    #[verifier::external_body]
    pub fn len(&self) -> (n: usize)
        ensures
            n == events_of(*self).len(),
    {
        self.inner.len()
    }

    /// Relies on smallvec's `Index` impl: the element at the index.
    #[verifier::external_body]
    pub fn get(&self, i: usize) -> (r: &Event)
        requires
            i < events_of(*self).len(),
        ensures
            *r == events_of(*self)[i as int],
    {
        &self.inner[i]
    }
}

/// The first widget registered for the handle, if any: the process-wide
/// window registry is append/lookup/remove only, and lookup finds the
/// earliest surviving entry.
pub open spec fn registry_lookup(entries: Seq<(u64, u64)>, hwnd: u64) -> Option<u64>
    decreases entries.len(),
{
    if entries.len() == 0 {
        None
    } else if entries[0].0 == hwnd {
        Some(entries[0].1)
    } else {
        registry_lookup(entries.drop_first(), hwnd)
    }
}

/// The window registry: which widget owns which window handle. The
/// translator only reads it; the embedding appends an entry when a
/// window is realized and removes it when the window goes away.
#[derive(Debug)]
pub struct WindowRegistry {
    entries: Vec<(u64, u64)>,
}

impl View for WindowRegistry {
    type V = Seq<(u64, u64)>;

    closed spec fn view(&self) -> Seq<(u64, u64)> {
        self.entries@
    }
}

impl WindowRegistry {
    /// An empty registry.
    pub fn new() -> (r: WindowRegistry)
        ensures
            r@ =~= Seq::<(u64, u64)>::empty(),
    {
        WindowRegistry { entries: Vec::new() }
    }

    /// Append an entry mapping the handle to the widget.
    pub fn register(&mut self, hwnd: u64, widget: u64)
        ensures
            final(self)@ =~= old(self)@.push((hwnd, widget)),
    {
        self.entries.push((hwnd, widget));
    }

    /// The widget registered for the handle, if any.
    pub fn lookup(&self, hwnd: u64) -> (r: Option<u64>)
        ensures
            r == registry_lookup(self@, hwnd),
    {
        let n = self.entries.len();
        let mut i: usize = 0;
        proof {
            assert(self.entries@.skip(0) =~= self.entries@);
        }
        while i < n
            invariant
                n == self.entries@.len(),
                i <= n,
                registry_lookup(self@, hwnd) == registry_lookup(
                    self.entries@.skip(i as int),
                    hwnd,
                ),
            decreases n - i,
        {
            let e = self.entries[i];
            proof {
                assert(self.entries@.skip(i as int)[0] == self.entries@[i as int]);
                assert(self.entries@.skip(i as int).drop_first() =~= self.entries@.skip(
                    i as int + 1,
                ));
            }
            if e.0 == hwnd {
                return Some(e.1);
            }
            i += 1;
        }
        proof {
            assert(self.entries@.skip(n as int) =~= Seq::<(u64, u64)>::empty());
        }
        None
    }

    /// Remove every entry for the handle.
    pub fn unregister(&mut self, hwnd: u64)
        ensures
            final(self)@ =~= old(self)@.filter(|e: (u64, u64)| e.0 != hwnd),
    {
        let n = self.entries.len();
        let mut kept: Vec<(u64, u64)> = Vec::new();
        let mut i: usize = 0;
        while i < n
            invariant
                n == self.entries@.len(),
                i <= n,
                kept@ =~= self.entries@.take(i as int).filter(|e: (u64, u64)| e.0 != hwnd),
            decreases n - i,
        {
            let e = self.entries[i];
            proof {
                let pred = |e: (u64, u64)| e.0 != hwnd;
                let t = self.entries@.take(i as int + 1);
                assert(t.drop_last() =~= self.entries@.take(i as int));
                assert(t.last() == self.entries@[i as int]);
                reveal_with_fuel(Seq::filter, 2);
                assert(t.filter(pred) == if pred(t.last()) {
                    t.drop_last().filter(pred).push(t.last())
                } else {
                    t.drop_last().filter(pred)
                });
            }
            if e.0 != hwnd {
                kept.push(e);
            }
            i += 1;
        }
        proof {
            assert(self.entries@.take(n as int) =~= self.entries@);
        }
        self.entries = kept;
    }
}

/// Whether a message kind is one of the four key-stroke kinds. The
/// normal and the system variant of each are translated alike.
pub open spec fn is_key_message(m: u32) -> bool {
    m == WM_KEYUP || m == WM_SYSKEYUP || m == WM_KEYDOWN || m == WM_SYSKEYDOWN
}

/// Whether a message kind carries a position payload.
pub open spec fn is_position_message(m: u32) -> bool {
    m == WM_WINDOWPOSCHANGING || m == WM_WINDOWPOSCHANGED
}

/// Whether every component of a position payload fits the unsigned
/// internal representation.
pub open spec fn windowpos_in_range(wp: WindowPos) -> bool {
    wp.x >= 0 && wp.y >= 0 && wp.cx >= 0 && wp.cy >= 0
}

/// The internal rectangle a position payload converts to.
pub open spec fn rect_of_windowpos(wp: WindowPos) -> Rect {
    Rect { x: wp.x as u32, y: wp.y as u32, width: wp.cx as u32, height: wp.cy as u32 }
}

/// Which event type a key-stroke message kind translates to.
pub open spec fn key_event_type(m: u32) -> EventType {
    if m == WM_KEYUP || m == WM_SYSKEYUP {
        EventType::KeyUp
    } else {
        EventType::KeyDown
    }
}

/// The location payload of a key event: the queried pointer position if
/// the query succeeded and both coordinates fit the unsigned internal
/// representation, and "no location" otherwise.
pub open spec fn client_location(p: Option<SignedPoint>) -> Option<Point> {
    match p {
        Some(sp) => if sp.x >= 0 && sp.y >= 0 {
            Some(Point { x: sp.x as u32, y: sp.y as u32 })
        } else {
            None
        },
        None => None,
    }
}

/// The keystroke payload of a key event: the key the message's first
/// parameter decodes to through the key-symbol table, and the queried
/// modifier states.
pub open spec fn key_info_of(msg: RawMessage, ctx: MessageContext) -> KeyInfo {
    KeyInfo {
        key: key_of_vk(msg.wparam),
        ctrl: ctx.ctrl_down,
        alt: ctx.alt_down,
        shift: ctx.shift_down,
    }
}

/// That `e` is the given event with the raw message attached.
pub open spec fn event_is(
    e: Event,
    target: u64,
    ty: EventType,
    payload: Seq<PayloadValue>,
    msg: RawMessage,
) -> bool {
    &&& e.target == target
    &&& e.ty == ty
    &&& e.payload@ =~= payload
    &&& e.extra == Some(msg)
}

/// The one event a successfully translated message produces, given the
/// tree model `m` and the resolved target widget `w`: what kind it is,
/// what its payload holds, and that it carries the raw message.
pub open spec fn translated_event(
    m: Map<u64, WidgetModel>,
    w: u64,
    msg: RawMessage,
    ctx: MessageContext,
    e: Event,
) -> bool {
    if msg.message == WM_CLOSE {
        event_is(e, w, EventType::Close, Seq::empty(), msg)
    } else if msg.message == WM_PAINT {
        event_is(e, w, EventType::Paint, Seq::empty(), msg)
    } else if is_key_message(msg.message) {
        event_is(
            e,
            w,
            key_event_type(msg.message),
            seq![
                PayloadValue::Key(key_info_of(msg, ctx)),
                PayloadValue::Location(client_location(ctx.pointer)),
            ],
            msg,
        )
    } else if msg.message == WM_WINDOWPOSCHANGING {
        event_is(
            e,
            w,
            EventType::BoundsChanging,
            seq![
                PayloadValue::Bounds(m[w].bounds),
                PayloadValue::Bounds(rect_of_windowpos(msg.windowpos.unwrap())),
                PayloadValue::Flags(false, false),
            ],
            msg,
        )
    } else if msg.message == WM_WINDOWPOSCHANGED {
        let new_bounds = rect_of_windowpos(msg.windowpos.unwrap());
        let old_bounds = match m[w].old_bounds {
            Some(ob) => ob,
            None => new_bounds,
        };
        event_is(
            e,
            w,
            EventType::BoundsChanged,
            seq![PayloadValue::Bounds(old_bounds), PayloadValue::Bounds(new_bounds)],
            msg,
        )
    } else {
        event_is(e, w, EventType::NoOp, Seq::empty(), msg)
    }
}

/// What translating a message does to the widget tree: a
/// position-changing message fills the target's scratch slot with its
/// current bounds, a position-changed message empties the slot, and
/// every other message leaves the tree alone.
pub open spec fn translated_tree(m: Map<u64, WidgetModel>, w: u64, msg: RawMessage) -> Map<
    u64,
    WidgetModel,
> {
    if msg.message == WM_WINDOWPOSCHANGING {
        m.insert(w, with_old_bounds(m[w], Some(m[w].bounds)))
    } else if msg.message == WM_WINDOWPOSCHANGED {
        m.insert(w, with_old_bounds(m[w], None))
    } else {
        m
    }
}

/// Which error, if any, aborts the translation of a message aimed at
/// widget `w`: a position payload that does not fit the unsigned
/// representation, or, after that check, a position message whose target
/// record is borrowed. No other message kind can fail.
pub open spec fn translation_error(m: Map<u64, WidgetModel>, w: u64, msg: RawMessage) -> Option<
    Error,
> {
    if is_position_message(msg.message) {
        if !windowpos_in_range(msg.windowpos.unwrap()) {
            Some(Error::NumericConversion)
        } else if m[w].guard != GuardState::Free {
            Some(Error::BorrowConflict)
        } else {
            None
        }
    } else {
        None
    }
}

/// A position-changed message that arrives while the target's scratch
/// slot is empty — no position-changing message stored old bounds first —
/// degrades to a zero-delta change instead of failing: translation
/// succeeds (provided the record carries no outstanding borrow, since a
/// borrow conflict aborts any position message), the one event reports
/// the new bounds as both old and new bounds, and the slot stays empty.
pub proof fn lemma_changed_without_prior_changing(
    m: Map<u64, WidgetModel>,
    w: u64,
    msg: RawMessage,
    ctx: MessageContext,
    e: Event,
)
    requires
        msg.message == WM_WINDOWPOSCHANGED,
        msg.windowpos is Some,
        windowpos_in_range(msg.windowpos.unwrap()),
        m.dom().contains(w),
        m[w].old_bounds is None,
        m[w].guard == GuardState::Free,
        translated_event(m, w, msg, ctx, e),
    ensures
        translation_error(m, w, msg) is None,
        e.ty == EventType::BoundsChanged,
        e.payload@ =~= seq![
            PayloadValue::Bounds(rect_of_windowpos(msg.windowpos.unwrap())),
            PayloadValue::Bounds(rect_of_windowpos(msg.windowpos.unwrap())),
        ],
        e.extra == Some(msg),
        translated_tree(m, w, msg)[w].old_bounds is None,
{
}

/// Translate one raw window-system message into events.
///
/// The target widget is resolved through the registry; a message for an
/// untracked window translates to no events at all, which is not an
/// error. Otherwise exactly one event comes out, always carrying the raw
/// message as trailing metadata — a `NoOp` event exists solely to carry
/// the message of an unrecognized kind, so that a consumer that must
/// account for every raw message never loses one. Only a numeric
/// conversion failure or a borrow conflict on the target's record aborts
/// a translation, and an aborted translation leaves the tree unchanged.
pub fn translate_message(
    tree: &mut WidgetTree,
    registry: &WindowRegistry,
    msg: RawMessage,
    ctx: MessageContext,
) -> (r: Result<EventSeq, Error>)
    requires
        old(tree).wf(),
        match registry_lookup(registry@, msg.hwnd) {
            Some(w) => old(tree)@.dom().contains(w),
            None => true,
        },
        is_position_message(msg.message) ==> msg.windowpos is Some,
    ensures
        final(tree).wf(),
        match registry_lookup(registry@, msg.hwnd) {
            None => match r {
                Ok(evs) => events_of(evs).len() == 0 && final(tree)@ == old(tree)@,
                Err(_) => false,
            },
            Some(w) => match translation_error(old(tree)@, w, msg) {
                Some(err) => match r {
                    Ok(_) => false,
                    Err(e) => e == err && final(tree)@ == old(tree)@,
                },
                None => match r {
                    Ok(evs) => {
                        &&& events_of(evs).len() == 1
                        &&& translated_event(old(tree)@, w, msg, ctx, events_of(evs)[0])
                        &&& final(tree)@ =~= translated_tree(old(tree)@, w, msg)
                    },
                    Err(_) => false,
                },
            },
        },
{
    let mut evs = EventSeq::new();
    let w = match registry.lookup(msg.hwnd) {
        Some(w) => w,
        None => {
            return Ok(evs);
        },
    };
    if msg.message == WM_CLOSE {
        let mut ev = Event::new(w, EventType::Close, Vec::new());
        ev.set_extra_evdata(msg);
        evs.push(ev);
        Ok(evs)
    } else if msg.message == WM_PAINT {
        let mut ev = Event::new(w, EventType::Paint, Vec::new());
        ev.set_extra_evdata(msg);
        evs.push(ev);
        Ok(evs)
    } else if msg.message == WM_KEYUP || msg.message == WM_SYSKEYUP || msg.message == WM_KEYDOWN
        || msg.message == WM_SYSKEYDOWN {
        let mut ki = KeyInfo::new(KeyType::from_vk(msg.wparam));
        ki.set_ctrl(ctx.ctrl_down);
        ki.set_alt(ctx.alt_down);
        ki.set_shift(ctx.shift_down);
        let loc: Option<Point> = match ctx.pointer {
            Some(sp) => {
                if sp.x >= 0 && sp.y >= 0 {
                    Some(Point::new(sp.x as u32, sp.y as u32))
                } else {
                    None
                }
            },
            None => None,
        };
        let ty = if msg.message == WM_KEYUP || msg.message == WM_SYSKEYUP {
            EventType::KeyUp
        } else {
            EventType::KeyDown
        };
        let mut payload: Vec<PayloadValue> = Vec::new();
        payload.push(PayloadValue::Key(ki));
        payload.push(PayloadValue::Location(loc));
        let mut ev = Event::new(w, ty, payload);
        ev.set_extra_evdata(msg);
        evs.push(ev);
        proof {
            assert(events_of(evs)[0].payload@ =~= seq![
                PayloadValue::Key(key_info_of(msg, ctx)),
                PayloadValue::Location(client_location(ctx.pointer)),
            ]);
        }
        Ok(evs)
    } else if msg.message == WM_WINDOWPOSCHANGING {
        let wp = match msg.windowpos {
            Some(wp) => wp,
            None => {
                proof {
                    assert(false);
                }
                return Err(Error::NumericConversion);
            },
        };
        if wp.x < 0 || wp.y < 0 || wp.cx < 0 || wp.cy < 0 {
            return Err(Error::NumericConversion);
        }
        let new_bounds = Rect::new(wp.x as u32, wp.y as u32, wp.cx as u32, wp.cy as u32);
        let old_bounds = match tree.bounds(w) {
            Ok(b) => b,
            Err(e) => {
                return Err(e);
            },
        };
        match tree.store_old_bounds(w) {
            Ok(()) => {},
            Err(e) => {
                return Err(e);
            },
        }
        let mut payload: Vec<PayloadValue> = Vec::new();
        payload.push(PayloadValue::Bounds(old_bounds));
        payload.push(PayloadValue::Bounds(new_bounds));
        payload.push(PayloadValue::Flags(false, false));
        let mut ev = Event::new(w, EventType::BoundsChanging, payload);
        ev.set_extra_evdata(msg);
        evs.push(ev);
        proof {
            assert(events_of(evs)[0].payload@ =~= seq![
                PayloadValue::Bounds(old(tree)@[w].bounds),
                PayloadValue::Bounds(rect_of_windowpos(msg.windowpos.unwrap())),
                PayloadValue::Flags(false, false),
            ]);
        }
        Ok(evs)
    } else if msg.message == WM_WINDOWPOSCHANGED {
        let wp = match msg.windowpos {
            Some(wp) => wp,
            None => {
                proof {
                    assert(false);
                }
                return Err(Error::NumericConversion);
            },
        };
        if wp.x < 0 || wp.y < 0 || wp.cx < 0 || wp.cy < 0 {
            return Err(Error::NumericConversion);
        }
        let new_bounds = Rect::new(wp.x as u32, wp.y as u32, wp.cx as u32, wp.cy as u32);
        let taken = match tree.take_old_bounds(w) {
            Ok(t) => t,
            Err(e) => {
                return Err(e);
            },
        };
        let old_bounds = match taken {
            Some(ob) => ob,
            None => new_bounds,
        };
        let mut payload: Vec<PayloadValue> = Vec::new();
        payload.push(PayloadValue::Bounds(old_bounds));
        payload.push(PayloadValue::Bounds(new_bounds));
        let mut ev = Event::new(w, EventType::BoundsChanged, payload);
        ev.set_extra_evdata(msg);
        evs.push(ev);
        proof {
            assert(events_of(evs)[0].payload@ =~= seq![
                PayloadValue::Bounds(
                    match old(tree)@[w].old_bounds {
                        Some(ob) => ob,
                        None => rect_of_windowpos(msg.windowpos.unwrap()),
                    },
                ),
                PayloadValue::Bounds(rect_of_windowpos(msg.windowpos.unwrap())),
            ]);
        }
        Ok(evs)
    } else {
        let mut ev = Event::new(w, EventType::NoOp, Vec::new());
        ev.set_extra_evdata(msg);
        evs.push(ev);
        Ok(evs)
    }
}

} // verus!
