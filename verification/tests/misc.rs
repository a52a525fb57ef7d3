use kyute::drawing::{BorderPosition, InterpolationColorSpace, RepeatMode, TemplateEntry};
use kyute::elements::{
    ActivatedEvent, ClickedEvent, ElementId, ElementState, ElementStateChanged, FrameEmit, FrameState,
    HoveredEvent, PointerEvent,
};
use kyute::focus::{FocusChange, FocusState};
use kyute::layout::{Axis, CrossAxisAlignment, LayoutCacheEntry};
use kyute::platform::{clock_tick, should_redraw, wake_event_loop, EventLoopWakeReason, INPUT_DELAY_MS};
use kyute::rc_cell::{is_reading, is_writing, BorrowError, BorrowMutError, RcCell, UniqueRcCell, UNUSED};
use kyute::selection::Selection;
use kyute::style::{FontStyle, FontWeight};

#[test]
fn selection_basics() {
    let s = Selection { start: 7, end: 3 };
    assert_eq!(s.min(), 3);
    assert_eq!(s.max(), 7);
    assert!(!s.is_empty());
    assert_eq!(s.byte_range(), 3..7);
    assert!(Selection::empty(4).is_empty());
    assert_eq!(s.clamp(0..5), Selection { start: 5, end: 3 });
    assert_eq!(s.clamp(4..10), Selection { start: 7, end: 4 });
    assert_eq!(Selection::default(), Selection::empty(0));
}

#[test]
fn rc_cell_locks() {
    let mut c = RcCell::new(5);
    assert_eq!(c.borrow_flag(), UNUSED);
    assert!(c.try_lock_read());
    assert!(c.try_lock_read());
    assert_eq!(c.borrow_flag(), 2);
    assert!(is_reading(c.borrow_flag()));
    assert!(!c.try_lock_write());
    assert!(c.try_borrow_unguarded().is_ok());
    c.unlock_read();
    c.unlock_read();
    assert!(c.try_lock_write());
    assert!(is_writing(c.borrow_flag()));
    assert!(!c.try_lock_read());
    assert!(c.try_borrow_unguarded().is_err());
    c.unlock_write();
    assert_eq!(c.borrow_flag(), UNUSED);
    assert_eq!(*c.get(), 5);
}

#[test]
fn borrow_errors_have_messages() {
    assert_eq!(BorrowError.message(), "already mutably borrowed");
    assert_eq!(BorrowMutError.message(), "already borrowed");
}

#[test]
fn unique_rc_cell() {
    let mut c = UniqueRcCell::new(String::from("x"));
    assert_eq!(c.get(), "x");
    c.get_mut().push('y');
    assert_eq!(c.get(), "xy");
    let w = c.weak();
    // the cell is unique: its weak handles do not upgrade
    assert!(w.upgrade().is_none());
    drop(c);
    assert!(w.upgrade().is_none());
}

#[test]
fn focus_changes() {
    let mut f = FocusState::new();
    assert_eq!(f.get_keyboard_focus(), None);
    assert_eq!(f.set_keyboard_focus(1), FocusChange { lost: None, gained: Some(1) });
    assert_eq!(f.set_keyboard_focus(1), FocusChange { lost: None, gained: None });
    assert_eq!(f.set_keyboard_focus(2), FocusChange { lost: Some(1), gained: Some(2) });
    assert_eq!(f.clear_keyboard_focus(), Some(2));
    assert_eq!(f.get_keyboard_focus(), None);
    assert_eq!(f.clear_keyboard_focus(), None);
}

#[test]
fn clock_ticks_are_coalesced() {
    let mut pending = false;
    assert!(wake_event_loop(EventLoopWakeReason::CompositorClockTick, &mut pending));
    assert!(pending);
    assert!(!wake_event_loop(EventLoopWakeReason::CompositorClockTick, &mut pending));
    assert!(wake_event_loop(EventLoopWakeReason::DispatchCallbacks, &mut pending));
    assert!(wake_event_loop(EventLoopWakeReason::Redraw, &mut pending));
}

#[test]
fn layout_enums() {
    assert_eq!(Axis::Horizontal.cross(), Axis::Vertical);
    assert_eq!(Axis::Vertical.cross(), Axis::Horizontal);
    assert_eq!(Axis::default().cross().cross(), Axis::default());
    assert_eq!(LayoutCacheEntry::FullySpecified.index(), 0);
    assert_eq!(LayoutCacheEntry::WidthInfinite.index(), 1);
    let _ = CrossAxisAlignment::default();
}

#[test]
fn font_weights() {
    assert_eq!(FontWeight::parse("bold"), Ok(FontWeight(700)));
    assert_eq!(FontWeight::parse("semi-bold"), Ok(FontWeight::semi_bold()));
    assert_eq!(FontWeight::parse("450"), Ok(FontWeight(450)));
    assert!(FontWeight::parse("heavy").is_err());
    assert!(FontWeight::parse("70000").is_err());
    assert_eq!("black".parse::<FontWeight>(), Ok(FontWeight(900)));
    assert_eq!(FontWeight::default(), FontWeight::normal());
    assert_eq!(FontWeight::regular(), FontWeight(400));
    assert_eq!(FontStyle::default(), FontStyle::Normal);
}

#[test]
fn element_state_flags() {
    let mut s = ElementState::default();
    assert!(!s.is_active() && !s.is_hovered() && !s.is_focused());
    s.set_active(true);
    s.set_focused(true);
    assert!(s.is_active() && s.is_focused() && !s.is_hovered());
    assert_eq!(s.bits(), ElementState::ACTIVE | ElementState::FOCUSED);
    s.set_active(false);
    assert!(!s.is_active() && s.is_focused());
    s.set_hovered(true);
    assert!(s.contains(ElementState::HOVERED));
    assert_eq!(s.bits(), 0b110);
}

#[test]
fn frame_reacts_to_the_pointer() {
    let mut f = FrameState { state: ElementState::empty(), state_affects_style: true, style_changed: false };
    let (emitted, paint) = f.event(PointerEvent::PointerEnter);
    assert!(f.state.is_hovered());
    assert_eq!(emitted, vec![FrameEmit::StateChanged(f.state), FrameEmit::Hovered(true)]);
    assert!(paint && f.style_changed);
    let (emitted, _) = f.event(PointerEvent::PointerDown);
    assert!(f.state.is_active());
    assert_eq!(emitted, vec![FrameEmit::StateChanged(f.state), FrameEmit::Activated(true)]);
    let (emitted, _) = f.event(PointerEvent::PointerUp);
    assert_eq!(emitted, vec![FrameEmit::Activated(false), FrameEmit::StateChanged(f.state), FrameEmit::Clicked]);
    let (emitted, _) = f.event(PointerEvent::PointerLeave);
    assert!(!f.state.is_hovered());
    assert_eq!(emitted, vec![FrameEmit::StateChanged(f.state), FrameEmit::Hovered(false)]);
    let (emitted, paint) = f.event(PointerEvent::Other);
    assert!(emitted.is_empty() && !paint);
}

#[test]
fn releasing_an_inactive_frame_does_nothing() {
    let mut f = FrameState { state: ElementState::empty(), state_affects_style: false, style_changed: false };
    let (emitted, paint) = f.event(PointerEvent::PointerUp);
    assert!(emitted.is_empty() && !paint && !f.style_changed);
}

#[test]
fn element_events() {
    let id = ElementId(3);
    assert_eq!(ElementId::default(), ElementId(0));
    assert_eq!(ClickedEvent(id).0, id);
    assert!(HoveredEvent(id, true).1);
    assert!(!ActivatedEvent(id, false).1);
    assert_eq!(ElementStateChanged(id, ElementState::empty()).1.bits(), 0);
}

#[test]
fn drawing_options() {
    assert_ne!(BorderPosition::Inside, BorderPosition::Outside);
    assert!(RepeatMode::Repeat < RepeatMode::NoRepeat);
    assert_eq!(InterpolationColorSpace::default(), InterpolationColorSpace::SrgbLinear);
    let e = TemplateEntry { name: "button" };
    assert_eq!(e.name, "button");
}

#[test]
fn redraw_waits_for_the_render_start() {
    let mut timers = kyute::application::Timers::new();
    let start = clock_tick(1000, &mut timers);
    assert_eq!(start, 1000 + INPUT_DELAY_MS);
    assert_eq!(start, 1010);
    assert_eq!(timers.len(), 1);
    assert_eq!(timers.next_deadline(), Some(1010));
    let mut pending = true;
    assert!(!should_redraw(&mut pending, start, 1005));
    assert!(pending);
    assert!(should_redraw(&mut pending, start, 1010));
    assert!(!pending);
    // nothing pending: no redraw
    assert!(!should_redraw(&mut pending, start, 2000));
}
