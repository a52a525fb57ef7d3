use kyute::selection::{add_selections, Selection};
use kyute::style::TextAlign;
use kyute::text_edit::{
    EditEvent, EditKey, TextEditBase, TextEditEventFlags, TextOverflow, WrapMode,
};
use kyute::text_units::{
    char_is_whitespace, char_is_word, char_len_utf16, char_len_utf8, chars_vec, next_word_boundary,
    prev_word_boundary, utf16_to_utf8_offset, utf8_to_utf16_offset,
};

#[test]
fn utf8_to_utf16_conversions() {
    let text = "aé😀b";
    // byte offsets: a=0, é=1..3, 😀=3..7, b=7..8
    assert_eq!(utf8_to_utf16_offset(text, 0), 0);
    assert_eq!(utf8_to_utf16_offset(text, 1), 1);
    assert_eq!(utf8_to_utf16_offset(text, 3), 2);
    assert_eq!(utf8_to_utf16_offset(text, 7), 4);
    assert_eq!(utf8_to_utf16_offset(text, 8), 5);
    // not on a boundary, or past the end: the UTF-16 length of the text
    assert_eq!(utf8_to_utf16_offset(text, 2), 5);
    assert_eq!(utf8_to_utf16_offset(text, 100), 5);
}

#[test]
fn utf16_to_utf8_conversions() {
    let text = "aé😀b";
    assert_eq!(utf16_to_utf8_offset(text, 0), 0);
    assert_eq!(utf16_to_utf8_offset(text, 1), 1);
    assert_eq!(utf16_to_utf8_offset(text, 2), 3);
    assert_eq!(utf16_to_utf8_offset(text, 4), 7);
    assert_eq!(utf16_to_utf8_offset(text, 5), 8);
    // inside the surrogate pair of 😀, or past the end: the byte length
    assert_eq!(utf16_to_utf8_offset(text, 3), 8);
    assert_eq!(utf16_to_utf8_offset(text, 9), 8);
}

#[test]
fn conversions_round_trip_on_boundaries() {
    let text = "héllo wörld 😀!";
    for (i, _) in text.char_indices() {
        let u16_off = utf8_to_utf16_offset(text, i);
        assert_eq!(utf16_to_utf8_offset(text, u16_off), i);
    }
}

#[test]
fn char_widths() {
    assert_eq!(char_len_utf8('a'), 1);
    assert_eq!(char_len_utf8('é'), 2);
    assert_eq!(char_len_utf8('€'), 3);
    assert_eq!(char_len_utf8('😀'), 4);
    assert_eq!(char_len_utf16('€'), 1);
    assert_eq!(char_len_utf16('😀'), 2);
    for c in ['a', 'é', '€', '😀', '\u{FFFF}', '\u{10000}'] {
        assert_eq!(char_len_utf8(c), c.len_utf8());
        assert_eq!(char_len_utf16(c), c.len_utf16());
    }
}

#[test]
fn whitespace_matches_std() {
    for v in 0u32..0x3100 {
        if let Some(c) = char::from_u32(v) {
            assert_eq!(char_is_whitespace(c), c.is_whitespace(), "{:x}", v);
        }
    }
}

#[test]
fn chars_in_order() {
    assert_eq!(chars_vec("aé😀"), vec!['a', 'é', '😀']);
}

#[test]
fn word_boundaries_forward() {
    let text = "hello  world, foo";
    assert_eq!(next_word_boundary(text, 0), 5);
    assert_eq!(next_word_boundary(text, 5), 12);
    // a punctuation character is a word of its own
    assert_eq!(next_word_boundary(text, 12), 13);
    assert_eq!(next_word_boundary(text, 13), 17);
    assert_eq!(next_word_boundary(text, 17), 17);
}

#[test]
fn word_boundaries_backward() {
    let text = "hello  world, foo";
    assert_eq!(prev_word_boundary(text, 17), 14);
    assert_eq!(prev_word_boundary(text, 14), 12);
    assert_eq!(prev_word_boundary(text, 12), 7);
    assert_eq!(prev_word_boundary(text, 7), 0);
    assert_eq!(prev_word_boundary(text, 0), 0);
}

#[test]
fn word_boundaries_multibyte() {
    let text = "héé wö";
    assert_eq!(next_word_boundary(text, 0), 5);
    assert_eq!(prev_word_boundary(text, 9), 6);
}

fn edit_with(text: &str) -> TextEditBase {
    let mut e = TextEditBase::new();
    e.set_text(text.to_string());
    e
}

fn key(k: EditKey) -> EditEvent {
    EditEvent::KeyDown { key: k, shift: false, ctrl: false }
}

#[test]
fn new_editor() {
    let e = TextEditBase::new();
    assert_eq!(e.text(), "");
    assert_eq!(e.selection(), Selection::empty(0));
    assert_eq!(e.text_len(), 0);
    assert!(e.caret_visible());
}

#[test]
fn set_text_clamps_selection() {
    let mut e = edit_with("hello world");
    e.set_selection(Selection { start: 2, end: 11 });
    e.set_text("hey".to_string());
    assert_eq!(e.selection(), Selection { start: 2, end: 3 });
    assert_eq!(e.text_len(), 3);
}

#[test]
fn typing_replaces_the_selection() {
    let mut e = edit_with("hello world");
    e.set_selection(Selection { start: 6, end: 11 });
    let r = e.event(key(EditKey::Character("rust".to_string())));
    assert_eq!(e.text(), "hello rust");
    assert_eq!(e.selection(), Selection::empty(10));
    assert!(r.text_changed());
    assert!(r.selection_changed());
    assert!(r.relayout());
    assert!(r.repaint());
    assert!(r.reset_blink());
    assert!(!r.cancelled());
    assert!(!r.confirmed());
}

#[test]
fn typing_multibyte_text() {
    let mut e = edit_with("ab");
    e.set_selection(Selection::empty(1));
    e.event(key(EditKey::Character("é😀".to_string())));
    assert_eq!(e.text(), "aé😀b");
    assert_eq!(e.selection(), Selection::empty(7));
}

#[test]
fn backspace_removes_the_previous_character() {
    let mut e = edit_with("héllo");
    e.set_selection(Selection::empty(3));
    let r = e.event(key(EditKey::Backspace));
    assert_eq!(e.text(), "hllo");
    assert_eq!(e.selection(), Selection::empty(1));
    assert!(r.text_changed());
    assert!(r.relayout());
}

#[test]
fn backspace_at_start_does_nothing() {
    let mut e = edit_with("abc");
    e.set_selection(Selection::empty(0));
    let r = e.event(key(EditKey::Backspace));
    assert_eq!(e.text(), "abc");
    assert_eq!(r.flags.bits(), 0);
}

#[test]
fn backspace_removes_the_selection() {
    let mut e = edit_with("hello world");
    e.set_selection(Selection { start: 11, end: 5 });
    let r = e.event(key(EditKey::Backspace));
    assert_eq!(e.text(), "hello");
    assert_eq!(e.selection(), Selection::empty(5));
    assert!(r.text_changed());
}

#[test]
fn arrows_move_by_grapheme_and_word() {
    let mut e = edit_with("ab cd");
    e.set_selection(Selection::empty(0));
    let r = e.event(key(EditKey::ArrowRight));
    assert_eq!(e.selection(), Selection::empty(1));
    assert!(r.selection_changed() && r.repaint() && r.reset_blink());
    e.event(EditEvent::KeyDown { key: EditKey::ArrowRight, shift: false, ctrl: true });
    assert_eq!(e.selection(), Selection::empty(2));
    e.event(EditEvent::KeyDown { key: EditKey::ArrowRight, shift: true, ctrl: true });
    assert_eq!(e.selection(), Selection { start: 2, end: 5 });
    e.event(EditEvent::KeyDown { key: EditKey::ArrowLeft, shift: false, ctrl: true });
    assert_eq!(e.selection(), Selection::empty(3));
    e.event(key(EditKey::ArrowLeft));
    assert_eq!(e.selection(), Selection::empty(2));
}

#[test]
fn arrow_steps_over_a_whole_grapheme_cluster() {
    // "e" followed by a combining acute accent is one grapheme cluster
    let mut e = edit_with("e\u{301}x");
    e.set_selection(Selection::empty(0));
    e.event(key(EditKey::ArrowRight));
    assert_eq!(e.selection(), Selection::empty(3));
    e.event(key(EditKey::ArrowLeft));
    assert_eq!(e.selection(), Selection::empty(0));
}

#[test]
fn escape_and_enter() {
    let mut e = edit_with("x");
    let r = e.event(key(EditKey::Escape));
    assert!(r.cancelled() && !r.confirmed() && !r.repaint());
    let r = e.event(key(EditKey::Enter));
    assert!(r.confirmed() && !r.cancelled());
    let r = e.event(key(EditKey::Other));
    assert_eq!(r.flags.bits(), 0);
}

#[test]
fn focus_events() {
    let mut e = edit_with("hello");
    e.set_selection(Selection { start: 1, end: 3 });
    let r = e.event(EditEvent::FocusGained);
    assert!(r.reset_blink() && !r.selection_changed());
    let r = e.event(EditEvent::FocusLost);
    assert_eq!(e.selection(), Selection::empty(0));
    assert!(r.selection_changed() && r.repaint());
    let r = e.event(EditEvent::FocusLost);
    assert!(!r.selection_changed());
}

#[test]
fn pointer_selection() {
    let mut e = edit_with("aé😀b");
    // click at UTF-16 offset 2 (before 😀): caret at byte 3
    let r = e.event(EditEvent::PointerDown { repeat_count: 1, pointer: 2, caret_word: 0..0 });
    assert_eq!(e.selection(), Selection::empty(3));
    assert!(r.selection_changed() && r.reset_blink());
    // drag to UTF-16 offset 4 (after 😀): byte 7
    e.event(EditEvent::PointerMove { pointer: 4, pointer_word: 0..0 });
    assert_eq!(e.selection(), Selection { start: 3, end: 7 });
    e.event(EditEvent::PointerUp);
    // no gesture: moving does nothing
    let r = e.event(EditEvent::PointerMove { pointer: 0, pointer_word: 0..0 });
    assert_eq!(e.selection(), Selection { start: 3, end: 7 });
    assert_eq!(r.flags.bits(), 0);
}

#[test]
fn double_click_selects_words() {
    let mut e = edit_with("one two three");
    e.set_selection(Selection::empty(5));
    // the layout engine reports the word "two" at UTF-16 4..7
    let r = e.event(EditEvent::PointerDown { repeat_count: 2, pointer: 5, caret_word: 4..7 });
    assert_eq!(e.selection(), Selection { start: 4, end: 7 });
    assert!(r.selection_changed());
    // dragging over "three" extends the selection by words
    e.event(EditEvent::PointerMove { pointer: 9, pointer_word: 8..13 });
    assert_eq!(e.selection(), Selection { start: 4, end: 13 });
    // dragging back over "one" puts the caret at the start
    e.event(EditEvent::PointerMove { pointer: 1, pointer_word: 0..3 });
    assert_eq!(e.selection(), Selection { start: 7, end: 0 });
}

#[test]
fn a_line_break_is_not_a_word() {
    let e = edit_with("ab\ncd");
    assert_eq!(e.word_selection_at_text_position(2, 2..3), Selection::empty(2));
    assert_eq!(e.word_selection_at_text_position(1, 0..2), Selection { start: 0, end: 2 });
}

#[test]
fn select_line() {
    let mut e = edit_with("first\nsecond line\nthird");
    e.set_selection(Selection::empty(9));
    assert!(e.select_line_under_cursor());
    assert_eq!(e.selection(), Selection { start: 6, end: 17 });
    assert!(!e.select_line_under_cursor() || e.selection() == Selection { start: 6, end: 17 });
    e.set_selection(Selection::empty(0));
    e.select_line_under_cursor();
    assert_eq!(e.selection(), Selection { start: 0, end: 5 });
    e.set_selection(Selection::empty(23));
    e.select_line_under_cursor();
    assert_eq!(e.selection(), Selection { start: 18, end: 23 });
}

#[test]
fn cursor_moves() {
    let mut e = edit_with("ab cd");
    e.set_selection(Selection::empty(0));
    assert!(e.move_cursor_to_next_word(false));
    assert_eq!(e.selection(), Selection::empty(2));
    assert!(e.move_cursor_to_next_grapheme(true));
    assert_eq!(e.selection(), Selection { start: 2, end: 3 });
    assert!(e.move_cursor_to_prev_word(false));
    assert_eq!(e.selection(), Selection::empty(0));
    assert!(!e.move_cursor_to_prev_grapheme(false));
    assert!(e.set_cursor_at_text_position(4, false));
    assert!(!e.set_cursor_at_text_position(4, false));
}

#[test]
fn layout_options_mark_the_paragraph() {
    let mut e = TextEditBase::new();
    e.take_rebuild();
    e.take_relayout();
    assert!(!e.set_wrap_mode(WrapMode::Wrap));
    assert!(!e.take_rebuild());
    assert!(e.set_wrap_mode(WrapMode::NoWrap));
    assert!(e.take_rebuild());
    assert!(e.take_relayout());
    e.set_text_align(TextAlign::Start);
    assert!(!e.take_rebuild());
    e.set_text_align(TextAlign::Middle);
    assert!(e.take_rebuild());
    e.set_overflow(TextOverflow::Clip);
    assert!(!e.take_rebuild());
    e.set_overflow(TextOverflow::Ellipsis);
    assert!(e.take_rebuild());
    e.set_max_lines(3);
    assert!(e.take_rebuild());
    e.mark_style_changed();
    assert!(e.take_rebuild());
    assert!(e.take_relayout());
}

#[test]
fn editor_offset_conversions() {
    let e = edit_with("aé😀b");
    assert_eq!(e.utf8_to_utf16_offset(7), 4);
    assert_eq!(e.utf16_to_utf8_offset(4), 7);
    assert_eq!(e.word_range(1..4), 1..7);
}

#[test]
fn flags_operations() {
    let mut f = TextEditEventFlags::empty();
    assert_eq!(f.bits(), 0);
    f.insert(TextEditEventFlags::TEXT_CHANGED);
    f.insert(TextEditEventFlags::REPAINT);
    assert!(f.contains(TextEditEventFlags::TEXT_CHANGED));
    assert!(!f.contains(TextEditEventFlags::RELAYOUT));
    f.set(TextEditEventFlags::TEXT_CHANGED, false);
    assert!(!f.contains(TextEditEventFlags::TEXT_CHANGED));
    f.remove(TextEditEventFlags::REPAINT);
    assert_eq!(f.bits(), 0);
    assert_eq!(TextEditEventFlags::from_bits(0b11).bits(), 3);
    assert_eq!(TextEditEventFlags::CONFIRMED, 1 << 9);
}

#[test]
fn selections_merge() {
    let a = Selection { start: 4, end: 7 };
    let b = Selection { start: 8, end: 13 };
    assert_eq!(add_selections(a, b), Selection { start: 4, end: 13 });
    let c = Selection { start: 0, end: 3 };
    assert_eq!(add_selections(a, c), Selection { start: 7, end: 0 });
}

#[test]
fn word_moves_on_punctuated_text() {
    let text = "foo bar, baz";
    assert_eq!(next_word_boundary(text, 0), 3);
    assert_eq!(next_word_boundary(text, 3), 7);
    assert_eq!(next_word_boundary(text, 7), 8);
    assert_eq!(next_word_boundary(text, 8), 12);
    assert_eq!(next_word_boundary(text, 12), 12);
    assert_eq!(prev_word_boundary(text, 12), 9);
    assert_eq!(prev_word_boundary(text, 9), 7);
    assert_eq!(prev_word_boundary(text, 7), 4);
    assert_eq!(prev_word_boundary(text, 3), 0);
    assert_eq!(prev_word_boundary(text, 0), 0);
    assert!(char_is_word('a') && char_is_word('7') && !char_is_word(',') && char_is_word('é'));
}
