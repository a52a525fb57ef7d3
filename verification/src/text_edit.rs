//! The state of a single- or multiline text editor: its text, selection and
//! layout options, and how input events change them.
//!
//! Laying out, painting and hit-testing the text is the text layout engine's
//! work; the editor receives what the engine answered (UTF-16 positions and
//! word ranges) along with each event.

use vstd::prelude::*;
use std::ops::Range;
use crate::selection::{add_selections, add_selections_spec, Selection};
use crate::style::TextAlign;
use crate::text_units::{
    byte_offset, char_index_at, char_index_of, chars_vec, is_utf8_boundary, lemma_encode_len,
    next_grapheme_boundary, next_grapheme_cluster, next_word_boundary, next_word_index,
    prev_grapheme_boundary, prev_grapheme_cluster, prev_word_boundary, prev_word_index,
    utf16_to_utf8_offset, utf16_to_utf8_spec, utf8_boundary_at, utf8_len, utf8_to_utf16_offset,
    utf8_to_utf16_spec,
};

verus! {

broadcast use {
    vstd::string::group_string_axioms,
    vstd::slice::group_slice_axioms,
};

/// A caret movement.
#[derive(Debug, Copy, Clone)]
pub enum Movement {
    Left,
    Right,
    LeftWord,
    RightWord,
}

/// Whether text wraps at the available width.
#[derive(Debug, Copy, Clone, Eq, PartialEq, Structural)]
pub enum WrapMode {
    Wrap,
    NoWrap,
}

/// What happens to text that does not fit.
#[derive(Debug, Copy, Clone, Eq, PartialEq, Structural)]
pub enum TextOverflow {
    Ellipsis,
    Clip,
}

/// The pointer gesture in progress.
#[derive(Debug, Copy, Clone, Eq, PartialEq, Structural)]
pub enum Gesture {
    /// Selecting character by character.
    CharacterSelection,
    /// Selecting word by word, from the word selected first.
    WordSelection { anchor: Selection },
}

/// What an event did to a text editor, as a set of flags.
#[derive(Copy, Clone, Debug, Eq, PartialEq, Hash, Structural)]
pub struct TextEditEventFlags {
    bits: u32,
}

impl TextEditEventFlags {
    /// The selection has changed.
    pub const SELECTION_CHANGED: u32 = 1;
    /// The text has changed.
    pub const TEXT_CHANGED: u32 = 2;
    /// The layout of the text edit has been invalidated.
    pub const RELAYOUT: u32 = 4;
    /// The text edit should be repainted.
    pub const REPAINT: u32 = 8;
    /// Reset the blink phase of the caret.
    pub const RESET_BLINK: u32 = 128;
    /// Editing cancelled via escape key.
    pub const CANCELLED: u32 = 256;
    /// Editing finished via enter key.
    pub const CONFIRMED: u32 = 512;

    /// The bits of the set.
    pub closed spec fn spec_bits(self) -> u32 {
        self.bits
    }

    /// Every bit of `f` is set.
    pub open spec fn has(self, f: u32) -> bool {
        self.spec_bits() & f == f
    }

    /// The empty set.
    pub fn empty() -> (r: TextEditEventFlags)
        ensures
            r.spec_bits() == 0,
    {
        TextEditEventFlags { bits: 0 }
    }

    /// The set whose bits are `bits`, every bit kept.
    pub fn from_bits(bits: u32) -> (r: TextEditEventFlags)
        ensures
            r.spec_bits() == bits,
    {
        TextEditEventFlags { bits }
    }

    /// The bits of the set.
    pub fn bits(&self) -> (r: u32)
        ensures
            r == self.spec_bits(),
    {
        self.bits
    }

    /// Whether every bit of `f` is set.
    pub fn contains(&self, f: u32) -> (r: bool)
        ensures
            r == self.has(f),
    {
        self.bits & f == f
    }

    /// Sets the bits of `f`.
    pub fn insert(&mut self, f: u32)
        ensures
            final(self).spec_bits() == old(self).spec_bits() | f,
    {
        self.bits = self.bits | f;
    }

    /// Clears the bits of `f`.
    pub fn remove(&mut self, f: u32)
        ensures
            final(self).spec_bits() == old(self).spec_bits() & !f,
    {
        self.bits = self.bits & !f;
    }

    /// Sets or clears the bits of `f`.
    pub fn set(&mut self, f: u32, value: bool)
        ensures
            final(self).spec_bits() == if value { old(self).spec_bits() | f } else { old(self).spec_bits() & !f },
    {
        if value {
            self.insert(f);
        } else {
            self.remove(f);
        }
    }
}

/// The flags with each of the given effects.
pub open spec fn flags_are(
    f: TextEditEventFlags,
    selection_changed: bool,
    text_changed: bool,
    relayout: bool,
    reset_blink: bool,
    cancelled: bool,
    confirmed: bool,
) -> bool {
    &&& f.has(TextEditEventFlags::SELECTION_CHANGED) == selection_changed
    &&& f.has(TextEditEventFlags::TEXT_CHANGED) == text_changed
    &&& f.has(TextEditEventFlags::RELAYOUT) == relayout
    &&& f.has(TextEditEventFlags::REPAINT) == selection_changed
    &&& f.has(TextEditEventFlags::RESET_BLINK) == reset_blink
    &&& f.has(TextEditEventFlags::CANCELLED) == cancelled
    &&& f.has(TextEditEventFlags::CONFIRMED) == confirmed
}

proof fn lemma_compose_flags(a: u32, b: u32, c: u32, d: u32, e: u32, f: u32, g: u32)
    by (bit_vector)
    requires
        a == 0 || a == 1,
        b == 0 || b == 2,
        c == 0 || c == 4,
        d == 0 || d == 8,
        e == 0 || e == 128,
        f == 0 || f == 256,
        g == 0 || g == 512,
    ensures
        ((a | b | c | d | e | f | g) & 1 == 1) == (a == 1),
        ((a | b | c | d | e | f | g) & 2 == 2) == (b == 2),
        ((a | b | c | d | e | f | g) & 4 == 4) == (c == 4),
        ((a | b | c | d | e | f | g) & 8 == 8) == (d == 8),
        ((a | b | c | d | e | f | g) & 128 == 128) == (e == 128),
        ((a | b | c | d | e | f | g) & 256 == 256) == (f == 256),
        ((a | b | c | d | e | f | g) & 512 == 512) == (g == 512),
{
}

/// The bit `f` if `on`, else nothing.
fn bit_if(on: bool, f: u32) -> (r: u32)
    ensures
        r == if on { f } else { 0 },
{
    if on { f } else { 0 }
}

/// The flags of the given effects; a changed selection asks for a repaint.
fn compose_flags(
    selection_changed: bool,
    text_changed: bool,
    relayout: bool,
    reset_blink: bool,
    cancelled: bool,
    confirmed: bool,
) -> (r: TextEditEventFlags)
    ensures
        flags_are(r, selection_changed, text_changed, relayout, reset_blink, cancelled, confirmed),
{
    let a = bit_if(selection_changed, TextEditEventFlags::SELECTION_CHANGED);
    let b = bit_if(text_changed, TextEditEventFlags::TEXT_CHANGED);
    let c = bit_if(relayout, TextEditEventFlags::RELAYOUT);
    let d = bit_if(selection_changed, TextEditEventFlags::REPAINT);
    let e = bit_if(reset_blink, TextEditEventFlags::RESET_BLINK);
    let f = bit_if(cancelled, TextEditEventFlags::CANCELLED);
    let g = bit_if(confirmed, TextEditEventFlags::CONFIRMED);
    proof {
        lemma_compose_flags(a, b, c, d, e, f, g);
    }
    TextEditEventFlags { bits: a | b | c | d | e | f | g }
}

/// What an event did to a text editor.
pub struct TextEditEventResult {
    pub flags: TextEditEventFlags,
}

impl TextEditEventResult {
    pub fn text_changed(&self) -> (r: bool)
        ensures
            r == self.flags.has(TextEditEventFlags::TEXT_CHANGED),
    {
        self.flags.contains(TextEditEventFlags::TEXT_CHANGED)
    }

    pub fn repaint(&self) -> (r: bool)
        ensures
            r == self.flags.has(TextEditEventFlags::REPAINT),
    {
        self.flags.contains(TextEditEventFlags::REPAINT)
    }

    pub fn relayout(&self) -> (r: bool)
        ensures
            r == self.flags.has(TextEditEventFlags::RELAYOUT),
    {
        self.flags.contains(TextEditEventFlags::RELAYOUT)
    }

    pub fn selection_changed(&self) -> (r: bool)
        ensures
            r == self.flags.has(TextEditEventFlags::SELECTION_CHANGED),
    {
        self.flags.contains(TextEditEventFlags::SELECTION_CHANGED)
    }

    pub fn reset_blink(&self) -> (r: bool)
        ensures
            r == self.flags.has(TextEditEventFlags::RESET_BLINK),
    {
        self.flags.contains(TextEditEventFlags::RESET_BLINK)
    }

    pub fn cancelled(&self) -> (r: bool)
        ensures
            r == self.flags.has(TextEditEventFlags::CANCELLED),
    {
        self.flags.contains(TextEditEventFlags::CANCELLED)
    }

    pub fn confirmed(&self) -> (r: bool)
        ensures
            r == self.flags.has(TextEditEventFlags::CONFIRMED),
    {
        self.flags.contains(TextEditEventFlags::CONFIRMED)
    }
}

/// The selection after placing the caret at `pos`: the anchor stays where it
/// was if `keep_anchor`, else the selection is empty.
pub open spec fn caret_selection(sel: Selection, pos: usize, keep_anchor: bool) -> Selection {
    if keep_anchor {
        Selection { start: sel.start, end: pos }
    } else {
        Selection { start: pos, end: pos }
    }
}

/// The UTF-8 range of the word whose UTF-16 range is `word`.
pub open spec fn word_range(s: Seq<char>, word: Range<usize>) -> (usize, usize) {
    (utf16_to_utf8_spec(s, word.start as int) as usize, utf16_to_utf8_spec(s, word.end as int) as usize)
}

/// The word selection at text position `pos`, where `word` is the UTF-16
/// range of the word there; a "word" that starts with a line break selects
/// nothing.
pub open spec fn word_selection(s: Seq<char>, pos: usize, word: Range<usize>) -> Selection {
    let (a, b) = word_range(s, word);
    if a < b && s[char_index_of(s, a as int)] == '\n' {
        Selection { start: pos, end: pos }
    } else {
        Selection { start: a, end: b }
    }
}

/// Going left from boundary `k`, the first boundary that starts a line.
pub open spec fn line_start(s: Seq<char>, k: int) -> int
    decreases k,
{
    if 0 < k <= s.len() && s[k - 1] != '\n' {
        line_start(s, k - 1)
    } else {
        k
    }
}

/// Going right from boundary `k`, the first boundary that ends a line.
pub open spec fn line_end(s: Seq<char>, k: int) -> int
    decreases s.len() - k,
{
    if 0 <= k < s.len() && s[k] != '\n' {
        line_end(s, k + 1)
    } else {
        k
    }
}

/// The selection of the line around UTF-8 offset `pos`, without its line
/// breaks.
pub open spec fn line_selection(s: Seq<char>, pos: usize) -> Selection {
    let k = char_index_of(s, pos as int);
    Selection { start: byte_offset(s, line_start(s, k)) as usize, end: byte_offset(s, line_end(s, k)) as usize }
}

proof fn lemma_boundary_of_utf16(s: Seq<char>, off: int)
    ensures
        is_utf8_boundary(s, utf16_to_utf8_spec(s, off) as int),
{
    if exists|k: int| crate::text_units::utf16_boundary_at(s, k, off) {
        let k = choose|k: int| crate::text_units::utf16_boundary_at(s, k, off);
        assert(utf8_boundary_at(s, k, byte_offset(s, k) as int));
    } else {
        assert(s.subrange(0, s.len() as int) == s);
        assert(utf8_boundary_at(s, s.len() as int, utf8_len(s) as int));
    }
}

proof fn lemma_line_bounds(s: Seq<char>, k: int)
    requires
        0 <= k <= s.len(),
    ensures
        0 <= line_start(s, k) <= k,
        k <= line_end(s, k) <= s.len(),
    decreases s.len() - k + k,
{
    lemma_line_start_bounds(s, k);
    lemma_line_end_bounds(s, k);
}

proof fn lemma_line_start_bounds(s: Seq<char>, k: int)
    requires
        0 <= k <= s.len(),
    ensures
        0 <= line_start(s, k) <= k,
    decreases k,
{
    if k > 0 {
        lemma_line_start_bounds(s, k - 1);
    }
}

proof fn lemma_line_end_bounds(s: Seq<char>, k: int)
    requires
        0 <= k <= s.len(),
    ensures
        k <= line_end(s, k) <= s.len(),
    decreases s.len() - k,
{
    if k < s.len() {
        lemma_line_end_bounds(s, k + 1);
    }
}

/// `text` with the characters from UTF-8 offset `a` to UTF-8 offset `b`
/// replaced by `ins`.
fn text_replacing(text: &String, a: usize, b: usize, ins: &str) -> (r: String)
    requires
        is_utf8_boundary(text@, a as int),
        is_utf8_boundary(text@, b as int),
    ensures
        r@ == text@.subrange(0, char_index_of(text@, a as int)) + ins@
            + text@.subrange(char_index_of(text@, b as int), text@.len() as int),
{
    let t = text.as_str();
    let v = chars_vec(t);
    let ka = char_index_at(&v, a);
    let kb = char_index_at(&v, b);
    let n = v.len();
    let left = t.substring_char(0, ka);
    let right = t.substring_char(kb, n);
    let mut r = left.to_owned();
    r.append(ins);
    r.append(right);
    r
}

/// `text` without the character at UTF-8 offset `at`.
fn text_removing(text: &String, at: usize) -> (r: String)
    requires
        is_utf8_boundary(text@, at as int),
        char_index_of(text@, at as int) < text@.len(),
    ensures
        r@ == text@.remove(char_index_of(text@, at as int)),
{
    let t = text.as_str();
    let v = chars_vec(t);
    let k = char_index_at(&v, at);
    let n = v.len();
    let left = t.substring_char(0, k);
    let right = t.substring_char(k + 1, n);
    let mut r = left.to_owned();
    r.append(right);
    proof {
        assert(r@ =~= text@.remove(k as int));
    }
    r
}

/// A key press that the editor reacts to.
pub enum EditKey {
    ArrowLeft,
    ArrowRight,
    Backspace,
    Escape,
    Enter,
    /// Text typed by the user.
    Character(String),
    /// Any other key.
    Other,
}

/// An input event, with what the text layout engine answered about it.
/// Text positions from the layout engine are UTF-16 offsets.
pub enum EditEvent {
    PointerDown {
        /// 1 for a click, 2 for a double click, 3 for a triple click.
        repeat_count: u32,
        /// The text position under the pointer.
        pointer: usize,
        /// The range of the word at the caret.
        caret_word: Range<usize>,
    },
    PointerMove {
        /// The text position under the pointer.
        pointer: usize,
        /// The range of the word at the text position under the pointer.
        pointer_word: Range<usize>,
    },
    PointerUp,
    FocusGained,
    FocusLost,
    KeyDown {
        key: EditKey,
        /// Shift is held: the selection's anchor stays in place.
        shift: bool,
        /// Control is held: the caret moves by words.
        ctrl: bool,
    },
    /// Any other event.
    Other,
}

/// Single- or multiline text editor.
pub struct TextEditBase {
    text: String,
    selection: Selection,
    wrap_mode: WrapMode,
    text_overflow: TextOverflow,
    align: TextAlign,
    line_clamp: Option<usize>,
    relayout: bool,
    paragraph_stale: bool,
    show_caret: bool,
    gesture: Option<Gesture>,
    blink_phase: bool,
    blink_pending_reset: bool,
}

impl TextEditBase {
    /// The text, as characters.
    pub closed spec fn text_view(&self) -> Seq<char> {
        self.text@
    }

    /// The selection, in UTF-8 offsets.
    pub closed spec fn selection_view(&self) -> Selection {
        self.selection
    }

    /// The pointer gesture in progress.
    pub closed spec fn gesture_view(&self) -> Option<Gesture> {
        self.gesture
    }

    /// The text must be laid out again before it is painted.
    pub closed spec fn needs_relayout(&self) -> bool {
        self.relayout
    }

    /// The paragraph must be built again from the text and the options.
    pub closed spec fn needs_rebuild(&self) -> bool {
        self.paragraph_stale
    }

    /// The layout options: wrapping, overflow, alignment and line limit.
    pub closed spec fn options_view(&self) -> (WrapMode, TextOverflow, TextAlign, Option<usize>) {
        (self.wrap_mode, self.text_overflow, self.align, self.line_clamp)
    }

    /// Whether the caret is shown in the current blink phase.
    pub closed spec fn caret_phase(&self) -> bool {
        self.blink_phase || self.blink_pending_reset
    }

    /// The editor holds the given state, with the options and the caret
    /// phase of `like`.
    pub open spec fn state_is(
        &self,
        text: Seq<char>,
        selection: Selection,
        gesture: Option<Gesture>,
        relayout: bool,
        rebuild: bool,
        like: &TextEditBase,
    ) -> bool {
        &&& self.text_view() == text
        &&& self.selection_view() == selection
        &&& self.gesture_view() == gesture
        &&& self.needs_relayout() == relayout
        &&& self.needs_rebuild() == rebuild
        &&& self.options_view() == like.options_view()
        &&& self.caret_phase() == like.caret_phase()
    }

    /// The editor differs from `like` at most in its selection.
    pub open spec fn selection_only(&self, selection: Selection, like: &TextEditBase) -> bool {
        self.state_is(like.text_view(), selection, like.gesture_view(), like.needs_relayout(), like.needs_rebuild(), like)
    }

    /// An empty editor: no text, the caret at 0, text wrapping, overflow
    /// clipped, aligned at the start.
    pub fn new() -> (r: TextEditBase)
        ensures
            r.text_view() == Seq::<char>::empty(),
            r.selection_view() == (Selection { start: 0, end: 0 }),
            r.gesture_view() is None,
            r.options_view() == (WrapMode::Wrap, TextOverflow::Clip, TextAlign::Start, None::<usize>),
            r.needs_relayout(),
            r.needs_rebuild(),
            r.caret_phase(),
    {
        TextEditBase {
            text: String::new(),
            selection: Selection::empty(0),
            wrap_mode: WrapMode::Wrap,
            text_overflow: TextOverflow::Clip,
            align: TextAlign::Start,
            line_clamp: None,
            relayout: true,
            paragraph_stale: true,
            show_caret: false,
            gesture: None,
            blink_phase: true,
            blink_pending_reset: false,
        }
    }

    /// Sets the selection; returns whether it changed.
    pub fn set_selection(&mut self, selection: Selection) -> (changed: bool)
        ensures
            changed == (selection != old(self).selection_view()),
            final(self).selection_only(selection, old(self)),
    {
        if selection != self.selection {
            self.selection = selection;
            true
        } else {
            false
        }
    }

    /// Places the caret at UTF-8 offset `pos`, keeping the anchor of the
    /// selection if `keep_anchor`; returns whether the selection changed.
    pub fn set_cursor_at_text_position(&mut self, pos: usize, keep_anchor: bool) -> (changed: bool)
        ensures
            changed == (caret_selection(old(self).selection_view(), pos, keep_anchor) != old(self).selection_view()),
            final(self).selection_only(caret_selection(old(self).selection_view(), pos, keep_anchor), old(self)),
    {
        let s = if keep_anchor {
            Selection { start: self.selection.start, end: pos }
        } else {
            Selection::empty(pos)
        };
        self.set_selection(s)
    }

    /// Moves the caret one word right.
    pub fn move_cursor_to_next_word(&mut self, keep_anchor: bool) -> (changed: bool)
        requires
            is_utf8_boundary(old(self).text_view(), old(self).selection_view().end as int),
        ensures
            ({
                let s = old(self).text_view();
                let pos = byte_offset(s, next_word_index(s, char_index_of(s, old(self).selection_view().end as int))) as usize;
                let sel = caret_selection(old(self).selection_view(), pos, keep_anchor);
                &&& changed == (sel != old(self).selection_view())
                &&& final(self).selection_only(sel, old(self))
            }),
    {
        let end = next_word_boundary(self.text.as_str(), self.selection.end);
        self.set_cursor_at_text_position(end, keep_anchor)
    }

    /// Moves the caret one word left.
    pub fn move_cursor_to_prev_word(&mut self, keep_anchor: bool) -> (changed: bool)
        requires
            is_utf8_boundary(old(self).text_view(), old(self).selection_view().end as int),
        ensures
            ({
                let s = old(self).text_view();
                let pos = byte_offset(s, prev_word_index(s, char_index_of(s, old(self).selection_view().end as int))) as usize;
                let sel = caret_selection(old(self).selection_view(), pos, keep_anchor);
                &&& changed == (sel != old(self).selection_view())
                &&& final(self).selection_only(sel, old(self))
            }),
    {
        let end = prev_word_boundary(self.text.as_str(), self.selection.end);
        self.set_cursor_at_text_position(end, keep_anchor)
    }

    /// Moves the caret past the next grapheme cluster, if there is one.
    pub fn move_cursor_to_next_grapheme(&mut self, keep_anchor: bool) -> (changed: bool)
        requires
            is_utf8_boundary(old(self).text_view(), old(self).selection_view().end as int),
        ensures
            ({
                let end = old(self).selection_view().end;
                let pos = match next_grapheme_boundary(old(self).text_view(), end) {
                    Some(b) => b,
                    None => end,
                };
                let sel = caret_selection(old(self).selection_view(), pos, keep_anchor);
                &&& changed == (sel != old(self).selection_view())
                &&& final(self).selection_only(sel, old(self))
            }),
    {
        let end = match next_grapheme_cluster(self.text.as_str(), self.selection.end) {
            Some(b) => b,
            None => self.selection.end,
        };
        self.set_cursor_at_text_position(end, keep_anchor)
    }

    /// Moves the caret before the previous grapheme cluster, if there is one.
    pub fn move_cursor_to_prev_grapheme(&mut self, keep_anchor: bool) -> (changed: bool)
        requires
            is_utf8_boundary(old(self).text_view(), old(self).selection_view().end as int),
        ensures
            ({
                let end = old(self).selection_view().end;
                let pos = match prev_grapheme_boundary(old(self).text_view(), end) {
                    Some(b) => b,
                    None => end,
                };
                let sel = caret_selection(old(self).selection_view(), pos, keep_anchor);
                &&& changed == (sel != old(self).selection_view())
                &&& final(self).selection_only(sel, old(self))
            }),
    {
        let end = match prev_grapheme_cluster(self.text.as_str(), self.selection.end) {
            Some(b) => b,
            None => self.selection.end,
        };
        self.set_cursor_at_text_position(end, keep_anchor)
    }

    /// The UTF-8 offset of UTF-16 offset `utf16_offset` of the text.
    pub fn utf16_to_utf8_offset(&self, utf16_offset: usize) -> (r: usize)
        ensures
            r == utf16_to_utf8_spec(self.text_view(), utf16_offset as int),
    {
        utf16_to_utf8_offset(self.text.as_str(), utf16_offset)
    }

    /// The UTF-16 offset of UTF-8 offset `utf8_offset` of the text.
    pub fn utf8_to_utf16_offset(&self, utf8_offset: usize) -> (r: usize)
        ensures
            r == utf8_to_utf16_spec(self.text_view(), utf8_offset as int),
    {
        utf8_to_utf16_offset(self.text.as_str(), utf8_offset)
    }

    /// The UTF-8 range of the word whose UTF-16 range is `word`.
    pub fn word_range(&self, word: Range<usize>) -> (r: Range<usize>)
        ensures
            (r.start, r.end) == word_range(self.text_view(), word),
    {
        let start = self.utf16_to_utf8_offset(word.start);
        let end = self.utf16_to_utf8_offset(word.end);
        Range { start, end }
    }

    /// Selects the word at the caret, whose UTF-16 range is `caret_word`.
    pub fn select_word_under_cursor(&mut self, caret_word: Range<usize>) -> (changed: bool)
        ensures
            ({
                let (a, b) = word_range(old(self).text_view(), caret_word);
                let sel = Selection { start: a, end: b };
                &&& changed == (sel != old(self).selection_view())
                &&& final(self).selection_only(sel, old(self))
            }),
    {
        let range = self.word_range(caret_word);
        self.set_selection(Selection { start: range.start, end: range.end })
    }

    /// The word selection at UTF-8 offset `pos`, where `word` is the UTF-16
    /// range of the word there. A line break is not a word: there, the
    /// selection is empty at `pos`.
    pub fn word_selection_at_text_position(&self, pos: usize, word: Range<usize>) -> (r: Selection)
        requires
            word_range(self.text_view(), word).0 <= word_range(self.text_view(), word).1,
        ensures
            r == word_selection(self.text_view(), pos, word),
    {
        let range = self.word_range(word);
        let len = self.text_len();
        proof {
            lemma_boundary_of_utf16(self.text@, word.start as int);
            crate::text_units::lemma_boundary_of_utf16_le(self.text@, word.start as int);
            lemma_encode_len(self.text@);
        }
        if range.start < range.end {
            let v = chars_vec(self.text.as_str());
            let k = char_index_at(&v, range.start);
            proof {
                crate::text_units::lemma_offset_bounds_pub(self.text@, k as int);
                if k == v@.len() {
                    assert(v@.subrange(0, v@.len() as int) == v@);
                    crate::text_units::lemma_boundary_of_utf16_le(self.text@, word.end as int);
                }
            }
            if v[k] == '\n' {
                return Selection::empty(pos);
            }
        }
        Selection { start: range.start, end: range.end }
    }

    /// Selects the line around the caret, without its line breaks.
    pub fn select_line_under_cursor(&mut self) -> (changed: bool)
        requires
            is_utf8_boundary(old(self).text_view(), old(self).selection_view().end as int),
        ensures
            ({
                let sel = line_selection(old(self).text_view(), old(self).selection_view().end);
                &&& changed == (sel != old(self).selection_view())
                &&& final(self).selection_only(sel, old(self))
            }),
    {
        let v = chars_vec(self.text.as_str());
        let ghost s = v@;
        let end = self.selection.end;
        let k0 = char_index_at(&v, end);
        let n = self.text.as_str().as_bytes().len();
        proof {
            lemma_encode_len(s);
            lemma_line_bounds(s, k0 as int);
        }
        let mut j: usize = k0;
        let mut bj: usize = end;
        while j > 0 && v[j - 1] != '\n'
            invariant
                s == v@,
                0 <= j <= k0 <= s.len(),
                bj == byte_offset(s, j as int),
                line_start(s, j as int) == line_start(s, k0 as int),
            decreases j,
        {
            proof {
                crate::text_units::lemma_offset_step_pub(s, j - 1);
            }
            bj = bj - crate::text_units::char_len_utf8(v[j - 1]);
            j = j - 1;
        }
        let mut e: usize = k0;
        let mut be: usize = end;
        while e < v.len() && v[e] != '\n'
            invariant
                s == v@,
                k0 <= e <= s.len(),
                n == utf8_len(s),
                be == byte_offset(s, e as int),
                line_end(s, e as int) == line_end(s, k0 as int),
            decreases s.len() - e,
        {
            proof {
                crate::text_units::lemma_offset_step_pub(s, e as int);
                crate::text_units::lemma_offset_bounds_pub(s, e + 1);
            }
            be = be + crate::text_units::char_len_utf8(v[e]);
            e = e + 1;
        }
        self.set_selection(Selection { start: bj, end: be })
    }

    /// Sets the wrap mode; returns whether it changed.
    pub fn set_wrap_mode(&mut self, wrap_mode: WrapMode) -> (changed: bool)
        ensures
            changed == (wrap_mode != old(self).options_view().0),
            final(self).options_view() == (wrap_mode, old(self).options_view().1, old(self).options_view().2, old(self).options_view().3),
            final(self).text_view() == old(self).text_view(),
            final(self).selection_view() == old(self).selection_view(),
            final(self).gesture_view() == old(self).gesture_view(),
            final(self).caret_phase() == old(self).caret_phase(),
            final(self).needs_relayout() == (old(self).needs_relayout() || changed),
            final(self).needs_rebuild() == (old(self).needs_rebuild() || changed),
    {
        if self.wrap_mode != wrap_mode {
            self.wrap_mode = wrap_mode;
            self.paragraph_stale = true;
            self.relayout = true;
            true
        } else {
            false
        }
    }

    /// Limits the text to `max_lines` lines.
    pub fn set_max_lines(&mut self, max_lines: usize)
        ensures
            final(self).options_view() == (old(self).options_view().0, old(self).options_view().1, old(self).options_view().2, Some(max_lines)),
            final(self).text_view() == old(self).text_view(),
            final(self).selection_view() == old(self).selection_view(),
            final(self).gesture_view() == old(self).gesture_view(),
            final(self).caret_phase() == old(self).caret_phase(),
            final(self).needs_relayout(),
            final(self).needs_rebuild(),
    {
        self.line_clamp = Some(max_lines);
        self.paragraph_stale = true;
        self.relayout = true;
    }

    /// Sets the alignment.
    pub fn set_text_align(&mut self, align: TextAlign)
        ensures
            final(self).options_view() == (old(self).options_view().0, old(self).options_view().1, align, old(self).options_view().3),
            final(self).text_view() == old(self).text_view(),
            final(self).selection_view() == old(self).selection_view(),
            final(self).gesture_view() == old(self).gesture_view(),
            final(self).caret_phase() == old(self).caret_phase(),
            final(self).needs_relayout() == (old(self).needs_relayout() || align != old(self).options_view().2),
            final(self).needs_rebuild() == (old(self).needs_rebuild() || align != old(self).options_view().2),
    {
        if self.align != align {
            self.align = align;
            self.paragraph_stale = true;
            self.relayout = true;
        }
    }

    /// Sets what happens to text that does not fit.
    pub fn set_overflow(&mut self, overflow: TextOverflow)
        ensures
            final(self).options_view() == (old(self).options_view().0, overflow, old(self).options_view().2, old(self).options_view().3),
            final(self).text_view() == old(self).text_view(),
            final(self).selection_view() == old(self).selection_view(),
            final(self).gesture_view() == old(self).gesture_view(),
            final(self).caret_phase() == old(self).caret_phase(),
            final(self).needs_relayout() == (old(self).needs_relayout() || overflow != old(self).options_view().1),
            final(self).needs_rebuild() == (old(self).needs_rebuild() || overflow != old(self).options_view().1),
    {
        if self.text_overflow != overflow {
            self.text_overflow = overflow;
            self.paragraph_stale = true;
            self.relayout = true;
        }
    }

    /// Records that the text style changed: the paragraph is built and laid
    /// out again.
    pub fn mark_style_changed(&mut self)
        ensures
            final(self).state_is(old(self).text_view(), old(self).selection_view(), old(self).gesture_view(), true, true, old(self)),
    {
        self.paragraph_stale = true;
        self.relayout = true;
    }

    /// Returns whether the paragraph must be built again, and clears that.
    pub fn take_rebuild(&mut self) -> (r: bool)
        ensures
            r == old(self).needs_rebuild(),
            final(self).state_is(old(self).text_view(), old(self).selection_view(), old(self).gesture_view(), old(self).needs_relayout(), false, old(self)),
    {
        let r = self.paragraph_stale;
        self.paragraph_stale = false;
        r
    }

    /// Returns whether the text must be laid out again, and clears that.
    pub fn take_relayout(&mut self) -> (r: bool)
        ensures
            r == old(self).needs_relayout(),
            final(self).state_is(old(self).text_view(), old(self).selection_view(), old(self).gesture_view(), false, old(self).needs_rebuild(), old(self)),
    {
        let r = self.relayout;
        self.relayout = false;
        r
    }

    /// Whether the caret is shown in the current blink phase.
    pub fn caret_visible(&self) -> (r: bool)
        ensures
            r == self.caret_phase(),
    {
        self.blink_phase || self.blink_pending_reset
    }

    /// Returns the pointer gesture in progress.
    pub fn gesture(&self) -> (r: Option<Gesture>)
        ensures
            r == self.gesture_view(),
    {
        self.gesture
    }

    /// Returns the current selection.
    pub fn selection(&self) -> (r: Selection)
        ensures
            r == self.selection_view(),
    {
        self.selection
    }

    /// Returns the current text.
    pub fn text(&self) -> (r: String)
        ensures
            r@ == self.text_view(),
    {
        self.text.clone()
    }

    /// Returns the length of the text, in bytes.
    pub fn text_len(&self) -> (r: usize)
        ensures
            r == utf8_len(self.text_view()),
    {
        proof {
            lemma_encode_len(self.text@);
        }
        self.text.as_str().as_bytes().len()
    }

    /// Sets the text; the selection is clamped to the new text's length.
    pub fn set_text(&mut self, text: String)
        ensures
            ({
                let len = utf8_len(text@) as usize;
                let sel = old(self).selection_view();
                final(self).state_is(
                    text@,
                    Selection {
                        start: if sel.start > len { len } else { sel.start },
                        end: if sel.end > len { len } else { sel.end },
                    },
                    old(self).gesture_view(),
                    true,
                    true,
                    old(self),
                )
            }),
    {
        self.text = text;
        let len = self.text_len();
        self.selection = self.selection.clamp(Range { start: 0, end: len });
        self.paragraph_stale = true;
        self.relayout = true;
    }
}

/// The inputs on which `event` can run: the positions at which the editing
/// cuts the text fall on character boundaries, and the new caret position
/// fits in a `usize`.
pub open spec fn event_ok(te: TextEditBase, event: EditEvent) -> bool {
    let s = te.text_view();
    let sel = te.selection_view();
    match event {
        EditEvent::PointerMove { pointer, pointer_word } => te.gesture_view() matches Some(Gesture::WordSelection { .. })
            ==> word_range(s, pointer_word).0 <= word_range(s, pointer_word).1,
        EditEvent::KeyDown { key, shift, ctrl } => match key {
            EditKey::ArrowLeft => is_utf8_boundary(s, sel.end as int),
            EditKey::ArrowRight => is_utf8_boundary(s, sel.end as int),
            EditKey::Backspace => if sel.start == sel.end {
                is_utf8_boundary(s, sel.end as int)
            } else {
                is_utf8_boundary(s, sel.spec_min() as int) && is_utf8_boundary(s, sel.spec_max() as int)
            },
            EditKey::Character(ins) => {
                &&& is_utf8_boundary(s, sel.spec_min() as int)
                &&& is_utf8_boundary(s, sel.spec_max() as int)
                &&& sel.spec_min() + utf8_len(ins@) <= usize::MAX
            },
            _ => true,
        },
        _ => true,
    }
}

/// What `event` does: `new` is the editor after `event` reached `old`, and
/// `f` the flags that it returned. A changed selection always asks for a
/// repaint.
pub open spec fn event_effect(old: TextEditBase, event: EditEvent, new: TextEditBase, f: TextEditEventFlags) -> bool {
    let s = old.text_view();
    let sel = old.selection_view();
    let g = old.gesture_view();
    let rl = old.needs_relayout();
    let rb = old.needs_rebuild();
    let unchanged = new.state_is(s, sel, g, rl, rb, &old);
    match event {
        EditEvent::PointerDown { repeat_count, pointer, caret_word } => if repeat_count == 2 {
            let (a, b) = word_range(s, caret_word);
            let ns = Selection { start: a, end: b };
            &&& new.state_is(s, ns, Some(Gesture::WordSelection { anchor: ns }), rl, rb, &old)
            &&& flags_are(f, ns != sel, false, false, true, false, false)
        } else if repeat_count == 3 {
            unchanged && flags_are(f, false, false, false, true, false, false)
        } else {
            let ns = caret_selection(sel, utf16_to_utf8_spec(s, pointer as int) as usize, false);
            &&& new.state_is(s, ns, Some(Gesture::CharacterSelection), rl, rb, &old)
            &&& flags_are(f, ns != sel, false, false, true, false, false)
        },
        EditEvent::PointerMove { pointer, pointer_word } => {
            let pos = utf16_to_utf8_spec(s, pointer as int) as usize;
            match g {
                Some(Gesture::CharacterSelection) => {
                    let ns = caret_selection(sel, pos, true);
                    new.state_is(s, ns, g, rl, rb, &old) && flags_are(f, ns != sel, false, false, true, false, false)
                },
                Some(Gesture::WordSelection { anchor }) => {
                    let ns = add_selections_spec(anchor, word_selection(s, pos, pointer_word));
                    new.state_is(s, ns, g, rl, rb, &old) && flags_are(f, ns != sel, false, false, true, false, false)
                },
                None => unchanged && flags_are(f, false, false, false, false, false, false),
            }
        },
        EditEvent::PointerUp => new.state_is(s, sel, None, rl, rb, &old)
            && flags_are(f, false, false, false, false, false, false),
        EditEvent::FocusGained => unchanged && flags_are(f, false, false, false, true, false, false),
        EditEvent::FocusLost => {
            let ns = Selection { start: 0, end: 0 };
            new.state_is(s, ns, g, rl, rb, &old) && flags_are(f, ns != sel, false, false, false, false, false)
        },
        EditEvent::KeyDown { key, shift, ctrl } => match key {
            EditKey::ArrowLeft => {
                let pos = if ctrl {
                    byte_offset(s, prev_word_index(s, char_index_of(s, sel.end as int))) as usize
                } else {
                    match prev_grapheme_boundary(s, sel.end) {
                        Some(b) => b,
                        None => sel.end,
                    }
                };
                new.state_is(s, caret_selection(sel, pos, shift), g, rl, rb, &old)
                    && flags_are(f, true, false, false, true, false, false)
            },
            EditKey::ArrowRight => {
                let pos = if ctrl {
                    byte_offset(s, next_word_index(s, char_index_of(s, sel.end as int))) as usize
                } else {
                    match next_grapheme_boundary(s, sel.end) {
                        Some(b) => b,
                        None => sel.end,
                    }
                };
                new.state_is(s, caret_selection(sel, pos, shift), g, rl, rb, &old)
                    && flags_are(f, true, false, false, true, false, false)
            },
            EditKey::Backspace => if sel.start == sel.end {
                match prev_grapheme_boundary(s, sel.end) {
                    Some(p) => new.state_is(s.remove(char_index_of(s, p as int)), Selection { start: p, end: p }, g, rl, rb, &old)
                        && flags_are(f, true, true, true, true, false, false),
                    None => unchanged && flags_are(f, false, false, false, false, false, false),
                }
            } else {
                let lo = sel.spec_min();
                let hi = sel.spec_max();
                let text = s.subrange(0, char_index_of(s, lo as int)) + s.subrange(char_index_of(s, hi as int), s.len() as int);
                new.state_is(text, Selection { start: lo, end: lo }, g, rl, rb, &old)
                    && flags_are(f, true, true, true, true, false, false)
            },
            EditKey::Escape => unchanged && flags_are(f, false, false, false, false, true, false),
            EditKey::Enter => unchanged && flags_are(f, false, false, false, false, false, true),
            EditKey::Character(ins) => {
                let lo = sel.spec_min();
                let hi = sel.spec_max();
                let text = s.subrange(0, char_index_of(s, lo as int)) + ins@ + s.subrange(char_index_of(s, hi as int), s.len() as int);
                let caret = (lo + utf8_len(ins@)) as usize;
                new.state_is(text, Selection { start: caret, end: caret }, g, true, true, &old)
                    && flags_are(f, true, true, true, true, false, false)
            },
            EditKey::Other => unchanged && flags_are(f, false, false, false, false, false, false),
        },
        EditEvent::Other => unchanged && flags_are(f, false, false, false, false, false, false),
    }
}

impl TextEditBase {
    /// Handles an input event: moves the caret, changes the selection or
    /// edits the text, and reports what changed.
    pub fn event(&mut self, event: EditEvent) -> (r: TextEditEventResult)
        requires
            event_ok(*old(self), event),
        ensures
            event_effect(*old(self), event, *final(self), r.flags),
    {
        let mut selection_changed = false;
        let mut text_changed = false;
        let mut relayout = false;
        let mut reset_blink = false;
        let mut cancelled = false;
        let mut confirmed = false;
        match event {
            EditEvent::PointerDown { repeat_count, pointer, caret_word } => {
                if repeat_count == 2 {
                    selection_changed = self.select_word_under_cursor(caret_word);
                    self.gesture = Some(Gesture::WordSelection { anchor: self.selection });
                } else if repeat_count == 3 {
                } else {
                    let pos = self.utf16_to_utf8_offset(pointer);
                    selection_changed = self.set_cursor_at_text_position(pos, false);
                    self.gesture = Some(Gesture::CharacterSelection);
                }
                reset_blink = true;
            },
            EditEvent::PointerMove { pointer, pointer_word } => {
                match self.gesture {
                    Some(Gesture::CharacterSelection) => {
                        let pos = self.utf16_to_utf8_offset(pointer);
                        selection_changed = self.set_cursor_at_text_position(pos, true);
                        reset_blink = true;
                    },
                    Some(Gesture::WordSelection { anchor }) => {
                        let pos = self.utf16_to_utf8_offset(pointer);
                        let word = self.word_selection_at_text_position(pos, pointer_word);
                        selection_changed = self.set_selection(add_selections(anchor, word));
                        reset_blink = true;
                    },
                    None => {},
                }
            },
            EditEvent::PointerUp => {
                self.gesture = None;
            },
            EditEvent::FocusGained => {
                reset_blink = true;
            },
            EditEvent::FocusLost => {
                selection_changed = self.set_selection(Selection::empty(0));
            },
            EditEvent::KeyDown { key, shift, ctrl } => {
                match key {
                    EditKey::ArrowLeft => {
                        if ctrl {
                            self.move_cursor_to_prev_word(shift);
                        } else {
                            self.move_cursor_to_prev_grapheme(shift);
                        }
                        selection_changed = true;
                        reset_blink = true;
                    },
                    EditKey::ArrowRight => {
                        if ctrl {
                            self.move_cursor_to_next_word(shift);
                        } else {
                            self.move_cursor_to_next_grapheme(shift);
                        }
                        selection_changed = true;
                        reset_blink = true;
                    },
                    EditKey::Backspace => {
                        if self.selection.is_empty() {
                            match prev_grapheme_cluster(self.text.as_str(), self.selection.end) {
                                Some(prev) => {
                                    self.set_cursor_at_text_position(prev, false);
                                    proof {
                                        let s = self.text@;
                                        let k = char_index_of(s, prev as int);
                                        crate::text_units::lemma_boundary_unique_pub(s, k, prev as int);
                                        let ke = char_index_of(s, old(self).selection.end as int);
                                        crate::text_units::lemma_boundary_unique_pub(s, ke, old(self).selection.end as int);
                                        crate::text_units::lemma_index_below(s, k, ke);
                                    }
                                    self.text = text_removing(&self.text, prev);
                                    text_changed = true;
                                    selection_changed = true;
                                    reset_blink = true;
                                    relayout = true;
                                },
                                None => {},
                            }
                        } else {
                            let selection = self.selection;
                            proof {
                                reveal_strlit("");
                            }
                            self.text = text_replacing(&self.text, selection.min(), selection.max(), "");
                            self.set_cursor_at_text_position(selection.min(), false);
                            text_changed = true;
                            selection_changed = true;
                            reset_blink = true;
                            relayout = true;
                        }
                    },
                    EditKey::Escape => {
                        cancelled = true;
                    },
                    EditKey::Enter => {
                        confirmed = true;
                    },
                    EditKey::Character(ins) => {
                        let selection = self.selection;
                        let ins_len = ins.as_str().as_bytes().len();
                        proof {
                            lemma_encode_len(ins@);
                        }
                        self.text = text_replacing(&self.text, selection.min(), selection.max(), ins.as_str());
                        self.paragraph_stale = true;
                        self.relayout = true;
                        self.selection = Selection::empty(selection.min() + ins_len);
                        selection_changed = true;
                        text_changed = true;
                        reset_blink = true;
                        relayout = true;
                    },
                    EditKey::Other => {},
                }
            },
            EditEvent::Other => {},
        }
        TextEditEventResult {
            flags: compose_flags(selection_changed, text_changed, relayout, reset_blink, cancelled, confirmed),
        }
    }
}

} // verus!
