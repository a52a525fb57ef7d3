//! Units of text: UTF-8 and UTF-16 offsets, word and grapheme cluster
//! boundaries.
//!
//! Offsets into a text are UTF-8 byte offsets. The text layout engine works
//! with UTF-16 code unit offsets, hence the conversions between the two.

use vstd::prelude::*;
use vstd::utf8::{encode_scalar, encode_utf8};
use vstd::std_specs::iter::IteratorSpec;
use unicode_segmentation::GraphemeCursor;

verus! {

broadcast use {
    vstd::string::group_string_axioms,
    vstd::utf8::char_is_scalar,
    vstd::slice::group_slice_axioms,
};

/// Number of bytes of the UTF-8 encoding of `c`.
pub open spec fn utf8_width(c: char) -> nat {
    if (c as u32) < 0x80 {
        1
    } else if (c as u32) < 0x800 {
        2
    } else if (c as u32) < 0x10000 {
        3
    } else {
        4
    }
}

/// Number of code units of the UTF-16 encoding of `c`.
pub open spec fn utf16_width(c: char) -> nat {
    if (c as u32) < 0x10000 {
        1
    } else {
        2
    }
}

/// Number of bytes of the UTF-8 encoding of `s`.
pub open spec fn utf8_len(s: Seq<char>) -> nat
    decreases s.len(),
{
    if s.len() == 0 {
        0
    } else {
        utf8_width(s[0]) + utf8_len(s.drop_first())
    }
}

/// Number of code units of the UTF-16 encoding of `s`.
pub open spec fn utf16_len(s: Seq<char>) -> nat
    decreases s.len(),
{
    if s.len() == 0 {
        0
    } else {
        utf16_width(s[0]) + utf16_len(s.drop_first())
    }
}

/// The UTF-8 offset of the boundary before the `k`-th character.
pub open spec fn byte_offset(s: Seq<char>, k: int) -> nat {
    utf8_len(s.subrange(0, k))
}

/// The UTF-16 offset of the boundary before the `k`-th character.
pub open spec fn utf16_pos(s: Seq<char>, k: int) -> nat {
    utf16_len(s.subrange(0, k))
}

/// `off` is the UTF-8 offset of the boundary before character `k`.
pub open spec fn utf8_boundary_at(s: Seq<char>, k: int, off: int) -> bool {
    0 <= k <= s.len() && byte_offset(s, k) == off
}

/// `off` is the UTF-16 offset of the boundary before character `k`.
pub open spec fn utf16_boundary_at(s: Seq<char>, k: int, off: int) -> bool {
    0 <= k <= s.len() && utf16_pos(s, k) == off
}

/// `off` falls on a character boundary of the UTF-8 encoding of `s`.
pub open spec fn is_utf8_boundary(s: Seq<char>, off: int) -> bool {
    exists|k: int| utf8_boundary_at(s, k, off)
}

/// The index of the character that starts at UTF-8 offset `off`.
pub open spec fn char_index_of(s: Seq<char>, off: int) -> int {
    choose|k: int| utf8_boundary_at(s, k, off)
}

/// The UTF-16 offset of the UTF-8 offset `off`; an offset that is not on a
/// character boundary maps to the end of the text.
pub open spec fn utf8_to_utf16_spec(s: Seq<char>, off: int) -> nat {
    if exists|k: int| utf8_boundary_at(s, k, off) {
        utf16_pos(s, choose|k: int| utf8_boundary_at(s, k, off))
    } else {
        utf16_len(s)
    }
}

/// The UTF-8 offset of the UTF-16 offset `off`; an offset that is not on a
/// character boundary maps to the end of the text.
pub open spec fn utf16_to_utf8_spec(s: Seq<char>, off: int) -> nat {
    if exists|k: int| utf16_boundary_at(s, k, off) {
        byte_offset(s, choose|k: int| utf16_boundary_at(s, k, off))
    } else {
        utf8_len(s)
    }
}

proof fn lemma_utf8_len_push(s: Seq<char>, c: char)
    ensures
        utf8_len(s.push(c)) == utf8_len(s) + utf8_width(c),
        utf16_len(s.push(c)) == utf16_len(s) + utf16_width(c),
    decreases s.len(),
{
    if s.len() > 0 {
        assert(s.push(c)[0] == s[0]);
        assert(s.push(c).drop_first() == s.drop_first().push(c));
        lemma_utf8_len_push(s.drop_first(), c);
        assert(utf8_len(s.push(c)) == utf8_width(s[0]) + utf8_len(s.push(c).drop_first()));
        assert(utf16_len(s.push(c)) == utf16_width(s[0]) + utf16_len(s.push(c).drop_first()));
    } else {
        assert(s.push(c)[0] == c);
        assert(s.push(c).drop_first() == Seq::<char>::empty());
        assert(utf8_len(Seq::<char>::empty()) == 0);
        assert(utf16_len(Seq::<char>::empty()) == 0);
        assert(utf8_len(s.push(c)) == utf8_width(c) + utf8_len(s.push(c).drop_first()));
        assert(utf16_len(s.push(c)) == utf16_width(c) + utf16_len(s.push(c).drop_first()));
    }
}

proof fn lemma_offset_step(s: Seq<char>, k: int)
    requires
        0 <= k < s.len(),
    ensures
        byte_offset(s, k + 1) == byte_offset(s, k) + utf8_width(s[k]),
        utf16_pos(s, k + 1) == utf16_pos(s, k) + utf16_width(s[k]),
{
    assert(s.subrange(0, k + 1) == s.subrange(0, k).push(s[k]));
    lemma_utf8_len_push(s.subrange(0, k), s[k]);
}

/// Offsets of boundaries grow strictly with the character index.
proof fn lemma_offsets_increase(s: Seq<char>, i: int, j: int)
    requires
        0 <= i < j <= s.len(),
    ensures
        byte_offset(s, i) < byte_offset(s, j),
        utf16_pos(s, i) < utf16_pos(s, j),
    decreases j - i,
{
    lemma_offset_step(s, j - 1);
    if i < j - 1 {
        lemma_offsets_increase(s, i, j - 1);
    }
}

proof fn lemma_utf8_boundary_unique(s: Seq<char>, k: int, off: int)
    requires
        utf8_boundary_at(s, k, off),
    ensures
        is_utf8_boundary(s, off),
        char_index_of(s, off) == k,
        utf8_to_utf16_spec(s, off) == utf16_pos(s, k),
{
    let j = char_index_of(s, off);
    if j < k {
        lemma_offsets_increase(s, j, k);
    } else if k < j {
        lemma_offsets_increase(s, k, j);
    }
}

proof fn lemma_utf16_boundary_unique(s: Seq<char>, k: int, off: int)
    requires
        utf16_boundary_at(s, k, off),
    ensures
        utf16_to_utf8_spec(s, off) == byte_offset(s, k),
{
    let j = choose|j: int| utf16_boundary_at(s, j, off);
    if j < k {
        lemma_offsets_increase(s, j, k);
    } else if k < j {
        lemma_offsets_increase(s, k, j);
    }
}

/// The UTF-8 encoding of `s` has `utf8_len(s)` bytes.
pub proof fn lemma_encode_len(s: Seq<char>)
    ensures
        encode_utf8(s).len() == utf8_len(s),
    decreases s.len(),
{
    if s.len() > 0 {
        lemma_encode_len(s.drop_first());
        let v = s[0] as u32;
        vstd::utf8::char_is_scalar(s[0]);
        assert(encode_scalar(v).len() == utf8_width(s[0]));
    }
}

proof fn lemma_utf16_le_utf8(s: Seq<char>)
    ensures
        s.len() <= utf16_len(s) <= utf8_len(s),
    decreases s.len(),
{
    if s.len() > 0 {
        lemma_utf16_le_utf8(s.drop_first());
    }
}

/// Every boundary offset lies within the encoding, and UTF-16 offsets do
/// not exceed UTF-8 ones.
proof fn lemma_offset_bounds(s: Seq<char>, k: int)
    requires
        0 <= k <= s.len(),
    ensures
        byte_offset(s, k) <= utf8_len(s),
        utf16_pos(s, k) <= utf16_len(s),
        utf16_pos(s, k) <= byte_offset(s, k),
{
    lemma_whole(s);
    if k < s.len() {
        lemma_offsets_increase(s, k, s.len() as int);
    }
    lemma_utf16_le_utf8(s.subrange(0, k));
}

proof fn lemma_whole(s: Seq<char>)
    ensures
        byte_offset(s, s.len() as int) == utf8_len(s),
        utf16_pos(s, s.len() as int) == utf16_len(s),
{
    assert(s.subrange(0, s.len() as int) == s);
}

/// Number of bytes of the UTF-8 encoding of `c`.
pub fn char_len_utf8(c: char) -> (r: usize)
    ensures
        r == utf8_width(c),
{
    let v = c as u32;
    if v < 0x80 {
        1
    } else if v < 0x800 {
        2
    } else if v < 0x10000 {
        3
    } else {
        4
    }
}

/// Number of UTF-16 code units of the encoding of `c`.
pub fn char_len_utf16(c: char) -> (r: usize)
    ensures
        r == utf16_width(c),
{
    let v = c as u32;
    if v < 0x10000 {
        1
    } else {
        2
    }
}

/// Converts a UTF-8 offset into `text` to a UTF-16 offset. An offset that
/// is not on a character boundary maps to the UTF-16 length of the text.
pub fn utf8_to_utf16_offset(text: &str, utf8_offset: usize) -> (r: usize)
    ensures
        r == utf8_to_utf16_spec(text@, utf8_offset as int),
{
    let ghost s = text@;
    let mut off: usize = 0;
    let mut i: usize = 0;
    let mut k: usize = 0;
    proof {
        lemma_encode_len(s);
        assert(s.subrange(0, 0) == Seq::<char>::empty());
    }
    let n = text.as_bytes().len();
    proof {
        lemma_utf16_le_utf8(s);
    }
    for c in it: text.chars()
        invariant
            it.seq() == s,
            s == text@,
            k == it.index(),
            0 <= k <= s.len(),
            i == byte_offset(s, k as int),
            off == utf16_pos(s, k as int),
            n == utf8_len(s),
            s.len() <= n,
            forall|j: int| 0 <= j < k ==> byte_offset(s, j) != utf8_offset,
    {
        if i == utf8_offset {
            proof {
                assert(utf8_boundary_at(s, k as int, utf8_offset as int));
                lemma_utf8_boundary_unique(s, k as int, utf8_offset as int);
                assert(utf8_to_utf16_spec(s, utf8_offset as int) == off);
            }
            return off;
        }
        proof {
            lemma_offset_step(s, k as int);
            lemma_offset_bounds(s, k + 1);
        }
        off = off + char_len_utf16(c);
        i = i + char_len_utf8(c);
        k = k + 1;
    }
    proof {
        lemma_whole(s);
        if exists|j: int| utf8_boundary_at(s, j, utf8_offset as int) {
            let j = choose|j: int| utf8_boundary_at(s, j, utf8_offset as int);
            if j == s.len() {
                lemma_utf8_boundary_unique(s, j, utf8_offset as int);
            }
        }
    }
    off
}


/// Converts a UTF-16 offset into `text` to a UTF-8 offset. An offset that
/// is not on a character boundary maps to the byte length of the text.
pub fn utf16_to_utf8_offset(text: &str, utf16_offset: usize) -> (r: usize)
    ensures
        r == utf16_to_utf8_spec(text@, utf16_offset as int),
{
    let ghost s = text@;
    let mut off: usize = 0;
    let mut i: usize = 0;
    let mut k: usize = 0;
    proof {
        lemma_encode_len(s);
        assert(s.subrange(0, 0) == Seq::<char>::empty());
    }
    let n = text.as_bytes().len();
    proof {
        lemma_utf16_le_utf8(s);
    }
    for c in it: text.chars()
        invariant
            it.seq() == s,
            s == text@,
            k == it.index(),
            0 <= k <= s.len(),
            i == byte_offset(s, k as int),
            off == utf16_pos(s, k as int),
            n == utf8_len(s),
            s.len() <= n,
            forall|j: int| 0 <= j < k ==> utf16_pos(s, j) != utf16_offset,
    {
        if off == utf16_offset {
            proof {
                assert(utf16_boundary_at(s, k as int, utf16_offset as int));
                lemma_utf16_boundary_unique(s, k as int, utf16_offset as int);
            }
            return i;
        }
        proof {
            lemma_offset_step(s, k as int);
            lemma_offset_bounds(s, k + 1);
        }
        off = off + char_len_utf16(c);
        i = i + char_len_utf8(c);
        k = k + 1;
    }
    proof {
        lemma_whole(s);
        if exists|j: int| utf16_boundary_at(s, j, utf16_offset as int) {
            let j = choose|j: int| utf16_boundary_at(s, j, utf16_offset as int);
            if j == s.len() {
                lemma_utf16_boundary_unique(s, j, utf16_offset as int);
            }
        }
    }
    n
}

/// The characters of `text`, in order.
pub fn chars_vec(text: &str) -> (v: Vec<char>)
    ensures
        v@ == text@,
{
    let ghost s = text@;
    let mut v: Vec<char> = Vec::new();
    for c in it: text.chars()
        invariant
            it.seq() == s,
            s == text@,
            v@ == s.subrange(0, it.index() as int),
    {
        proof {
            assert(s.subrange(0, it.index() + 1) == s.subrange(0, it.index() as int).push(c));
        }
        v.push(c);
    }
    proof {
        assert(s.subrange(0, s.len() as int) == s);
    }
    v
}

/// `c` has the Unicode `White_Space` property.
pub open spec fn is_white_space(c: char) -> bool {
    let v = c as u32;
    ||| 0x09 <= v <= 0x0D
    ||| v == 0x20
    ||| v == 0x85
    ||| v == 0xA0
    ||| v == 0x1680
    ||| 0x2000 <= v <= 0x200A
    ||| v == 0x2028
    ||| v == 0x2029
    ||| v == 0x202F
    ||| v == 0x205F
    ||| v == 0x3000
}

/// Whether `c` is white space (the Unicode `White_Space` property), as
/// `char::is_whitespace` decides.
pub fn char_is_whitespace(c: char) -> (r: bool)
    ensures
        r == is_white_space(c),
{
    let v = c as u32;
    (0x09 <= v && v <= 0x0D) || v == 0x20 || v == 0x85 || v == 0xA0 || v == 0x1680
        || (0x2000 <= v && v <= 0x200A) || v == 0x2028 || v == 0x2029 || v == 0x202F
        || v == 0x205F || v == 0x3000
}

/// Whether `c` is alphabetic or numeric, as `char::is_alphanumeric` decides.
pub uninterp spec fn is_alnum(c: char) -> bool;

/// `char::is_alphanumeric`: whether `c` has the Unicode `Alphabetic` or
/// `Numeric` property. Stated: the result is `is_alnum(c)`, and among ASCII
/// characters exactly the letters and the digits are alphanumeric.
#[verifier::external_body]
fn char_is_alphanumeric(c: char) -> (r: bool)
    ensures
        r == is_alnum(c),
        (c as u32) < 0x80 ==> (r <==> (('a' <= c && c <= 'z') || ('A' <= c && c <= 'Z') || ('0' <= c && c <= '9'))),
{
    c.is_alphanumeric()
}

/// Whether `c` belongs to a word: an ASCII letter or digit, or, beyond
/// ASCII, a character that `char::is_alphanumeric` accepts.
pub open spec fn word_char(c: char) -> bool {
    if (c as u32) < 0x80 {
        ('a' <= c && c <= 'z') || ('A' <= c && c <= 'Z') || ('0' <= c && c <= '9')
    } else {
        is_alnum(c)
    }
}

/// Whether `c` belongs to a word, as `char::is_alphanumeric` decides.
pub fn char_is_word(c: char) -> (r: bool)
    ensures
        r == word_char(c),
{
    char_is_alphanumeric(c)
}

/// The first index from `k` whose character is not white space.
pub open spec fn skip_white(s: Seq<char>, k: int) -> int
    decreases s.len() - k,
{
    if 0 <= k < s.len() && is_white_space(s[k]) {
        skip_white(s, k + 1)
    } else {
        k
    }
}

/// The first index from `k` whose character is not alphanumeric.
pub open spec fn skip_alnum(s: Seq<char>, k: int) -> int
    decreases s.len() - k,
{
    if 0 <= k < s.len() && word_char(s[k]) {
        skip_alnum(s, k + 1)
    } else {
        k
    }
}

/// Going left from boundary `k`, the first boundary whose preceding
/// character is not white space.
pub open spec fn skip_white_back(s: Seq<char>, k: int) -> int
    decreases k,
{
    if 0 < k <= s.len() && is_white_space(s[k - 1]) {
        skip_white_back(s, k - 1)
    } else {
        k
    }
}

/// Going left from boundary `k`, the first boundary whose preceding
/// character is not alphanumeric.
pub open spec fn skip_alnum_back(s: Seq<char>, k: int) -> int
    decreases k,
{
    if 0 < k <= s.len() && word_char(s[k - 1]) {
        skip_alnum_back(s, k - 1)
    } else {
        k
    }
}

/// The boundary that the caret reaches when moving one word right from
/// boundary `k`: past white space, then past a run of alphanumeric
/// characters, or past one other character.
pub open spec fn next_word_index(s: Seq<char>, k: int) -> int {
    let k1 = skip_white(s, k);
    if k1 >= s.len() {
        k1
    } else if word_char(s[k1]) {
        skip_alnum(s, k1 + 1)
    } else {
        k1 + 1
    }
}

/// The boundary that the caret reaches when moving one word left from
/// boundary `k`: past white space, then past a run of alphanumeric
/// characters, or past one other character.
pub open spec fn prev_word_index(s: Seq<char>, k: int) -> int {
    let j = skip_white_back(s, k);
    if j <= 0 {
        j
    } else if word_char(s[j - 1]) {
        skip_alnum_back(s, j - 1)
    } else {
        j - 1
    }
}

proof fn lemma_skip_bounds(s: Seq<char>, k: int)
    requires
        0 <= k <= s.len(),
    ensures
        k <= skip_white(s, k) <= s.len(),
        k <= skip_alnum(s, k) <= s.len(),
        0 <= skip_white_back(s, k) <= k,
        0 <= skip_alnum_back(s, k) <= k,
    decreases s.len() - k,
{
    if k < s.len() {
        lemma_skip_bounds(s, k + 1);
    }
    lemma_skip_back_bounds(s, k);
}

proof fn lemma_skip_back_bounds(s: Seq<char>, k: int)
    requires
        0 <= k <= s.len(),
    ensures
        0 <= skip_white_back(s, k) <= k,
        0 <= skip_alnum_back(s, k) <= k,
    decreases k,
{
    if k > 0 {
        lemma_skip_back_bounds(s, k - 1);
    }
}

/// Index of the character boundary at UTF-8 offset `offset` of `v`.
pub fn char_index_at(v: &Vec<char>, offset: usize) -> (k: usize)
    requires
        is_utf8_boundary(v@, offset as int),
    ensures
        utf8_boundary_at(v@, k as int, offset as int),
        k == char_index_of(v@, offset as int),
{
    let ghost s = v@;
    let mut k: usize = 0;
    let mut b: usize = 0;
    proof {
        assert(s.subrange(0, 0) == Seq::<char>::empty());
    }
    while k < v.len() && b != offset
        invariant
            s == v@,
            0 <= k <= s.len(),
            b == byte_offset(s, k as int),
            b <= offset,
            is_utf8_boundary(s, offset as int),
            forall|j: int| 0 <= j < k ==> byte_offset(s, j) != offset,
        decreases s.len() - k,
    {
        proof {
            lemma_offset_step(s, k as int);
            let w = choose|w: int| utf8_boundary_at(s, w, offset as int);
            if w <= k {
                if w < k {
                    lemma_offsets_increase(s, w, k as int);
                }
            } else if w > k + 1 {
                lemma_offsets_increase(s, k + 1, w);
            }
        }
        b = b + char_len_utf8(v[k]);
        k = k + 1;
    }
    proof {
        let w = choose|w: int| utf8_boundary_at(s, w, offset as int);
        if b != offset {
            assert(w <= s.len());
            assert(w != k);
        }
        lemma_utf8_boundary_unique(s, k as int, offset as int);
    }
    k
}

/// The state of a scan over the characters of a word.
enum WordScan {
    LeadingWhitespace,
    Alnum,
    NotAlnum,
}

/// The UTF-8 offset that the caret reaches when it moves one word right
/// from `offset`.
pub fn next_word_boundary(text: &str, offset: usize) -> (r: usize)
    requires
        is_utf8_boundary(text@, offset as int),
    ensures
        r == byte_offset(text@, next_word_index(text@, char_index_of(text@, offset as int))),
{
    let v = chars_vec(text);
    let ghost s = v@;
    let k0 = char_index_at(&v, offset);
    let n = text.as_bytes().len();
    proof {
        lemma_encode_len(s);
        lemma_skip_bounds(s, k0 as int);
    }
    let mut pos: usize = offset;
    let mut k: usize = k0;
    let mut state = WordScan::LeadingWhitespace;
    while k < v.len()
        invariant
            s == v@,
            s == text@,
            k0 == char_index_of(s, offset as int),
            n == utf8_len(s),
            k0 <= k <= s.len(),
            pos == byte_offset(s, k as int),
            k0 <= skip_white(s, k0 as int) <= s.len(),
            match state {
                WordScan::LeadingWhitespace => skip_white(s, k as int) == skip_white(s, k0 as int),
                WordScan::Alnum => {
                    let k1 = skip_white(s, k0 as int);
                    &&& k1 < k
                    &&& word_char(s[k1])
                    &&& skip_alnum(s, k as int) == skip_alnum(s, k1 + 1)
                },
                WordScan::NotAlnum => {
                    let k1 = skip_white(s, k0 as int);
                    &&& k == k1 + 1
                    &&& k1 < s.len()
                    &&& !word_char(s[k1])
                },
            },
        decreases s.len() - k,
    {
        let ch = v[k];
        match state {
            WordScan::LeadingWhitespace => {
                if !char_is_whitespace(ch) {
                    if char_is_word(ch) {
                        state = WordScan::Alnum;
                    } else {
                        state = WordScan::NotAlnum;
                    }
                }
            },
            WordScan::Alnum => {
                if !char_is_word(ch) {
                    return pos;
                }
            },
            WordScan::NotAlnum => {
                return pos;
            },
        }
        proof {
            lemma_offset_step(s, k as int);
            lemma_offset_bounds(s, k + 1);
        }
        pos = pos + char_len_utf8(ch);
        k = k + 1;
    }
    pos
}

/// The UTF-8 offset that the caret reaches when it moves one word left
/// from `offset`.
pub fn prev_word_boundary(text: &str, offset: usize) -> (r: usize)
    requires
        is_utf8_boundary(text@, offset as int),
    ensures
        r == byte_offset(text@, prev_word_index(text@, char_index_of(text@, offset as int))),
{
    let v = chars_vec(text);
    let ghost s = v@;
    let k0 = char_index_at(&v, offset);
    proof {
        lemma_skip_back_bounds(s, k0 as int);
    }
    let mut pos: usize = offset;
    let mut k: usize = k0;
    let mut state = WordScan::LeadingWhitespace;
    while k > 0
        invariant
            s == v@,
            s == text@,
            k0 == char_index_of(s, offset as int),
            0 <= k <= k0 <= s.len(),
            pos == byte_offset(s, k as int),
            0 <= skip_white_back(s, k0 as int) <= k0,
            match state {
                WordScan::LeadingWhitespace => skip_white_back(s, k as int) == skip_white_back(s, k0 as int),
                WordScan::Alnum => {
                    let j = skip_white_back(s, k0 as int);
                    &&& k < j
                    &&& word_char(s[j - 1])
                    &&& skip_alnum_back(s, k as int) == skip_alnum_back(s, j - 1)
                },
                WordScan::NotAlnum => {
                    let j = skip_white_back(s, k0 as int);
                    &&& k == j - 1
                    &&& j > 0
                    &&& !word_char(s[j - 1])
                },
            },
        decreases k,
    {
        let ch = v[k - 1];
        match state {
            WordScan::LeadingWhitespace => {
                if !char_is_whitespace(ch) {
                    if char_is_word(ch) {
                        state = WordScan::Alnum;
                    } else {
                        state = WordScan::NotAlnum;
                    }
                }
            },
            WordScan::Alnum => {
                if !char_is_word(ch) {
                    return pos;
                }
            },
            WordScan::NotAlnum => {
                return pos;
            },
        }
        proof {
            lemma_offset_step(s, k - 1);
        }
        pos = pos - char_len_utf8(ch);
        k = k - 1;
    }
    proof {
        assert(s.subrange(0, 0) == Seq::<char>::empty());
    }
    pos
}

/// Where the extended grapheme cluster boundary that follows UTF-8 offset
/// `offset` of `text` falls, as `unicode_segmentation` finds it.
pub uninterp spec fn next_grapheme_boundary(text: Seq<char>, offset: usize) -> Option<usize>;

/// Where the extended grapheme cluster boundary that precedes UTF-8 offset
/// `offset` of `text` falls, as `unicode_segmentation` finds it.
pub uninterp spec fn prev_grapheme_boundary(text: Seq<char>, offset: usize) -> Option<usize>;

/// `GraphemeCursor::next_boundary` over the whole of `text`, from
/// `offset`, with extended grapheme clusters. Stated: the result is
/// `next_grapheme_boundary(text@, offset)`; there is none exactly at the end
/// of the text, and otherwise it is a character boundary after `offset`.
/// With the whole text as the chunk, the cursor never asks for more context.
#[verifier::external_body]
pub(crate) fn next_grapheme_cluster(text: &str, offset: usize) -> (r: Option<usize>)
    requires
        is_utf8_boundary(text@, offset as int),
    ensures
        r == next_grapheme_boundary(text@, offset),
        r is None <==> offset == utf8_len(text@),
        r matches Some(b) ==> offset < b <= utf8_len(text@) && is_utf8_boundary(text@, b as int),
{
    let mut c = GraphemeCursor::new(offset, text.len(), true);
    c.next_boundary(text, 0).unwrap()
}

/// `GraphemeCursor::prev_boundary` over the whole of `text`, from
/// `offset`, with extended grapheme clusters. Stated: the result is
/// `prev_grapheme_boundary(text@, offset)`; there is none exactly at the
/// start of the text, and otherwise it is a character boundary before
/// `offset`. With the whole text as the chunk, the cursor never asks for
/// more context.
#[verifier::external_body]
pub(crate) fn prev_grapheme_cluster(text: &str, offset: usize) -> (r: Option<usize>)
    requires
        is_utf8_boundary(text@, offset as int),
    ensures
        r == prev_grapheme_boundary(text@, offset),
        r is None <==> offset == 0,
        r matches Some(b) ==> b < offset && is_utf8_boundary(text@, b as int),
{
    let mut c = GraphemeCursor::new(offset, text.len(), true);
    c.prev_boundary(text, 0).unwrap()
}

/// Boundary offsets lie within the encoding.
pub proof fn lemma_offset_bounds_pub(s: Seq<char>, k: int)
    requires
        0 <= k <= s.len(),
    ensures
        byte_offset(s, k) <= utf8_len(s),
        k < s.len() ==> byte_offset(s, k) < utf8_len(s),
{
    lemma_offset_bounds(s, k);
    lemma_whole(s);
    if k < s.len() {
        lemma_offsets_increase(s, k, s.len() as int);
    }
}

/// The boundary after character `k` is its width past the one before it.
pub proof fn lemma_offset_step_pub(s: Seq<char>, k: int)
    requires
        0 <= k < s.len(),
    ensures
        byte_offset(s, k + 1) == byte_offset(s, k) + utf8_width(s[k]),
{
    lemma_offset_step(s, k);
}

/// A UTF-16 offset converts to a UTF-8 offset within the text.
pub proof fn lemma_boundary_of_utf16_le(s: Seq<char>, off: int)
    ensures
        utf16_to_utf8_spec(s, off) <= utf8_len(s),
{
    if exists|k: int| utf16_boundary_at(s, k, off) {
        let k = choose|k: int| utf16_boundary_at(s, k, off);
        lemma_offset_bounds(s, k);
    }
}

/// The character index of a boundary offset is the one that names it.
pub proof fn lemma_boundary_unique_pub(s: Seq<char>, k: int, off: int)
    requires
        is_utf8_boundary(s, off),
        k == char_index_of(s, off),
    ensures
        utf8_boundary_at(s, k, off),
{
}

/// Of two boundaries, the one at the smaller offset has the smaller index.
pub proof fn lemma_index_below(s: Seq<char>, i: int, j: int)
    requires
        0 <= i <= s.len(),
        0 <= j <= s.len(),
        byte_offset(s, i) < byte_offset(s, j),
    ensures
        i < j,
{
    if j < i {
        lemma_offsets_increase(s, j, i);
    }
}

/// Converting a character boundary to UTF-16 and back gives it back.
pub proof fn lemma_offset_round_trip(s: Seq<char>, k: int)
    requires
        0 <= k <= s.len(),
    ensures
        utf8_to_utf16_spec(s, byte_offset(s, k) as int) == utf16_pos(s, k),
        utf16_to_utf8_spec(s, utf8_to_utf16_spec(s, byte_offset(s, k) as int) as int) == byte_offset(s, k),
{
    lemma_utf8_boundary_unique(s, k, byte_offset(s, k) as int);
    lemma_utf16_boundary_unique(s, k, utf16_pos(s, k) as int);
}

/// Moving one word right never moves left nor past the end, and moving one
/// word left never moves right nor before the start.
pub proof fn lemma_word_moves(s: Seq<char>, k: int)
    requires
        0 <= k <= s.len(),
    ensures
        k <= next_word_index(s, k) <= s.len(),
        0 <= prev_word_index(s, k) <= k,
{
    lemma_skip_bounds(s, k);
    let k1 = skip_white(s, k);
    if k1 < s.len() {
        lemma_skip_bounds(s, k1 + 1);
    }
    let j = skip_white_back(s, k);
    if j > 0 {
        lemma_skip_back_bounds(s, j - 1);
    }
}

} // verus!
