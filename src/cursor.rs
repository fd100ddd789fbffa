//! The candidate cursor: a window `[start, end)` over the bytes of a text that
//! grows one Unicode scalar at a time and is then collected or discarded.

use vstd::prelude::*;
use vstd::utf8::*;
use vstd::string::StringSliceAdditionalSpecFns;
use crate::text::Range;
use crate::utf8::{chars_in, lemma_boundary_shift, lemma_str_valid, substr, valid_range};

verus! {

broadcast use vstd::utf8::group_utf8_lib;

/// The bytes from offset `i` to the end.
pub open spec fn rest(bytes: Seq<u8>, i: int) -> Seq<u8> {
    bytes.subrange(i, bytes.len() as int)
}

/// The length in bytes of the scalar that starts at offset `i`.
pub open spec fn scalar_len(bytes: Seq<u8>, i: int) -> int {
    length_of_first_scalar(rest(bytes, i))
}

/// The scalar that starts at offset `i`.
pub open spec fn scalar_at(bytes: Seq<u8>, i: int) -> char {
    decode_first_scalar(rest(bytes, i)) as char
}

/// The offset of the last byte before `i` that is not a continuation byte, or 0.
pub open spec fn prev_boundary(bytes: Seq<u8>, i: int) -> int
    decreases i,
{
    if i <= 0 {
        0
    } else if !is_continuation_byte(bytes[i - 1]) {
        i - 1
    } else {
        prev_boundary(bytes, i - 1)
    }
}

/// Where `undo` leaves the end of the window `[start, end)`: one scalar back,
/// but never before `start`.
pub open spec fn undo_end(bytes: Seq<u8>, start: int, end: int) -> int {
    if end <= start {
        end
    } else {
        prev_boundary(bytes, end)
    }
}

/// A cursor operation, as far as it moves the window.
pub enum Step {
    Advance,
    Undo,
    Discard,
}

/// The window `(start, end)` after one operation.
pub open spec fn step(bytes: Seq<u8>, w: (int, int), s: Step) -> (int, int) {
    match s {
        Step::Advance => if w.1 < bytes.len() {
            (w.0, w.1 + scalar_len(bytes, w.1))
        } else {
            w
        },
        Step::Undo => (w.0, undo_end(bytes, w.0, w.1)),
        Step::Discard => (w.1, w.1),
    }
}

/// The window after a sequence of operations.
pub open spec fn run(bytes: Seq<u8>, w: (int, int), steps: Seq<Step>) -> (int, int)
    decreases steps.len(),
{
    if steps.len() == 0 {
        w
    } else {
        run(bytes, step(bytes, w, steps[0]), steps.drop_first())
    }
}

/// The scalar at a boundary before the end is well formed, and the offset
/// after it is a boundary too.
pub proof fn lemma_scalar_at(bytes: Seq<u8>, i: int)
    requires
        valid_utf8(bytes),
        is_char_boundary(bytes, i),
        0 <= i < bytes.len(),
    ensures
        valid_first_scalar(rest(bytes, i)),
        1 <= scalar_len(bytes, i) <= 4,
        i + scalar_len(bytes, i) <= bytes.len(),
        is_char_boundary(bytes, i + scalar_len(bytes, i)),
        !is_continuation_byte(bytes[i]),
        forall|k: int| i < k < i + scalar_len(bytes, i) ==> is_continuation_byte(#[trigger] bytes[k]),
{
    let r = rest(bytes, i);
    lemma_boundary_shift(bytes, i, i);
    assert(valid_first_scalar(r));
    let n = length_of_first_scalar(r);
    reveal_with_fuel(is_char_boundary, 2);
    assert(is_char_boundary(pop_first_scalar(r), 0));
    assert(is_char_boundary(r, n));
    lemma_boundary_shift(bytes, i, i + n);
    assert(bytes[i] == r[0]);
    assert forall|k: int| i < k < i + n implies is_continuation_byte(#[trigger] bytes[k]) by {
        assert(bytes[k] == r[k - i]);
    }
}

/// Stepping back from `e` past continuation bytes stays within `[start, e)` and
/// ends on a boundary.
pub proof fn lemma_prev_boundary(bytes: Seq<u8>, start: int, e: int)
    requires
        valid_utf8(bytes),
        0 <= start < e <= bytes.len(),
        is_char_boundary(bytes, start),
    ensures
        start <= prev_boundary(bytes, e) < e,
        is_char_boundary(bytes, prev_boundary(bytes, e)),
    decreases e,
{
    is_char_boundary_iff_not_is_continuation_byte(bytes, start);
    is_char_boundary_iff_not_is_continuation_byte(bytes, e - 1);
    if is_continuation_byte(bytes[e - 1]) {
        assert(start < e - 1);
        lemma_prev_boundary(bytes, start, e - 1);
    }
}

/// One operation keeps both ends of the window on scalar boundaries.
pub proof fn lemma_step_on_boundaries(bytes: Seq<u8>, w: (int, int), s: Step)
    requires
        valid_utf8(bytes),
        valid_range(bytes, w.0, w.1),
    ensures
        valid_range(bytes, step(bytes, w, s).0, step(bytes, w, s).1),
{
    match s {
        Step::Advance => {
            if w.1 < bytes.len() {
                lemma_scalar_at(bytes, w.1);
            }
        },
        Step::Undo => {
            if w.0 < w.1 {
                lemma_prev_boundary(bytes, w.0, w.1);
            }
        },
        Step::Discard => {},
    }
}

/// Any sequence of advances, undos and discards keeps both ends of the window
/// on scalar boundaries of the text: no window ever splits a multi-byte scalar.
pub proof fn lemma_run_on_boundaries(bytes: Seq<u8>, w: (int, int), steps: Seq<Step>)
    requires
        valid_utf8(bytes),
        valid_range(bytes, w.0, w.1),
    ensures
        valid_range(bytes, run(bytes, w, steps).0, run(bytes, w, steps).1),
    decreases steps.len(),
{
    if steps.len() > 0 {
        lemma_step_on_boundaries(bytes, w, steps[0]);
        lemma_run_on_boundaries(bytes, step(bytes, w, steps[0]), steps.drop_first());
    }
}

/// An advance followed at once by an undo puts the end of the window back
/// where it was, for scalars of every width.
pub proof fn lemma_undo_after_advance(bytes: Seq<u8>, start: int, end: int)
    requires
        valid_utf8(bytes),
        valid_range(bytes, start, end),
        end < bytes.len(),
    ensures
        step(bytes, step(bytes, (start, end), Step::Advance), Step::Undo) == (start, end),
{
    lemma_scalar_at(bytes, end);
    let n = scalar_len(bytes, end);
    assert(prev_boundary(bytes, end + 1) == end);
    if n >= 2 {
        assert(is_continuation_byte(bytes[end + 1]));
        assert(prev_boundary(bytes, end + 2) == end);
    }
    if n >= 3 {
        assert(is_continuation_byte(bytes[end + 2]));
        assert(prev_boundary(bytes, end + 3) == end);
    }
    if n >= 4 {
        assert(is_continuation_byte(bytes[end + 3]));
        assert(prev_boundary(bytes, end + 4) == end);
    }
}

proof fn lemma_bits_1(x: u8)
    by (bit_vector)
    requires
        x < 0x80,
    ensures
        (x as u32) == ((x & 0x7F) as u32),
        (x as u32) <= 0x7F,
{
}

proof fn lemma_bits_2(x: u8, y: u8)
    by (bit_vector)
    requires
        0xC0 <= x <= 0xDF,
    ensures
        ((((x & 0x1F) as u32) << 6) | ((y & 0x3F) as u32)) <= 0x7FF,
{
}

proof fn lemma_bits_3(x: u8, y: u8, z: u8)
    by (bit_vector)
    requires
        0xE0 <= x <= 0xEF,
    ensures
        ((((x & 0x1F) as u32) << 12) | ((((y & 0x3F) as u32) << 6) | ((z & 0x3F) as u32))) == (
        (((x & 0x0F) as u32) << 12) | (((y & 0x3F) as u32) << 6) | ((z & 0x3F) as u32)),
        ((((x & 0x0F) as u32) << 12) | (((y & 0x3F) as u32) << 6) | ((z & 0x3F) as u32))
            <= 0xFFFF,
{
}

proof fn lemma_bits_4(x: u8, y: u8, z: u8, w: u8)
    by (bit_vector)
    ensures
        (((((x & 0x1F) as u32) & 7) << 18) | (((((y & 0x3F) as u32) << 6) | ((z & 0x3F) as u32))
            << 6) | ((w & 0x3F) as u32)) == ((((x & 0x07) as u32) << 18) | (((y & 0x3F) as u32)
            << 12) | (((z & 0x3F) as u32) << 6) | ((w & 0x3F) as u32)),
{
}

/// Relies on `char::from_u32`: the character with the given value, or `None`
/// where the value is no Unicode scalar value.
#[verifier::external_body]
fn char_from_u32(v: u32) -> (r: Option<char>)
    ensures
        is_scalar(v) ==> r == Some(v as char),
        !is_scalar(v) ==> r is None,
{
    char::from_u32(v)
}

/// A window `[start, end)` over the bytes of a borrowed string.
#[derive(Debug)]
pub struct Cursor<'a> {
    text: &'a str,
    bytes: &'a [u8],
    start: usize,
    end: usize,
}

impl<'a> Cursor<'a> {
    pub closed spec fn text_view(&self) -> &'a str {
        self.text
    }

    pub closed spec fn start_view(&self) -> int {
        self.start as int
    }

    pub closed spec fn end_view(&self) -> int {
        self.end as int
    }

    pub closed spec fn bytes_match(&self) -> bool {
        self.bytes@ == self.text.spec_bytes()
    }

    /// The bytes the cursor walks.
    pub open spec fn bytes_view(&self) -> Seq<u8> {
        self.text_view().spec_bytes()
    }

    /// The window as a pair of offsets.
    pub open spec fn window(&self) -> (int, int) {
        (self.start_view(), self.end_view())
    }

    pub open spec fn wf(&self) -> bool {
        &&& self.bytes_match()
        &&& valid_range(self.bytes_view(), self.start_view(), self.end_view())
    }

    /// A cursor with an empty window at the beginning of `text`.
    pub fn new(text: &'a str) -> (r: Cursor<'a>)
        ensures
            r.wf(),
            r.text_view() == text,
            r.window() == (0int, 0int),
    {
        proof {
            lemma_str_valid(text);
        }
        Cursor { text, bytes: text.as_bytes(), start: 0, end: 0 }
    }

    /// Decodes the scalar at offset `at`, giving it and its length in bytes.
    fn decode_at(&self, at: usize) -> (r: (char, usize))
        requires
            self.wf(),
            at < self.bytes_view().len(),
            is_char_boundary(self.bytes_view(), at as int),
        ensures
            r.0 == scalar_at(self.bytes_view(), at as int),
            r.1 == scalar_len(self.bytes_view(), at as int),
    {
        let ghost b = self.bytes_view();
        proof {
            lemma_str_valid(self.text);
            lemma_scalar_at(b, at as int);
            assert(rest(b, at as int)[0] == b[at as int]);
        }
        let x = self.bytes[at];
        if x < 0x80 {
            proof {
                lemma_bits_1(x);
            }
            return match char_from_u32(x as u32) {
                Some(c) => (c, 1),
                None => ('\u{0}', 1),
            };
        }
        proof {
            assert(rest(b, at as int)[1] == b[at + 1]);
        }
        let init = (x & 0x1F) as u32;
        let y = (self.bytes[at + 1] & 0x3F) as u32;
        let ch: u32;
        let n: usize;
        if x < 0xE0 {
            ch = (init << 6) | y;
            n = 2;
            proof {
                lemma_bits_2(x, b[at + 1]);
            }
        } else {
            proof {
                assert(rest(b, at as int)[2] == b[at + 2]);
            }
            let z = (self.bytes[at + 2] & 0x3F) as u32;
            let y_z = (y << 6) | z;
            if x < 0xF0 {
                ch = (init << 12) | y_z;
                n = 3;
                proof {
                    lemma_bits_3(x, b[at + 1], b[at + 2]);
                }
            } else {
                proof {
                    assert(rest(b, at as int)[3] == b[at + 3]);
                }
                let w = (self.bytes[at + 3] & 0x3F) as u32;
                ch = ((init & 7) << 18) | (y_z << 6) | w;
                n = 4;
                proof {
                    lemma_bits_4(x, b[at + 1], b[at + 2], b[at + 3]);
                }
            }
        }
        match char_from_u32(ch) {
            Some(c) => (c, n),
            None => ('\u{0}', n),
        }
    }

    /// Gives the scalar right after the window and widens the window past it,
    /// or `None` at the end of the text.
    pub fn next(&mut self) -> (r: Option<char>)
        requires
            old(self).wf(),
        ensures
            final(self).wf(),
            final(self).text_view() == old(self).text_view(),
            final(self).window() == step(old(self).bytes_view(), old(self).window(), Step::Advance),
            old(self).end_view() < old(self).bytes_view().len() ==> r == Some(
                scalar_at(old(self).bytes_view(), old(self).end_view()),
            ),
            old(self).end_view() == old(self).bytes_view().len() ==> r is None,
    {
        proof {
            lemma_str_valid(self.text);
            lemma_step_on_boundaries(self.bytes_view(), self.window(), Step::Advance);
        }
        if self.end >= self.bytes.len() {
            return None;
        }
        let (c, n) = self.decode_at(self.end);
        self.end = self.end + n;
        Some(c)
    }

    /// The scalar right after the window, or `None` at the end of the text.
    pub fn peek(&self) -> (r: Option<char>)
        requires
            self.wf(),
        ensures
            self.end_view() < self.bytes_view().len() ==> r == Some(
                scalar_at(self.bytes_view(), self.end_view()),
            ),
            self.end_view() == self.bytes_view().len() ==> r is None,
    {
        if self.end >= self.bytes.len() {
            return None;
        }
        let (c, _) = self.decode_at(self.end);
        Some(c)
    }

    /// Takes the last scalar back out of the window, stepping back over
    /// continuation bytes; an empty window stays as it is.
    pub fn undo(&mut self)
        requires
            old(self).wf(),
        ensures
            final(self).wf(),
            final(self).text_view() == old(self).text_view(),
            final(self).window() == step(old(self).bytes_view(), old(self).window(), Step::Undo),
    {
        let ghost b = self.bytes_view();
        let ghost old_end = self.end as int;
        proof {
            lemma_str_valid(self.text);
            lemma_step_on_boundaries(b, self.window(), Step::Undo);
        }
        if self.end <= self.start {
            return;
        }
        let mut e: usize = self.end - 1;
        proof {
            is_char_boundary_iff_not_is_continuation_byte(b, self.start as int);
        }
        while (self.bytes[e] & 0xC0) == 0x80
            invariant
                self.wf(),
                self.bytes_view() == b,
                self.start <= e < old_end <= b.len(),
                old_end == self.end,
                !is_continuation_byte(b[self.start as int]),
                prev_boundary(b, old_end) == prev_boundary(b, e + 1),
            decreases e,
        {
            proof {
                assert(is_continuation_byte(b[e as int]));
            }
            e = e - 1;
        }
        self.end = e;
    }

    /// The window as a range, leaving an empty window at its end.
    pub fn take(&mut self) -> (r: Range)
        requires
            old(self).wf(),
        ensures
            final(self).wf(),
            final(self).text_view() == old(self).text_view(),
            final(self).window() == step(old(self).bytes_view(), old(self).window(), Step::Discard),
            r.start == old(self).start_view(),
            r.end == old(self).end_view(),
            r.valid_in(old(self).bytes_view()),
    {
        let r = Range { start: self.start, end: self.end };
        self.start = self.end;
        r
    }

    /// Drops the window, leaving an empty one at its end.
    pub fn discard(&mut self)
        requires
            old(self).wf(),
        ensures
            final(self).wf(),
            final(self).text_view() == old(self).text_view(),
            final(self).window() == step(old(self).bytes_view(), old(self).window(), Step::Discard),
    {
        self.start = self.end;
    }

    /// The characters in the window, which stays as it is.
    pub fn review(&self) -> (r: &'a str)
        requires
            self.wf(),
        ensures
            r@ == chars_in(self.bytes_view(), self.start_view(), self.end_view()),
            r.spec_bytes() == self.bytes_view().subrange(self.start_view(), self.end_view()),
    {
        substr(self.text, self.start, self.end)
    }
}

} // verus!
