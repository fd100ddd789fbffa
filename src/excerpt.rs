//! Line location and the rendering of diagnostic excerpts: a header naming the
//! source, then at most two numbered lines, each with a caret row under the
//! bytes that the range covers, and an ellipsis row where lines are left out.

use vstd::prelude::*;
use vstd::utf8::*;
use vstd::string::{StringExecFns, StringSliceAdditionalSpecFns};
use crate::cursor::lemma_scalar_at;
use crate::text::{Range, Region};
use crate::utf8::{chars_in, lemma_str_valid, substr, valid_range};

verus! {

broadcast use vstd::utf8::group_utf8_lib;

/// The first line feed at or after `i`, or the length where there is none.
pub open spec fn next_newline(b: Seq<u8>, i: int) -> int
    decreases b.len() - i,
{
    if i < 0 || i >= b.len() {
        b.len() as int
    } else if b[i] == 10u8 {
        i
    } else {
        next_newline(b, i + 1)
    }
}

/// The start of the line that holds offset `i`: just after the last line feed
/// before `i`, or 0.
pub open spec fn line_start(b: Seq<u8>, i: int) -> int
    decreases i,
{
    if i <= 0 {
        0
    } else if b[i - 1] == 10u8 {
        i
    } else {
        line_start(b, i - 1)
    }
}

/// How many line feeds come before offset `i`.
pub open spec fn newlines_before(b: Seq<u8>, i: int) -> nat
    decreases i,
{
    if i <= 0 {
        0
    } else {
        newlines_before(b, i - 1) + if b[i - 1] == 10u8 {
            1nat
        } else {
            0nat
        }
    }
}

/// The end of the lines that run from the line holding `s` to the one holding
/// `e`: the next line feed at or after `e`, without a carriage return right
/// before it (so CRLF ends lines as LF does), or the end of the text where no
/// line feed follows.
pub open spec fn line_end(b: Seq<u8>, s: int, e: int) -> int {
    let n = next_newline(b, e);
    if n < b.len() && n > line_start(b, s) && b[n - 1] == 13u8 {
        n - 1
    } else {
        n
    }
}

/// The end of a line that runs from `pos` to the line feed at `nl`, without a
/// carriage return before it.
pub open spec fn trim_cr(t: Seq<u8>, pos: int, nl: int) -> int {
    if nl > pos && t[nl - 1] == 13u8 {
        nl - 1
    } else {
        nl
    }
}

/// `k` copies of `c`; none where `k` is not positive.
pub open spec fn repeat(c: char, k: int) -> Seq<char> {
    Seq::new(if k > 0 { k as nat } else { 0 }, |i: int| c)
}

pub open spec fn digit_char(d: nat) -> char {
    if d == 0 { '0' } else if d == 1 { '1' } else if d == 2 { '2' } else if d == 3 { '3' }
    else if d == 4 { '4' } else if d == 5 { '5' } else if d == 6 { '6' } else if d == 7 { '7' }
    else if d == 8 { '8' } else { '9' }
}

/// The decimal digits of `n`.
pub open spec fn decimal(n: nat) -> Seq<char>
    decreases n,
{
    if n < 10 {
        seq![digit_char(n)]
    } else {
        decimal(n / 10) + seq![digit_char(n % 10)]
    }
}

/// The line number right-aligned in five columns.
pub open spec fn gutter(n: nat) -> Seq<char> {
    repeat(' ', 5 - decimal(n).len()) + decimal(n)
}

/// `s` between the escape sequences of colour `code` where colour is on.
pub open spec fn paint(s: Seq<char>, code: Seq<char>, color: bool) -> Seq<char> {
    if color {
        "\x1b["@ + code + "m"@ + s + "\x1b[0m"@
    } else {
        s
    }
}

/// The two header rows, naming the source.
pub open spec fn header(name: Seq<char>, color: bool) -> Seq<char> {
    "      : "@ + paint(name, "34"@, color) + "\n"@ + "      |\n"@
}

/// Where the line of `t` that starts at `pos` ends: at the end of `t` for
/// the last line, else before its line feed and any carriage return.
pub open spec fn row_end(t: Seq<u8>, pos: int) -> int {
    let nl = next_newline(t, pos);
    if nl >= t.len() {
        t.len() as int
    } else {
        trim_cr(t, pos, nl)
    }
}

/// The caret row for a line over `[pos, end)` and the range `[rs, re)`: blanks
/// up to the first covered column, then one caret per covered byte. On the
/// `last` line, where the range ends, the carets run to its end column; on
/// the others they stop at the end of the line. A zero-width range gets a
/// single caret at its column.
pub open spec fn marks(pos: int, end: int, rs: int, re: int, last: bool) -> Seq<char> {
    let lo = if rs > pos {
        rs - pos
    } else {
        0
    };
    let hi = if last || re < end {
        re - pos
    } else {
        end - pos
    };
    repeat(' ', lo) + repeat('^', if rs == re { 1 } else { hi - lo })
}

/// The rows of the line of `t` that starts at `pos`, numbered `num`: its text,
/// then carets under the columns that `[rs, re)` covers on it.
pub open spec fn line_rows(t: Seq<u8>, pos: int, num: nat, rs: int, re: int, color: bool) -> Seq<
    char,
> {
    let end = row_end(t, pos);
    let last = next_newline(t, pos) >= t.len();
    gutter(num) + " | "@ + chars_in(t, pos, end) + "\n"@ + "      | "@ + paint(
        marks(pos, end, rs, re, last),
        "31"@,
        color,
    ) + "\n"@
}

/// The row that stands for lines left out.
pub open spec fn ellipsis() -> Seq<char> {
    "     ...\n"@
}

/// The excerpt of the lines `t`, the first numbered `num`, that marks the
/// range `[rs, re)` of `t`: the header, the first line, the second if there
/// is one, and an ellipsis row if more follow.
pub open spec fn render(name: Seq<char>, t: Seq<u8>, num: nat, rs: int, re: int, color: bool) -> Seq<
    char,
> {
    let nl1 = next_newline(t, 0);
    header(name, color) + line_rows(t, 0, num, rs, re, color) + if nl1 >= t.len() {
        Seq::<char>::empty()
    } else {
        let p2 = nl1 + 1;
        line_rows(t, p2, num + 1, rs, re, color) + if next_newline(t, p2) >= t.len() {
            Seq::<char>::empty()
        } else {
            ellipsis()
        }
    }
}

proof fn lemma_next_newline(b: Seq<u8>, i: int)
    requires
        0 <= i <= b.len(),
    ensures
        i <= next_newline(b, i) <= b.len(),
        next_newline(b, i) < b.len() ==> b[next_newline(b, i)] == 10u8,
    decreases b.len() - i,
{
    if i < b.len() && b[i] != 10u8 {
        lemma_next_newline(b, i + 1);
    }
}

proof fn lemma_line_start(b: Seq<u8>, i: int)
    requires
        0 <= i <= b.len(),
    ensures
        0 <= line_start(b, i) <= i,
        line_start(b, i) > 0 ==> b[line_start(b, i) - 1] == 10u8,
        newlines_before(b, line_start(b, i)) <= line_start(b, i),
    decreases i,
{
    if i > 0 && b[i - 1] != 10u8 {
        lemma_line_start(b, i - 1);
    }
    lemma_newlines_bound(b, line_start(b, i));
}

proof fn lemma_newlines_bound(b: Seq<u8>, i: int)
    requires
        0 <= i,
    ensures
        newlines_before(b, i) <= i,
    decreases i,
{
    if i > 0 {
        lemma_newlines_bound(b, i - 1);
    }
}

/// A line feed or carriage return in valid UTF-8 sits on a boundary, and so
/// does the offset just after it.
proof fn lemma_ascii_boundary(b: Seq<u8>, i: int)
    requires
        valid_utf8(b),
        0 <= i < b.len(),
        b[i] == 10u8 || b[i] == 13u8,
    ensures
        is_char_boundary(b, i),
        is_char_boundary(b, i + 1),
{
    is_char_boundary_iff_not_is_continuation_byte(b, i);
    lemma_scalar_at(b, i);
}

/// Relies on `String::push`: appends one character.
#[verifier::external_body]
fn push_char(s: &mut String, c: char)
    ensures
        final(s)@ == old(s)@.push(c),
{
    s.push(c)
}

fn push_repeat(out: &mut String, c: char, k: usize)
    ensures
        final(out)@ == old(out)@ + repeat(c, k as int),
{
    let mut i: usize = 0;
    while i < k
        invariant
            i <= k,
            out@ == old(out)@ + repeat(c, i as int),
        decreases k - i,
    {
        push_char(out, c);
        i = i + 1;
        proof {
            assert(out@ =~= old(out)@ + repeat(c, i as int));
        }
    }
}

fn digit(d: usize) -> (r: char)
    requires
        d < 10,
    ensures
        r == digit_char(d as nat),
{
    if d == 0 { '0' } else if d == 1 { '1' } else if d == 2 { '2' } else if d == 3 { '3' }
    else if d == 4 { '4' } else if d == 5 { '5' } else if d == 6 { '6' } else if d == 7 { '7' }
    else if d == 8 { '8' } else { '9' }
}

fn push_decimal(out: &mut String, n: usize)
    ensures
        final(out)@ == old(out)@ + decimal(n as nat),
    decreases n,
{
    if n >= 10 {
        push_decimal(out, n / 10);
    }
    push_char(out, digit(n % 10));
    proof {
        assert(final(out)@ =~= old(out)@ + decimal(n as nat));
    }
}

proof fn lemma_decimal_len(n: nat)
    ensures
        1 <= decimal(n).len() <= n + 1,
    decreases n,
{
    if n >= 10 {
        lemma_decimal_len(n / 10);
    }
}

fn decimal_len(n: usize) -> (r: usize)
    ensures
        r == decimal(n as nat).len(),
    decreases n,
{
    if n >= 10 {
        proof {
            lemma_decimal_len((n / 10) as nat);
        }
        decimal_len(n / 10) + 1
    } else {
        1
    }
}

fn push_painted(out: &mut String, s: &str, code: &str, color: bool)
    ensures
        final(out)@ == old(out)@ + paint(s@, code@, color),
{
    if color {
        out.append("\x1b[");
        out.append(code);
        out.append("m");
        out.append(s);
        out.append("\x1b[0m");
    } else {
        out.append(s);
    }
}

/// The offset of the first line feed at or after `from`, or the length.
fn find_newline(bytes: &[u8], from: usize) -> (r: usize)
    requires
        from <= bytes@.len(),
    ensures
        r == next_newline(bytes@, from as int),
{
    let mut i = from;
    while i < bytes.len() && bytes[i] != 10u8
        invariant
            from <= i <= bytes@.len(),
            next_newline(bytes@, from as int) == next_newline(bytes@, i as int),
        decreases bytes@.len() - i,
    {
        i = i + 1;
    }
    i
}

fn find_line_start(bytes: &[u8], at: usize) -> (r: usize)
    requires
        at <= bytes@.len(),
    ensures
        r == line_start(bytes@, at as int),
{
    let mut i = at;
    while i > 0 && bytes[i - 1] != 10u8
        invariant
            i <= at <= bytes@.len(),
            line_start(bytes@, at as int) == line_start(bytes@, i as int),
        decreases i,
    {
        i = i - 1;
    }
    i
}

fn count_newlines(bytes: &[u8], upto: usize) -> (r: usize)
    requires
        upto <= bytes@.len(),
    ensures
        r == newlines_before(bytes@, upto as int),
{
    let mut i: usize = 0;
    let mut n: usize = 0;
    while i < upto
        invariant
            i <= upto <= bytes@.len(),
            n == newlines_before(bytes@, i as int),
            n <= i,
        decreases upto - i,
    {
        if bytes[i] == 10u8 {
            n = n + 1;
        }
        i = i + 1;
    }
    n
}

fn push_gutter(out: &mut String, num: usize)
    ensures
        final(out)@ == old(out)@ + gutter(num as nat),
{
    let width = decimal_len(num);
    if width < 5 {
        push_repeat(out, ' ', 5 - width);
    }
    push_decimal(out, num);
    proof {
        assert(final(out)@ =~= old(out)@ + gutter(num as nat));
    }
}

fn marks_of(pos: usize, end: usize, rs: usize, re: usize, last: bool) -> (r: String)
    requires
        pos <= end,
    ensures
        r@ == marks(pos as int, end as int, rs as int, re as int, last),
{
    let lo = if rs > pos { rs - pos } else { 0 };
    let hi = if last || re < end {
        if re > pos { re - pos } else { 0 }
    } else {
        end - pos
    };
    let count = if rs == re {
        1
    } else if hi > lo {
        hi - lo
    } else {
        0
    };
    let mut r = String::new();
    push_repeat(&mut r, ' ', lo);
    push_repeat(&mut r, '^', count);
    r
}

/// The end of the line that starts at `pos`, which lies on a boundary.
fn row_end_of(t: &str, pos: usize) -> (r: usize)
    requires
        pos <= t.spec_bytes().len(),
        pos == 0 || t.spec_bytes()[pos - 1] == 10u8,
    ensures
        r == row_end(t.spec_bytes(), pos as int),
        valid_range(t.spec_bytes(), pos as int, r as int),
{
    let ghost b = t.spec_bytes();
    let bytes = t.as_bytes();
    proof {
        lemma_str_valid(t);
        lemma_next_newline(b, pos as int);
        if pos > 0 {
            lemma_ascii_boundary(b, pos - 1);
        }
    }
    let nl = find_newline(bytes, pos);
    if nl >= bytes.len() {
        bytes.len()
    } else if nl > pos && bytes[nl - 1] == 13u8 {
        proof {
            lemma_ascii_boundary(b, nl - 1);
        }
        nl - 1
    } else {
        proof {
            lemma_ascii_boundary(b, nl as int);
        }
        nl
    }
}

fn push_line_rows(out: &mut String, t: &str, pos: usize, num: usize, rs: usize, re: usize, color: bool)
    requires
        pos <= t.spec_bytes().len(),
        pos == 0 || t.spec_bytes()[pos - 1] == 10u8,
    ensures
        final(out)@ == old(out)@ + line_rows(t.spec_bytes(), pos as int, num as nat, rs as int, re as int, color),
{
    let ghost b = t.spec_bytes();
    let end = row_end_of(t, pos);
    push_gutter(out, num);
    out.append(" | ");
    out.append(substr(t, pos, end));
    out.append("\n");
    out.append("      | ");
    let last = find_newline(t.as_bytes(), pos) >= t.as_bytes().len();
    let m = marks_of(pos, end, rs, re, last);
    push_painted(out, m.as_str(), "31", color);
    out.append("\n");
    proof {
        assert(final(out)@ =~= old(out)@ + line_rows(b, pos as int, num as nat, rs as int, re as int, color));
    }
}

/// Renders the lines `t`, the first numbered `num`, marking `[rs, re)`.
pub fn render_lines(name: &str, t: &str, num: usize, rs: usize, re: usize, color: bool) -> (r: String)
    requires
        num < usize::MAX,
    ensures
        r@ == render(name@, t.spec_bytes(), num as nat, rs as int, re as int, color),
{
    let ghost b = t.spec_bytes();
    let bytes = t.as_bytes();
    let mut out = String::new();
    out.append("      : ");
    push_painted(&mut out, name, "34", color);
    out.append("\n");
    out.append("      |\n");
    push_line_rows(&mut out, t, 0, num, rs, re, color);
    let nl1 = find_newline(bytes, 0);
    proof {
        lemma_next_newline(b, 0);
    }
    if nl1 < bytes.len() {
        let p2 = nl1 + 1;
        push_line_rows(&mut out, t, p2, num + 1, rs, re, color);
        let nl2 = find_newline(bytes, p2);
        if nl2 < bytes.len() {
            out.append("     ...\n");
        }
    }
    proof {
        assert(out@ =~= render(name@, b, num as nat, rs as int, re as int, color));
    }
    out
}


/// The lines that a range touches: their text, the number of the first, and
/// the range relative to the start of the first. Where the range ends right
/// after a carriage return that the text drops, its end lies one byte past
/// the text; the caret rows stop at the end of each line.
#[derive(Clone, Copy, Debug)]
pub struct Lines<'a> {
    pub source: &'a str,
    pub number: usize,
    pub range: Range,
}

/// Where the lines touched by `[s, e)` start and end in `b`.
pub open spec fn touched(b: Seq<u8>, s: int, e: int) -> (int, int) {
    (line_start(b, s), line_end(b, s, e))
}

/// The excerpt of `[s, e)` in the text `b` named `name`.
pub open spec fn excerpt_of(name: Seq<char>, b: Seq<u8>, s: int, e: int, color: bool) -> Seq<char> {
    let (ls, le) = touched(b, s, e);
    render(name, b.subrange(ls, le), newlines_before(b, ls) + 1, s - ls, e - ls, color)
}

impl<'a> Lines<'a> {
    /// The lines of `text` that `[start, end)` touches.
    pub fn locate(text: &'a str, start: usize, end: usize) -> (r: Lines<'a>)
        requires
            valid_range(text.spec_bytes(), start as int, end as int),
            text.spec_bytes().len() <= isize::MAX,
        ensures
            r.source.spec_bytes() == text.spec_bytes().subrange(
                touched(text.spec_bytes(), start as int, end as int).0,
                touched(text.spec_bytes(), start as int, end as int).1,
            ),
            r.number == newlines_before(
                text.spec_bytes(),
                touched(text.spec_bytes(), start as int, end as int).0,
            ) + 1,
            r.range.start == start - touched(text.spec_bytes(), start as int, end as int).0,
            r.range.end == end - touched(text.spec_bytes(), start as int, end as int).0,
            r.range.start <= r.range.end <= r.source.spec_bytes().len() + 1,
            r.number < usize::MAX,
    {
        let ghost b = text.spec_bytes();
        let bytes = text.as_bytes();
        proof {
            lemma_str_valid(text);
            lemma_line_start(b, start as int);
            lemma_next_newline(b, end as int);
        }
        let ls = find_line_start(bytes, start);
        let nl = find_newline(bytes, end);
        let le = if nl < bytes.len() && nl > ls && bytes[nl - 1] == 13u8 {
            proof {
                lemma_ascii_boundary(b, nl - 1);
            }
            nl - 1
        } else {
            if nl < bytes.len() {
                proof {
                    lemma_ascii_boundary(b, nl as int);
                }
            }
            nl
        };
        proof {
            if ls > 0 {
                lemma_ascii_boundary(b, ls - 1);
            }
        }
        let number = count_newlines(bytes, ls) + 1;
        let source = substr(text, ls, le);
        proof {
            assert(source.spec_bytes().len() == le - ls);
        }
        Lines {
            source,
            number,
            range: Range { start: start - ls, end: end - ls },
        }
    }

    /// The excerpt of these lines for the source named `name`.
    pub fn render(&self, name: &str, color: bool) -> (r: String)
        requires
            self.number < usize::MAX,
        ensures
            r@ == render(
                name@,
                self.source.spec_bytes(),
                self.number as nat,
                self.range.start as int,
                self.range.end as int,
                color,
            ),
    {
        render_lines(name, self.source, self.number, self.range.start, self.range.end, color)
    }
}

impl<'a> Region<'a> {
    /// The excerpt that shows this region.
    pub open spec fn rendered(self, color: bool) -> Seq<char> {
        excerpt_of(
            self.text_view().name@,
            self.text_view().bytes(),
            self.range_view().start as int,
            self.range_view().end as int,
            color,
        )
    }

    /// The lines this region touches.
    pub fn lines(&self) -> (r: Lines<'a>)
        requires
            self.text_view().bytes().len() <= isize::MAX,
        ensures
            r.source.spec_bytes() == self.text_view().bytes().subrange(
                touched(self.text_view().bytes(), self.range_view().start as int, self.range_view().end as int).0,
                touched(self.text_view().bytes(), self.range_view().start as int, self.range_view().end as int).1,
            ),
            r.number == newlines_before(
                self.text_view().bytes(),
                touched(self.text_view().bytes(), self.range_view().start as int, self.range_view().end as int).0,
            ) + 1,
            r.range.start == self.range_view().start - touched(self.text_view().bytes(), self.range_view().start as int, self.range_view().end as int).0,
            r.range.end == self.range_view().end - touched(self.text_view().bytes(), self.range_view().start as int, self.range_view().end as int).0,
            r.range.start <= r.range.end <= r.source.spec_bytes().len() + 1,
            r.number < usize::MAX,
    {
        let range = self.range();
        Lines::locate(self.text().body(), range.start, range.end)
    }

    /// Renders this region as a diagnostic excerpt, with colour escapes where
    /// `color` is set.
    pub fn render(&self, color: bool) -> (r: String)
        requires
            self.text_view().bytes().len() <= isize::MAX,
        ensures
            r@ == self.rendered(color),
    {
        let lines = self.lines();
        lines.render(self.text().name(), color)
    }
}

/// The excerpt of a region depends on its text and range alone: rendering
/// the same region twice, or two regions over the same text and range, gives
/// the same output. Every call of `Region::render` returns `rendered`, so two
/// calls on one region return equal strings.
pub proof fn lemma_render_pure<'a>(x: Region<'a>, y: Region<'a>, color: bool)
    requires
        x.text_view() == y.text_view(),
        x.range_view() == y.range_view(),
    ensures
        x.rendered(color) == y.rendered(color),
{
}

proof fn lemma_next_newline_at_most(b: Seq<u8>, i: int, j: int)
    requires
        0 <= i <= j < b.len(),
        b[j] == 10u8,
    ensures
        next_newline(b, i) <= j,
    decreases j - i,
{
    if b[i] != 10u8 {
        lemma_next_newline_at_most(b, i + 1, j);
    }
}

/// A range that touches more than two lines shows only its first two lines,
/// then the ellipsis row: the first from the range's start column to the
/// line's end, the second in full.
pub proof fn lemma_long_ranges_cut_after_two_lines(
    name: Seq<char>,
    b: Seq<u8>,
    s: int,
    e: int,
    p1: int,
    p2: int,
    color: bool,
)
    requires
        0 <= s <= e <= b.len(),
        line_start(b, s) <= p1 < p2 < e,
        b[p1] == 10u8,
        b[p2] == 10u8,
    ensures
        ({
            let (ls, le) = touched(b, s, e);
            let t = b.subrange(ls, le);
            let second = next_newline(t, 0) + 1;
            &&& next_newline(t, 0) < t.len()
            &&& next_newline(t, second) < t.len()
            &&& excerpt_of(name, b, s, e, color) == header(name, color) + line_rows(
                t,
                0,
                newlines_before(b, ls) + 1,
                s - ls,
                e - ls,
                color,
            ) + line_rows(t, second, newlines_before(b, ls) + 2, s - ls, e - ls, color)
                + ellipsis()
        }),
{
    let (ls, le) = touched(b, s, e);
    lemma_line_start(b, s);
    lemma_next_newline(b, e);
    let t = b.subrange(ls, le);
    assert(le > p2);
    assert(t[p1 - ls] == 10u8);
    assert(t[p2 - ls] == 10u8);
    lemma_next_newline_at_most(t, 0, p1 - ls);
    let nl1 = next_newline(t, 0);
    lemma_next_newline(t, 0);
    lemma_next_newline_at_most(t, nl1 + 1, p2 - ls);
    assert(newlines_before(b, ls) + 1 + 1 == newlines_before(b, ls) + 2);
}

} // verus!
