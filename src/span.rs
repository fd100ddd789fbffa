//! Spans: open pairs of a borrowed text and a range, and the owned excerpts
//! cut from them.

use vstd::prelude::*;
use vstd::string::StringSliceAdditionalSpecFns;
use crate::excerpt::{excerpt_of, newlines_before, render, render_lines, touched, Lines};
use crate::text::{Range, Text};
use crate::utf8::{chars_in, lemma_str_valid, same_str, substr};

verus! {

/// A range of a borrowed text. Its fields are open, so nothing keeps the
/// range valid: the accessors say what happens when it is not.
#[derive(Clone, Copy, Debug)]
pub struct Span<'a> {
    pub source: &'a Text,
    pub range: Range,
}

impl<'a> Span<'a> {
    /// The characters the span covers, or none where its range is not valid.
    pub open spec fn content(self) -> Seq<char> {
        if self.valid() {
            chars_in(self.source.bytes(), self.range.start as int, self.range.end as int)
        } else {
            Seq::empty()
        }
    }

    /// Whether the range lies on scalar boundaries of the text.
    pub open spec fn valid(self) -> bool {
        self.range.valid_in(self.source.bytes())
    }

    /// The characters the span covers, or nothing where its range is not valid.
    pub fn as_str(&self) -> (r: &'a str)
        ensures
            r@ == self.content(),
    {
        let body = self.source.body();
        proof {
            lemma_str_valid(body);
        }
        let ordered = self.range.start <= self.range.end && self.range.end <= body.as_bytes().len();
        if ordered && body.is_char_boundary(self.range.start) && body.is_char_boundary(self.range.end) {
            substr(body, self.range.start, self.range.end)
        } else {
            proof {
                reveal_strlit("");
                assert(""@ =~= Seq::<char>::empty());
            }
            ""
        }
    }

    /// The lines the span touches.
    pub fn lines(&self) -> (r: Lines<'a>)
        requires
            self.valid(),
            self.source.bytes().len() <= isize::MAX,
        ensures
            r.source.spec_bytes() == self.source.bytes().subrange(
                touched(self.source.bytes(), self.range.start as int, self.range.end as int).0,
                touched(self.source.bytes(), self.range.start as int, self.range.end as int).1,
            ),
            r.number == newlines_before(
                self.source.bytes(),
                touched(self.source.bytes(), self.range.start as int, self.range.end as int).0,
            ) + 1,
            r.range.start == self.range.start - touched(self.source.bytes(), self.range.start as int, self.range.end as int).0,
            r.range.end == self.range.end - touched(self.source.bytes(), self.range.start as int, self.range.end as int).0,
            r.range.start <= r.range.end <= r.source.spec_bytes().len() + 1,
            r.number < usize::MAX,
    {
        Lines::locate(self.source.body(), self.range.start, self.range.end)
    }

    /// An owned copy of the lines the span touches, named as its text.
    pub fn to_excerpt(&self) -> (r: Excerpt)
        requires
            self.valid(),
            self.source.bytes().len() <= isize::MAX,
        ensures
            r.text.name@ == self.source.name@,
            r.text.bytes() == self.source.bytes().subrange(
                touched(self.source.bytes(), self.range.start as int, self.range.end as int).0,
                touched(self.source.bytes(), self.range.start as int, self.range.end as int).1,
            ),
            r.line_number == newlines_before(
                self.source.bytes(),
                touched(self.source.bytes(), self.range.start as int, self.range.end as int).0,
            ) + 1,
            r.range.start == self.range.start - touched(self.source.bytes(), self.range.start as int, self.range.end as int).0,
            r.range.end == self.range.end - touched(self.source.bytes(), self.range.start as int, self.range.end as int).0,
            r.range.start <= r.range.end <= r.text.bytes().len() + 1,
    {
        let lines = self.lines();
        let name = self.source.name();
        let text = Text::new(name, lines.source);
        Excerpt { text, line_number: lines.number, range: lines.range }
    }

    /// Renders the span as a diagnostic excerpt.
    pub fn render(&self, color: bool) -> (r: String)
        requires
            self.valid(),
            self.source.bytes().len() <= isize::MAX,
        ensures
            r@ == excerpt_of(
                self.source.name@,
                self.source.bytes(),
                self.range.start as int,
                self.range.end as int,
                color,
            ),
    {
        let lines = self.lines();
        lines.render(self.source.name(), color)
    }
}

impl<'a> PartialEq for Span<'a> {
    /// Spans are equal where they cover the same characters, wherever they lie.
    fn eq(&self, other: &Span<'a>) -> (r: bool) {
        same_str(self.as_str(), other.as_str())
    }
}

impl<'a> vstd::std_specs::cmp::PartialEqSpecImpl for Span<'a> {
    open spec fn obeys_eq_spec() -> bool {
        true
    }

    open spec fn eq_spec(&self, other: &Span<'a>) -> bool {
        self.content() == other.content()
    }
}

impl<'a> Eq for Span<'a> {
}

/// An owned excerpt: the touched lines as a text of their own, the number of
/// the first, and the range relative to them, whose end may lie one byte past
/// the text where a carriage return was dropped.
#[derive(Debug)]
pub struct Excerpt {
    pub text: Text,
    pub line_number: usize,
    pub range: Range,
}

impl Excerpt {
    /// Renders the excerpt.
    pub fn render(&self, color: bool) -> (r: String)
        requires
            self.line_number < usize::MAX,
        ensures
            r@ == render(
                self.text.name@,
                self.text.bytes(),
                self.line_number as nat,
                self.range.start as int,
                self.range.end as int,
                color,
            ),
    {
        render_lines(self.text.name(), self.text.body(), self.line_number, self.range.start, self.range.end, color)
    }
}

} // verus!
