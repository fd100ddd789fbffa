//! Named source texts, byte ranges over them, and the regions that pair the two.

use vstd::prelude::*;
use vstd::utf8::*;
use vstd::string::StringSliceAdditionalSpecFns;
use crate::utf8::{chars_in, lemma_str_valid, substr, valid_range};

verus! {

/// A half-open interval `[start, end)` of byte offsets.
#[derive(Clone, Copy, Debug, PartialEq, Eq, Structural)]
pub struct Range {
    pub start: usize,
    pub end: usize,
}

impl Range {
    pub fn new(start: usize, end: usize) -> (r: Range)
        ensures
            r.start == start,
            r.end == end,
    {
        Range { start, end }
    }

    pub fn as_ops_range(self) -> (r: std::ops::Range<usize>)
        ensures
            r.start == self.start,
            r.end == self.end,
    {
        std::ops::Range { start: self.start, end: self.end }
    }

    /// Whether `offset` lies inside the range.
    pub fn contains(&self, offset: usize) -> (r: bool)
        ensures
            r == (self.start <= offset && offset < self.end),
    {
        self.start <= offset && offset < self.end
    }

    /// The smallest range that covers both ranges.
    pub fn union(self, other: Range) -> (r: Range)
        ensures
            r.start == if self.start <= other.start { self.start } else { other.start },
            r.end == if self.end >= other.end { self.end } else { other.end },
    {
        Range {
            start: if self.start <= other.start { self.start } else { other.start },
            end: if self.end >= other.end { self.end } else { other.end },
        }
    }

    /// Whether `[start, end)` lies in `bytes` with both ends on scalar boundaries.
    pub open spec fn valid_in(self, bytes: Seq<u8>) -> bool {
        valid_range(bytes, self.start as int, self.end as int)
    }
}

/// Raised when a requested range does not lie on scalar boundaries within a text.
#[derive(Clone, Copy, Debug, PartialEq, Eq, Structural)]
pub enum Error {
    Bounds { start: usize, end: usize },
}

/// A named UTF-8 source text.
#[derive(Debug)]
pub struct Text {
    pub name: String,
    pub body: String,
}

impl Text {
    /// The bytes of the body.
    pub open spec fn bytes(&self) -> Seq<u8> {
        encode_utf8(self.body@)
    }

    pub fn new(name: &str, body: &str) -> (r: Text)
        ensures
            r.name@ == name@,
            r.body@ == body@,
    {
        Text { name: name.to_owned(), body: body.to_owned() }
    }

    pub fn name(&self) -> (r: &str)
        ensures
            r@ == self.name@,
    {
        self.name.as_str()
    }

    pub fn body(&self) -> (r: &str)
        ensures
            r@ == self.body@,
            r.spec_bytes() == self.bytes(),
    {
        self.body.as_str()
    }

    /// The region of this text that `range` delimits, if it lies within the
    /// body with both ends on scalar boundaries.
    pub fn get_region(&self, range: std::ops::Range<usize>) -> (r: Result<Region<'_>, Error>)
        ensures
            valid_range(self.bytes(), range.start as int, range.end as int) <==> r is Ok,
            r matches Ok(region) ==> region.text_view() == self && region.range_view()
                == (Range { start: range.start, end: range.end }),
            r matches Err(e) ==> e == (Error::Bounds { start: range.start, end: range.end }),
    {
        let body = self.body();
        proof {
            lemma_str_valid(body);
        }
        let ordered = range.start <= range.end && range.end <= body.as_bytes().len();
        let b1 = body.is_char_boundary(range.start);
        let b2 = body.is_char_boundary(range.end);
        if ordered && b1 && b2 {
            Ok(Region::new(self, Range { start: range.start, end: range.end }))
        } else {
            Err(Error::Bounds { start: range.start, end: range.end })
        }
    }
}

/// A range of a borrowed text, with both ends on scalar boundaries.
#[derive(Clone, Copy, Debug)]
pub struct Region<'a> {
    text: &'a Text,
    range: Range,
}

impl<'a> Region<'a> {
    #[verifier::type_invariant]
    spec fn bounded(self) -> bool {
        self.range.valid_in(self.text.bytes())
    }

    /// The text this region belongs to, in contracts.
    pub closed spec fn text_view(self) -> &'a Text {
        self.text
    }

    /// The byte range of this region, in contracts.
    pub closed spec fn range_view(self) -> Range {
        self.range
    }

    /// The characters this region covers.
    pub open spec fn chars(self) -> Seq<char> {
        chars_in(self.text_view().bytes(), self.range_view().start as int, self.range_view().end as int)
    }

    /// A region of `text` over `range`, which must lie on its scalar boundaries.
    pub fn new(text: &'a Text, range: Range) -> (r: Region<'a>)
        requires
            range.valid_in(text.bytes()),
        ensures
            r.text_view() == text,
            r.range_view() == range,
    {
        Region { text, range }
    }

    /// The characters of the region.
    pub fn as_str(&self) -> (r: &'a str)
        ensures
            r@ == self.chars(),
            r.spec_bytes() == self.text_view().bytes().subrange(
                self.range_view().start as int,
                self.range_view().end as int,
            ),
    {
        proof {
            use_type_invariant(self);
        }
        substr(self.text.body(), self.range.start, self.range.end)
    }

    pub fn range(&self) -> (r: &Range)
        ensures
            *r == self.range_view(),
            r.valid_in(self.text_view().bytes()),
    {
        proof {
            use_type_invariant(self);
        }
        &self.range
    }

    pub fn text(&self) -> (r: &'a Text)
        ensures
            r == self.text_view(),
    {
        self.text
    }

    /// The empty region at the end of this one.
    pub fn end(&self) -> (r: Region<'a>)
        ensures
            r.text_view() == self.text_view(),
            r.range_view() == (Range { start: self.range_view().end, end: self.range_view().end }),
    {
        proof {
            use_type_invariant(self);
        }
        Region { text: self.text, range: Range { start: self.range.end, end: self.range.end } }
    }
}

/// A collection of source texts.
#[derive(Debug)]
pub struct Source {
    texts: Vec<Text>,
}

impl Source {
    pub closed spec fn view(&self) -> Seq<Text> {
        self.texts@
    }

    pub fn new(texts: Vec<Text>) -> (r: Source)
        ensures
            r.view() == texts@,
    {
        Source { texts }
    }

    pub fn texts(&self) -> (r: &[Text])
        ensures
            r@ == self.view(),
    {
        self.texts.as_slice()
    }
}

} // verus!
