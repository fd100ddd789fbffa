//! The typed scanner: a candidate cursor over a named text whose collected
//! windows become tokens.

use vstd::prelude::*;
use vstd::string::StringSliceAdditionalSpecFns;
use crate::cursor::{scalar_at, step, Cursor, Step};
use crate::text::{Region, Text};
use crate::token::{Name, Token};
use crate::utf8::{chars_in, valid_range};

verus! {

/// Cuts tokens out of a text, one candidate window at a time.
#[derive(Debug)]
pub struct Scanner<'a> {
    text: &'a Text,
    cursor: Cursor<'a>,
}

impl<'a> Scanner<'a> {
    pub closed spec fn text_view(&self) -> &'a Text {
        self.text
    }

    /// The candidate window as a pair of byte offsets.
    pub closed spec fn window(&self) -> (int, int) {
        self.cursor.window()
    }

    /// Both ends of the window lie on scalar boundaries of the text.
    pub open spec fn on_boundaries(&self) -> bool {
        valid_range(self.text_view().bytes(), self.window().0, self.window().1)
    }

    /// The cursor walks the bytes of the text.
    pub closed spec fn tracks_text(&self) -> bool {
        &&& self.cursor.wf()
        &&& self.cursor.bytes_view() == self.text.bytes()
    }

    pub open spec fn wf(&self) -> bool {
        &&& self.tracks_text()
        &&& self.on_boundaries()
    }

    /// A scanner with an empty window at the beginning of `text`.
    pub fn new(text: &'a Text) -> (r: Scanner<'a>)
        ensures
            r.wf(),
            r.on_boundaries(),
            r.text_view() == text,
            r.window() == (0int, 0int),
    {
        Scanner { text, cursor: Cursor::new(text.body()) }
    }

    /// Gives the scalar right after the window and widens the window past it,
    /// or `None` at the end of the text.
    pub fn next(&mut self) -> (r: Option<char>)
        requires
            old(self).wf(),
        ensures
            final(self).wf(),
            final(self).on_boundaries(),
            final(self).text_view() == old(self).text_view(),
            final(self).window() == step(old(self).text_view().bytes(), old(self).window(), Step::Advance),
            old(self).window().1 < old(self).text_view().bytes().len() ==> r == Some(
                scalar_at(old(self).text_view().bytes(), old(self).window().1),
            ),
            old(self).window().1 == old(self).text_view().bytes().len() ==> r is None,
    {
        self.cursor.next()
    }

    /// The scalar right after the window, or `None` at the end of the text.
    pub fn peek(&self) -> (r: Option<char>)
        requires
            self.wf(),
        ensures
            self.window().1 < self.text_view().bytes().len() ==> r == Some(
                scalar_at(self.text_view().bytes(), self.window().1),
            ),
            self.window().1 == self.text_view().bytes().len() ==> r is None,
    {
        self.cursor.peek()
    }

    /// Takes the last scalar back out of the window; an empty window stays.
    pub fn undo(&mut self)
        requires
            old(self).wf(),
        ensures
            final(self).wf(),
            final(self).on_boundaries(),
            final(self).text_view() == old(self).text_view(),
            final(self).window() == step(old(self).text_view().bytes(), old(self).window(), Step::Undo),
    {
        self.cursor.undo()
    }

    /// Turns the window into a token named `name`, leaving an empty window at
    /// its end.
    pub fn collect(&mut self, name: Name) -> (r: Token<'a>)
        requires
            old(self).wf(),
        ensures
            final(self).wf(),
            final(self).on_boundaries(),
            final(self).text_view() == old(self).text_view(),
            final(self).window() == step(old(self).text_view().bytes(), old(self).window(), Step::Discard),
            r.name == name,
            r.region.text_view() == old(self).text_view(),
            r.region.range_view().start == old(self).window().0,
            r.region.range_view().end == old(self).window().1,
    {
        let range = self.cursor.take();
        Token::new(name, Region::new(self.text, range))
    }

    /// Drops the window, leaving an empty one at its end.
    pub fn discard(&mut self)
        requires
            old(self).wf(),
        ensures
            final(self).wf(),
            final(self).on_boundaries(),
            final(self).text_view() == old(self).text_view(),
            final(self).window() == step(old(self).text_view().bytes(), old(self).window(), Step::Discard),
    {
        self.cursor.discard()
    }

    /// The characters in the window, which stays as it is.
    pub fn review(&self) -> (r: &'a str)
        requires
            self.wf(),
        ensures
            r@ == chars_in(self.text_view().bytes(), self.window().0, self.window().1),
    {
        self.cursor.review()
    }
}

} // verus!
