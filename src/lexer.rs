//! Lexemes, the byte-level candidate source, and the coarse word/delimiter
//! splitter.

use vstd::prelude::*;
use vstd::utf8::*;
use vstd::string::StringSliceAdditionalSpecFns;
use crate::cursor::{lemma_undo_after_advance, scalar_at, scalar_len, Cursor};
use crate::utf8::{chars_in, lemma_str_valid, substr, valid_range};

verus! {

/// A piece of a source string, tagged with a kind.
#[derive(Clone, Copy, Debug)]
pub struct Lexeme<'a, K> {
    kind: K,
    text: &'a str,
}

impl<'a, K> Lexeme<'a, K> {
    pub closed spec fn kind_view(&self) -> K {
        self.kind
    }

    pub closed spec fn str_view(&self) -> &'a str {
        self.text
    }

    pub fn new(kind: K, text: &'a str) -> (r: Lexeme<'a, K>)
        ensures
            r.kind_view() == kind,
            r.str_view() == text,
    {
        Lexeme { kind, text }
    }

    pub fn kind(&self) -> (r: &K)
        ensures
            *r == self.kind_view(),
    {
        &self.kind
    }

    pub fn as_str(&self) -> (r: &'a str)
        ensures
            r == self.str_view(),
    {
        self.text
    }
}

/// Cuts lexemes out of a source string byte by byte. The window `[start, end)`
/// grows by single bytes; the caller cuts only where both ends fall on scalar
/// boundaries.
#[derive(Debug)]
pub struct Source<'a> {
    text: &'a str,
    bytes: &'a [u8],
    start: usize,
    end: usize,
}

impl<'a> Source<'a> {
    pub closed spec fn text_view(&self) -> &'a str {
        self.text
    }

    pub closed spec fn window(&self) -> (int, int) {
        (self.start as int, self.end as int)
    }

    pub open spec fn bytes_view(&self) -> Seq<u8> {
        self.text_view().spec_bytes()
    }

    /// The window lies within the text.
    pub open spec fn in_text(&self) -> bool {
        0 <= self.window().0 <= self.window().1 <= self.bytes_view().len()
    }

    /// The cursor holds the bytes of its text.
    pub closed spec fn tracks_text(&self) -> bool {
        &&& self.bytes@ == self.text.spec_bytes()
        &&& self.bytes@.len() <= usize::MAX
    }

    pub open spec fn wf(&self) -> bool {
        &&& self.tracks_text()
        &&& self.in_text()
    }

    /// A source with an empty window at the beginning of `text`.
    pub fn new(text: &'a str) -> (r: Source<'a>)
        ensures
            r.wf(),
            r.in_text(),
            r.text_view() == text,
            r.window() == (0int, 0int),
    {
        let bytes = text.as_bytes();
        let _ = bytes.len();
        Source { text, bytes, start: 0, end: 0 }
    }

    /// Gives the byte right after the window and widens the window past it,
    /// or `None` at the end of the text.
    pub fn next(&mut self) -> (r: Option<u8>)
        requires
            old(self).wf(),
        ensures
            final(self).wf(),
            final(self).in_text(),
            final(self).text_view() == old(self).text_view(),
            old(self).window().1 < old(self).bytes_view().len() ==> r == Some(
                old(self).bytes_view()[old(self).window().1],
            ) && final(self).window() == (old(self).window().0, old(self).window().1 + 1),
            old(self).window().1 == old(self).bytes_view().len() ==> r is None && final(self).window()
                == old(self).window(),
    {
        if self.end < self.bytes.len() {
            let b = self.bytes[self.end];
            self.end = self.end + 1;
            Some(b)
        } else {
            None
        }
    }

    /// The byte right after the window, or `None` at the end of the text.
    pub fn peek(&self) -> (r: Option<u8>)
        requires
            self.wf(),
        ensures
            self.window().1 < self.bytes_view().len() ==> r == Some(
                self.bytes_view()[self.window().1],
            ),
            self.window().1 == self.bytes_view().len() ==> r is None,
    {
        if self.end < self.bytes.len() {
            Some(self.bytes[self.end])
        } else {
            None
        }
    }

    /// Widens the window by one byte, which must be there.
    pub fn skip(&mut self)
        requires
            old(self).wf(),
            old(self).window().1 < old(self).bytes_view().len(),
        ensures
            final(self).wf(),
            final(self).in_text(),
            final(self).text_view() == old(self).text_view(),
            final(self).window() == (old(self).window().0, old(self).window().1 + 1),
    {
        self.end = self.end + 1;
    }

    /// Turns the window, whose ends must lie on scalar boundaries, into a
    /// lexeme of kind `kind`, leaving an empty window at its end.
    pub fn collect<K>(&mut self, kind: K) -> (r: Lexeme<'a, K>)
        requires
            old(self).wf(),
            valid_range(old(self).bytes_view(), old(self).window().0, old(self).window().1),
        ensures
            final(self).wf(),
            final(self).in_text(),
            final(self).text_view() == old(self).text_view(),
            final(self).window() == (old(self).window().1, old(self).window().1),
            r.kind_view() == kind,
            r.str_view().spec_bytes() == old(self).bytes_view().subrange(
                old(self).window().0,
                old(self).window().1,
            ),
            r.str_view()@ == chars_in(old(self).bytes_view(), old(self).window().0, old(self).window().1),
    {
        let lexeme = Lexeme::new(kind, substr(self.text, self.start, self.end));
        self.discard();
        lexeme
    }

    /// Drops the window, leaving an empty one at its end.
    pub fn discard(&mut self)
        requires
            old(self).wf(),
        ensures
            final(self).wf(),
            final(self).in_text(),
            final(self).text_view() == old(self).text_view(),
            final(self).window() == (old(self).window().1, old(self).window().1),
    {
        self.start = self.end;
    }
}

/// Insignificant characters: the controls other than line feed, and space.
pub open spec fn is_control(c: char) -> bool {
    ('\x00' <= c <= '\x09') || ('\x0b' <= c <= ' ') || c == '\x7f'
}

/// Characters that stand alone as units.
pub open spec fn is_delimiter(c: char) -> bool {
    c == '\n' || c == '(' || c == ')' || c == ':' || c == ';' || c == '[' || c == ']' || c == '{'
        || c == '}'
}

/// The byte ranges of the units that the coarse splitter cuts from `bytes`,
/// scanning from offset `i` with a word in progress over `[word, i)` (none
/// where `word == i`): controls end a word and are dropped, delimiters end a
/// word and stand alone, anything else extends the word, and a word still in
/// progress at the end is kept.
pub open spec fn units(bytes: Seq<u8>, word: int, i: int) -> Seq<(int, int)>
    decreases bytes.len() + 4 - i via units_decreases
{
    if i < 0 || i >= bytes.len() {
        if word < i {
            seq![(word, i)]
        } else {
            seq![]
        }
    } else {
        let c = scalar_at(bytes, i);
        let j = i + scalar_len(bytes, i);
        if is_control(c) || is_delimiter(c) {
            let before: Seq<(int, int)> = if word < i {
                seq![(word, i)]
            } else {
                seq![]
            };
            let here: Seq<(int, int)> = if is_delimiter(c) {
                seq![(i, j)]
            } else {
                seq![]
            };
            before + here + units(bytes, j, j)
        } else {
            units(bytes, word, j)
        }
    }
}

#[via_fn]
proof fn units_decreases(bytes: Seq<u8>, word: int, i: int) {
    if 0 <= i < bytes.len() {
        let n = scalar_len(bytes, i);
        assert(1 <= n <= 4);
    }
}

fn is_control_char(c: char) -> (r: bool)
    ensures
        r == is_control(c),
{
    ('\x00' <= c && c <= '\x09') || ('\x0b' <= c && c <= ' ') || c == '\x7f'
}

fn is_delimiter_char(c: char) -> (r: bool)
    ensures
        r == is_delimiter(c),
{
    c == '\n' || c == '(' || c == ')' || c == ':' || c == ';' || c == '[' || c == ']' || c == '{'
        || c == '}'
}

/// Splits `source` into words and delimiters, dropping controls and spaces.
pub fn analyze<'a>(source: &'a str) -> (r: Vec<Lexeme<'a, ()>>)
    ensures
        r@.len() == units(source.spec_bytes(), 0, 0).len(),
        forall|k: int|
            #![trigger r@[k]]
            0 <= k < r@.len() ==> r@[k].str_view().spec_bytes() == source.spec_bytes().subrange(
                units(source.spec_bytes(), 0, 0)[k].0,
                units(source.spec_bytes(), 0, 0)[k].1,
            ) && r@[k].str_view()@ == chars_in(
                source.spec_bytes(),
                units(source.spec_bytes(), 0, 0)[k].0,
                units(source.spec_bytes(), 0, 0)[k].1,
            ),
{
    let ghost b = source.spec_bytes();
    let ghost all = units(b, 0, 0);
    let mut cursor = Cursor::new(source);
    let mut lexemes: Vec<Lexeme<'a, ()>> = Vec::new();
    proof {
        lemma_str_valid(source);
    }
    loop
        invariant
            cursor.wf(),
            cursor.text_view() == source,
            valid_utf8(b),
            b == source.spec_bytes(),
            all == units(b, 0, 0),
            cursor.window().0 == cursor.window().1,
            lexemes@.len() + units(b, cursor.window().1, cursor.window().1).len() == all.len(),
            forall|k: int|
                #![trigger lexemes@[k]]
                0 <= k < lexemes@.len() ==> lexemes@[k].str_view().spec_bytes() == b.subrange(
                    all[k].0,
                    all[k].1,
                ) && lexemes@[k].str_view()@ == chars_in(b, all[k].0, all[k].1),
            forall|k: int|
                0 <= k < units(b, cursor.window().1, cursor.window().1).len() ==> #[trigger] units(
                    b,
                    cursor.window().1,
                    cursor.window().1,
                )[k] == all[lexemes@.len() + k],
        ensures
            lexemes@.len() == all.len(),
            forall|k: int|
                #![trigger lexemes@[k]]
                0 <= k < lexemes@.len() ==> lexemes@[k].str_view().spec_bytes() == b.subrange(
                    all[k].0,
                    all[k].1,
                ) && lexemes@[k].str_view()@ == chars_in(b, all[k].0, all[k].1),
        decreases b.len() - cursor.window().1,
    {
        let ghost i = cursor.window().1;
        let ch = match cursor.next() {
            Some(ch) => ch,
            None => {
                proof {
                    assert(units(b, i, i).len() == 0);
                }
                break;
            },
        };
        let ghost j = cursor.window().1;
        if is_control_char(ch) {
            cursor.discard();
            proof {
                assert(units(b, i, i) == units(b, j, j));
            }
            continue;
        }
        if is_delimiter_char(ch) {
            let range = cursor.take();
            let lexeme = Lexeme::new((), substr(source, range.start, range.end));
            proof {
                assert(units(b, i, i) =~= seq![(i, j)] + units(b, j, j));
                assert(units(b, i, i)[0] == all[lexemes@.len() as int]);
                assert forall|k: int| 0 <= k < units(b, j, j).len() implies #[trigger] units(b, j, j)[k]
                    == all[lexemes@.len() + 1 + k] by {
                    assert(units(b, j, j)[k] == units(b, i, i)[k + 1]);
                }
            }
            lexemes.push(lexeme);
            continue;
        }
        loop
            invariant
                cursor.wf(),
                cursor.text_view() == source,
                valid_utf8(b),
                b == source.spec_bytes(),
                cursor.window().0 == i < cursor.window().1,
                units(b, i, i) == units(b, i, cursor.window().1),
            ensures
                cursor.wf(),
                cursor.text_view() == source,
                cursor.window().0 == i < cursor.window().1,
                units(b, i, i) =~= seq![(i, cursor.window().1)] + units(
                    b,
                    cursor.window().1,
                    cursor.window().1,
                ),
            decreases b.len() - cursor.window().1,
        {
            let ghost e = cursor.window().1;
            let ch = match cursor.next() {
                Some(ch) => ch,
                None => {
                    proof {
                        assert(units(b, i, e) =~= seq![(i, e)] + units(b, e, e));
                    }
                    break;
                },
            };
            if is_control_char(ch) || is_delimiter_char(ch) {
                proof {
                    lemma_undo_after_advance(b, i, e);
                    assert(units(b, i, e) =~= seq![(i, e)] + units(b, e, e));
                }
                cursor.undo();
                break;
            }
        }
        let ghost e = cursor.window().1;
        let range = cursor.take();
        let lexeme = Lexeme::new((), substr(source, range.start, range.end));
        proof {
            assert(units(b, i, i)[0] == all[lexemes@.len() as int]);
            assert forall|k: int| 0 <= k < units(b, e, e).len() implies #[trigger] units(b, e, e)[k]
                == all[lexemes@.len() + 1 + k] by {
                assert(units(b, e, e)[k] == units(b, i, i)[k + 1]);
            }
        }
        lexemes.push(lexeme);
    }
    lexemes
}

} // verus!
