//! Specification triples: a subject, a predicate, an object and an optional
//! description, each a range of one text.

use vstd::prelude::*;
use crate::text::{Range, Region, Text};

verus! {

/// Four ranges of one text, each on its scalar boundaries; an empty
/// description range stands for no description.
#[derive(Clone, Copy, Debug)]
pub struct Triple<'a> {
    text: &'a Text,
    subject: Range,
    predicate: Range,
    object: Range,
    description: Range,
}

impl<'a> Triple<'a> {
    #[verifier::type_invariant]
    spec fn bounded(self) -> bool {
        &&& self.subject.valid_in(self.text.bytes())
        &&& self.predicate.valid_in(self.text.bytes())
        &&& self.object.valid_in(self.text.bytes())
        &&& self.description.valid_in(self.text.bytes())
    }

    pub closed spec fn text_view(self) -> &'a Text {
        self.text
    }

    pub closed spec fn subject_view(self) -> Range {
        self.subject
    }

    pub closed spec fn predicate_view(self) -> Range {
        self.predicate
    }

    pub closed spec fn object_view(self) -> Range {
        self.object
    }

    pub closed spec fn description_view(self) -> Range {
        self.description
    }

    /// A triple over `text`; every range must lie on its scalar boundaries.
    /// A missing description is kept as the empty range at offset 0.
    pub fn new(
        text: &'a Text,
        subject: Range,
        predicate: Range,
        object: Range,
        description: Option<Range>,
    ) -> (r: Triple<'a>)
        requires
            subject.valid_in(text.bytes()),
            predicate.valid_in(text.bytes()),
            object.valid_in(text.bytes()),
            description matches Some(d) ==> d.valid_in(text.bytes()),
        ensures
            r.text_view() == text,
            r.subject_view() == subject,
            r.predicate_view() == predicate,
            r.object_view() == object,
            description matches Some(d) ==> r.description_view() == d,
            description is None ==> r.description_view() == (Range { start: 0, end: 0 }),
    {
        proof {
            vstd::utf8::encode_utf8_valid_utf8(text.body@);
            vstd::utf8::is_char_boundary_start_end_of_seq(text.bytes());
        }
        let description = match description {
            Some(d) => d,
            None => Range { start: 0, end: 0 },
        };
        Triple { text, subject, predicate, object, description }
    }

    pub fn subject(&self) -> (r: Region<'a>)
        ensures
            r.text_view() == self.text_view(),
            r.range_view() == self.subject_view(),
    {
        proof {
            use_type_invariant(self);
        }
        Region::new(self.text, self.subject)
    }

    pub fn predicate(&self) -> (r: Region<'a>)
        ensures
            r.text_view() == self.text_view(),
            r.range_view() == self.predicate_view(),
    {
        proof {
            use_type_invariant(self);
        }
        Region::new(self.text, self.predicate)
    }

    pub fn object(&self) -> (r: Region<'a>)
        ensures
            r.text_view() == self.text_view(),
            r.range_view() == self.object_view(),
    {
        proof {
            use_type_invariant(self);
        }
        Region::new(self.text, self.object)
    }

    /// The description, or `None` where its range is empty.
    pub fn description(&self) -> (r: Option<Region<'a>>)
        ensures
            self.description_view().start == self.description_view().end ==> r is None,
            self.description_view().start != self.description_view().end ==> (r matches Some(d)
                && d.text_view() == self.text_view() && d.range_view() == self.description_view()),
    {
        proof {
            use_type_invariant(self);
        }
        if self.description.start == self.description.end {
            return None;
        }
        Some(Region::new(self.text, self.description))
    }
}

} // verus!
