use ahfs::span::Span;
use ahfs::text::{Range, Text};
use ahfs::triple::Triple;

#[test]
fn triple_parts_are_regions_of_the_text() {
    let text = Text::new("t.ahs", "Orchestrator consumes ServiceDiscovery { finds it }");
    let triple = Triple::new(
        &text,
        Range::new(0, 12),
        Range::new(13, 21),
        Range::new(22, 38),
        Some(Range::new(41, 49)),
    );
    assert_eq!("Orchestrator", triple.subject().as_str());
    assert_eq!("consumes", triple.predicate().as_str());
    assert_eq!("ServiceDiscovery", triple.object().as_str());
    assert_eq!("finds it", triple.description().unwrap().as_str());
}

#[test]
fn triple_without_description() {
    let text = Text::new("t.ahs", "A produces B");
    let triple = Triple::new(&text, Range::new(0, 1), Range::new(2, 10), Range::new(11, 12), None);
    assert!(triple.description().is_none());
    let empty = Triple::new(&text, Range::new(0, 1), Range::new(2, 10), Range::new(11, 12), Some(Range::new(3, 3)));
    assert!(empty.description().is_none());
}

#[test]
fn spans_compare_by_content() {
    let text = Text::new("e.ahs", "ab ab ac");
    let first = Span { source: &text, range: Range::new(0, 2) };
    let second = Span { source: &text, range: Range::new(3, 5) };
    let third = Span { source: &text, range: Range::new(6, 8) };
    assert!(first == second);
    assert!(first != third);
    let other = Text::new("f.ahs", "xab");
    let elsewhere = Span { source: &other, range: Range::new(1, 3) };
    assert!(first == elsewhere);
}
