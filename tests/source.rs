use ahfs::span::Span;
use ahfs::text::{Error, Range, Source, Text};

fn alpha_beta() -> Source {
    let texts = vec![
        Text::new("alpha.ahs", "A type System;\nA consumes B;\r\nA produces C;\n"),
        Text::new("beta.ahs", "X"),
    ];
    Source::new(texts)
}

#[test]
fn display() {
    let source = alpha_beta();
    let get = |index: usize, range: std::ops::Range<usize>| {
        source.texts().get(index).unwrap().get_region(range).unwrap().render(false)
    };
    {
        assert_eq!(get(1, 0..1).as_str(), "      : beta.ahs\n      |\n    1 | X\n      | ^\n");
    }
    {
        assert_eq!(get(0, 0..1).as_str(), "      : alpha.ahs\n      |\n    1 | A type System;\n      | ^\n");
    }
    {
        assert_eq!(get(0, 17..25).as_str(), "      : alpha.ahs\n      |\n    2 | A consumes B;\n      |   ^^^^^^^^\n");
    }
    {
        assert_eq!(get(0, 30..42).as_str(), "      : alpha.ahs\n      |\n    3 | A produces C;\n      | ^^^^^^^^^^^^\n");
    }
    {
        assert_eq!(get(0, 17..40).as_str(), "      : alpha.ahs\n      |\n    2 | A consumes B;\n      |   ^^^^^^^^^^^\n    3 | A produces C;\n      | ^^^^^^^^^^\n");
    }
    {
        assert_eq!(get(0, 7..40).as_str(), "      : alpha.ahs\n      |\n    1 | A type System;\n      |        ^^^^^^^\n    2 | A consumes B;\n      | ^^^^^^^^^^^^^\n     ...\n");
    }
    {
        assert_eq!(get(0, 42..42).as_str(), "      : alpha.ahs\n      |\n    3 | A produces C;\n      |             ^\n");
    }
}

#[test]
fn zero_width_at_end_of_three_lines() {
    let text = Text::new("end.ahs", "one\ntwo\nthree");
    let len = text.body().len();
    let rendered = text.get_region(len..len).unwrap().render(false);
    assert_eq!(rendered, "      : end.ahs\n      |\n    3 | three\n      |      ^\n");
}

#[test]
fn three_lines_with_crlf_are_cut_after_two() {
    let text = Text::new("crlf.ahs", "ab\r\ncd\r\nef\r\n");
    let rendered = text.get_region(1..9).unwrap().render(false);
    assert_eq!(rendered, "      : crlf.ahs\n      |\n    1 | ab\n      |  ^\n    2 | cd\n      | ^^\n     ...\n");
}

#[test]
fn rendering_twice_gives_the_same() {
    let source = alpha_beta();
    let region = source.texts()[0].get_region(7..40).unwrap();
    assert_eq!(region.render(false), region.render(false));
    assert_eq!(region.render(true), region.render(true));
}

#[test]
fn colour_wraps_name_and_carets() {
    let text = Text::new("c.ahs", "ab");
    let rendered = text.get_region(0..1).unwrap().render(true);
    assert_eq!(rendered, "      : \x1b[34mc.ahs\x1b[0m\n      |\n    1 | ab\n      | \x1b[31m^\x1b[0m\n");
}

#[test]
fn line_numbers_are_right_aligned() {
    let mut body = String::new();
    for _ in 0..123456 {
        body.push('\n');
    }
    body.push_str("tail");
    let text = Text::new("long.ahs", &body);
    let start = body.len() - 4;
    let rendered = text.get_region(start..start + 2).unwrap().render(false);
    assert_eq!(rendered, "      : long.ahs\n      |\n123457 | tail\n      | ^^\n");
    let rendered = text.get_region(10..10).unwrap().render(false);
    assert_eq!(rendered, "      : long.ahs\n      |\n   11 | \n      | ^\n");
}

#[test]
fn regions_out_of_bounds_are_refused() {
    let text = Text::new("e.ahs", "a😜b");
    assert_eq!(Error::Bounds { start: 0, end: 2 }, text.get_region(0..2).unwrap_err());
    assert_eq!(Error::Bounds { start: 0, end: 9 }, text.get_region(0..9).unwrap_err());
    assert_eq!(Error::Bounds { start: 5, end: 1 }, text.get_region(5..1).unwrap_err());
    let region = text.get_region(1..5).unwrap();
    assert_eq!("😜", region.as_str());
    assert_eq!(Range::new(1, 5), *region.range());
    assert_eq!(Range::new(5, 5), *region.end().range());
    assert_eq!("e.ahs", region.text().name());
}

#[test]
fn ranges_convert() {
    let range = Range::new(3, 8);
    assert_eq!(3..8, range.as_ops_range());
}

#[test]
fn spans_read_and_excerpt() {
    let text = Text::new("s.ahs", "first\nsecond line\r\nthird");
    let span = Span { source: &text, range: Range::new(13, 17) };
    assert_eq!("line", span.as_str());
    let bad = Span { source: &text, range: Range::new(13, 99) };
    assert_eq!("", bad.as_str());
    let lines = span.lines();
    assert_eq!("second line", lines.source);
    assert_eq!(2, lines.number);
    assert_eq!(Range::new(7, 11), lines.range);
    let excerpt = span.to_excerpt();
    assert_eq!("s.ahs", excerpt.text.name());
    assert_eq!("second line", excerpt.text.body());
    assert_eq!(2, excerpt.line_number);
    assert_eq!(Range::new(7, 11), excerpt.range);
    let expected = "      : s.ahs\n      |\n    2 | second line\n      |        ^^^^\n";
    assert_eq!(expected, span.render(false));
    assert_eq!(expected, excerpt.render(false));
}

#[test]
fn ranges_contain_and_merge() {
    let a = Range::new(2, 5);
    assert!(a.contains(2));
    assert!(a.contains(4));
    assert!(!a.contains(5));
    assert!(!Range::new(3, 3).contains(3));
    assert_eq!(Range::new(2, 9), a.union(Range::new(6, 9)));
    assert_eq!(Range::new(0, 5), a.union(Range::new(0, 1)));
}

#[test]
fn carriage_return_before_line_feed_is_dropped() {
    let text = Text::new("cr.ahs", "a\r\n");
    let region = text.get_region(0..2).unwrap();
    assert_eq!("      : cr.ahs\n      |\n    1 | a\n      | ^^\n", region.render(false));
    let lines = region.lines();
    assert_eq!("a", lines.source);
    assert_eq!(Range::new(0, 2), lines.range);
}

#[test]
fn lone_carriage_return_at_end_is_kept() {
    let text = Text::new("cr.ahs", "a\r");
    let region = text.get_region(0..2).unwrap();
    assert_eq!("a\r", region.lines().source);
    assert_eq!("      : cr.ahs\n      |\n    1 | a\r\n      | ^^\n", region.render(false));
}

#[test]
fn lines_without_covered_bytes_get_no_caret() {
    let text = Text::new("m.ahs", "ab\ncd\nef");
    let rendered = text.get_region(2..7).unwrap().render(false);
    assert_eq!(rendered, "      : m.ahs\n      |\n    1 | ab\n      |   \n    2 | cd\n      | ^^\n     ...\n");
    let text = Text::new("m.ahs", "ab\ncd");
    let rendered = text.get_region(0..3).unwrap().render(false);
    assert_eq!(rendered, "      : m.ahs\n      |\n    1 | ab\n      | ^^\n    2 | cd\n      | \n");
}

#[test]
fn range_over_three_lines_keeps_first_two() {
    let text = Text::new("p.ahs", "x\nab\ncd\nef\ny");
    let rendered = text.get_region(3..9).unwrap().render(false);
    assert_eq!(rendered, "      : p.ahs\n      |\n    2 | ab\n      |  ^\n    3 | cd\n      | ^^\n     ...\n");
}
