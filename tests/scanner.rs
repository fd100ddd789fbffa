use ahfs::scanner::Scanner;
use ahfs::text::Text;
use ahfs::token::Name;

#[test]
fn scanner_collect() {
    let text = Text::new("", "aabbccc");
    let mut reader = Scanner::new(&text);

    assert_eq!(Some('a'), reader.next());
    assert_eq!(Some('a'), reader.next());
    reader.discard();

    assert_eq!(Some('b'), reader.next());
    assert_eq!(Some('b'), reader.next());
    let token = reader.collect(Name::Identifier);
    assert_eq!("bb", token.as_str());

    assert_eq!(Some('c'), reader.next());
    assert_eq!(Some('c'), reader.next());
    reader.undo();
    let candidate = reader.review();
    assert_eq!("c", candidate);
}

#[test]
fn advance_then_undo_restores_end_for_every_width() {
    for s in ["a", "é", "€", "😜", "\u{10FFFF}", "\u{7F}", "\u{80}", "\u{7FF}", "\u{800}", "\u{FFFF}", "\u{10000}"] {
        let text = Text::new("w", s);
        let mut scanner = Scanner::new(&text);
        let c = scanner.next();
        assert_eq!(s.chars().next(), c);
        assert_eq!(s, scanner.review());
        scanner.undo();
        assert_eq!("", scanner.review());
        assert_eq!(c, scanner.next());
        assert_eq!(None, scanner.next());
    }
}

#[test]
fn windows_stay_on_boundaries() {
    let body = "a😜é€\u{10FFFF}b";
    let text = Text::new("mixed", body);
    let mut scanner = Scanner::new(&text);
    let pattern = [0u8, 0, 1, 0, 2, 0, 1, 1, 0, 0, 2, 1, 0, 0, 0, 2];
    let mut seen = Vec::new();
    for op in pattern {
        match op {
            0 => {
                scanner.next();
            }
            1 => scanner.undo(),
            _ => {
                let token = scanner.collect(Name::Identifier);
                let range = token.region.range();
                assert!(body.is_char_boundary(range.start));
                assert!(body.is_char_boundary(range.end));
                seen.push(token.as_str().to_string());
            }
        }
        let candidate = scanner.review();
        assert!(body.contains(candidate));
    }
    assert_eq!(vec!["a😜".to_string(), "é€".to_string(), "\u{10FFFF}b".to_string()], seen);
}

#[test]
fn undo_on_empty_window_stays() {
    let text = Text::new("", "xy");
    let mut scanner = Scanner::new(&text);
    scanner.undo();
    assert_eq!(Some('x'), scanner.peek());
    scanner.next();
    scanner.discard();
    scanner.undo();
    assert_eq!(Some('y'), scanner.next());
    assert_eq!("y", scanner.review());
}

#[test]
fn names_are_written_as_in_the_language() {
    assert_eq!("<", Name::AngleLeft.as_str());
    assert_eq!(";", Name::Semicolon.as_str());
    assert_eq!("consumes", Name::Consumes.as_str());
    assert_eq!("Identifier", Name::Identifier.as_str());
    assert_eq!("Error", Name::Error.as_str());
}

#[test]
fn fixed_table_classifies_reviewed_words() {
    let text = Text::new("k.ahs", "service Foo;");
    let mut scanner = Scanner::new(&text);
    while let Some(c) = scanner.peek() {
        if c == ' ' {
            break;
        }
        scanner.next();
    }
    assert_eq!(Some(Name::Service), Name::from_table(scanner.review()));
    assert_eq!(Some(Name::Semicolon), Name::from_table(";"));
    assert_eq!(Some(Name::Using), Name::from_table("using"));
    assert_eq!(None, Name::from_table("Foo"));
    assert_eq!(None, Name::from_table("Identifier"));
    assert_eq!(None, Name::from_table(""));
}
