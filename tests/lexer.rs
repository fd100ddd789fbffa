use ahfs::lexer;
use ahfs::lexer::Source;

#[test]
fn analyze() {
    let source = "A is: System;\nB is: Service;\n# Emojis 😜🤖💩!";
    assert_eq!(
        vec![
            "A", "is", ":", "System", ";", "\n", "B", "is", ":", "Service", ";", "\n", "#",
            "Emojis", "😜🤖💩!"
        ],
        lexer::analyze(source).iter().map(|lexeme| lexeme.as_str()).collect::<Vec<_>>()
    );
}

#[test]
fn source_collect() {
    let source_str = "aabbcc";
    let mut source = Source::new(source_str);

    assert_eq!(Some(b'a'), source.next());
    assert_eq!(Some(b'a'), source.next());
    source.discard();

    assert_eq!(Some(b'b'), source.next());
    assert_eq!(Some(b'b'), source.next());

    let lexeme = source.collect(());
    assert_eq!("bb", lexeme.as_str());
}

#[test]
fn analyze_empty_and_blank() {
    assert!(lexer::analyze("").is_empty());
    assert!(lexer::analyze(" \t\r\x7f").is_empty());
}

#[test]
fn analyze_trailing_word_is_kept() {
    let words: Vec<&str> = lexer::analyze("x(y)z").iter().map(|l| l.as_str()).collect();
    assert_eq!(vec!["x", "(", "y", ")", "z"], words);
}

#[test]
fn analyze_delimiters_alone() {
    let words: Vec<&str> = lexer::analyze("[]{};:\n").iter().map(|l| l.as_str()).collect();
    assert_eq!(vec!["[", "]", "{", "}", ";", ":", "\n"], words);
}

#[test]
fn source_peek_skip_and_end() {
    let mut source = Source::new("ab");
    assert_eq!(Some(b'a'), source.peek());
    source.skip();
    assert_eq!(Some(b'b'), source.peek());
    assert_eq!(Some(b'b'), source.next());
    assert_eq!(None, source.next());
    assert_eq!(None, source.peek());
    let lexeme = source.collect(7u8);
    assert_eq!("ab", lexeme.as_str());
    assert_eq!(&7u8, lexeme.kind());
    let empty = source.collect(0u8);
    assert_eq!("", empty.as_str());
}
