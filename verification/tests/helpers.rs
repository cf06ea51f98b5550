use esm_lexer::f::{get_ascii_code, get_char_by_code};
use esm_lexer::helper::{isBr, isBrOrWs, isBrOrWsOrPunctuatorNotDot, isExpressionKeyword, isExpressionPunctuator, isParenKeyword, isPunctuator, isWsNotBr};
use esm_lexer::source::{charCodeAt, encode_utf16, setSource, starts_with};
use esm_lexer::state::Lexer;

fn lexer(src: &str) -> Lexer {
    let mut lx = Lexer::new();
    setSource(&mut lx, src);
    lx
}

#[test]
fn ascii_codes() {
    assert_eq!(get_ascii_code('A'), 65);
    assert_eq!(get_ascii_code(' '), 32);
    assert_eq!(get_ascii_code('~'), 126);
    assert_eq!(get_ascii_code('\n'), 0);
    assert_eq!(get_ascii_code('é'), 0);
    assert_eq!(get_char_by_code(65), 'A');
    assert_eq!(get_char_by_code(126), '~');
    assert_eq!(get_char_by_code(5), '\n');
    assert_eq!(get_char_by_code(200), '\n');
}

#[test]
fn character_classes() {
    assert!(isBr(10) && isBr(13) && !isBr(32));
    assert!(isWsNotBr(9) && isWsNotBr(160) && !isWsNotBr(10));
    assert!(isBrOrWs(10) && isBrOrWs(32) && !isBrOrWs(65));
    assert!(isPunctuator(40) && isPunctuator(125) && !isPunctuator(36));
    assert!(isExpressionPunctuator(61) && !isExpressionPunctuator(41) && !isExpressionPunctuator(125));
    assert!(isBrOrWsOrPunctuatorNotDot(59) && !isBrOrWsOrPunctuatorNotDot(46));
}

#[test]
fn keywords_before_a_position() {
    let lx = lexer("x = typeof /a/");
    assert!(isExpressionKeyword(&lx, 9));
    let lx = lexer("xtypeof");
    assert!(!isExpressionKeyword(&lx, 6));
    let lx = lexer(" return");
    assert!(isExpressionKeyword(&lx, 6));
    let lx = lexer("while");
    assert!(isParenKeyword(&lx, 4));
    let lx = lexer("if");
    assert!(isParenKeyword(&lx, 1));
}

#[test]
fn source_reads() {
    let lx = lexer("a\u{1F600}b");
    assert_eq!(charCodeAt(&lx, 0), 97);
    assert_eq!(charCodeAt(&lx, 1), 0xD83D);
    assert_eq!(charCodeAt(&lx, 2), 0xDE00);
    assert_eq!(charCodeAt(&lx, 3), 98);
    assert_eq!(charCodeAt(&lx, 4), 0);
    assert_eq!(charCodeAt(&lx, -1), 0);
    assert!(starts_with(&lx, "b", 3));
    assert!(!starts_with(&lx, "b", -1));
    assert_eq!(esm_lexer::source::stringify(&lx, 0, 4), "a\u{1F600}b");
    assert_eq!(esm_lexer::source::stringify(&lx, 1, 2), "\u{FFFD}");
    assert_eq!(esm_lexer::source::stringify(&lx, 3, 100), "b");
    assert_eq!(esm_lexer::source::stringify(&lx, 3, 1), "");
    assert_eq!(encode_utf16("\u{1F600}"), vec![0xD83D, 0xDE00]);
}

#[test]
fn source_reads_back_whole() {
    for s in ["", "plain ascii", "é and ü", "\u{1F600}\u{10FFFF}x", "\u{FFFF}\u{E000}"] {
        let lx = lexer(s);
        let n = esm_lexer::source::len(&lx);
        assert_eq!(esm_lexer::source::stringify(&lx, 0, n), s);
    }
}

#[test]
fn expression_keyword_at_source_start() {
    let lx = lexer("return");
    assert!(isExpressionKeyword(&lx, 5));
    let lx = lexer("typeof");
    assert!(isExpressionKeyword(&lx, 5));
    let lx = lexer("xreturn");
    assert!(!isExpressionKeyword(&lx, 6));
}

#[test]
fn escape_digits_take_no_separator() {
    let lx = lexer("'\\u{4_1}'");
    assert_eq!(esm_lexer::lexer::evalLiteral(&lx, 0, 9), None);
    let lx = lexer("'\\u{41}'");
    assert_eq!(esm_lexer::lexer::evalLiteral(&lx, 0, 8).as_deref(), Some("A"));
    let lx = lexer("'\\u00_41'");
    assert_eq!(esm_lexer::lexer::evalLiteral(&lx, 0, 9), None);
}
