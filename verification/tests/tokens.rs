use cyntax::ast::{Keyword, PreprocessingToken, Punctuator};
use cyntax::lexer::lex;

#[test]
fn punctuators_read_back_their_spelling() {
    for c in ['+', '-', '(', ')', '[', ']', '{', '}', ';', ',', '#', '?', ':', '~', '!', '.'] {
        let p = Punctuator::from_char(c).expect("a punctuator");
        assert_eq!(p.to_string(), c.to_string());
    }
    assert!(Punctuator::from_char('a').is_none());
    assert!(Punctuator::is_punctuation('*'));
    assert!(!Punctuator::is_punctuation('x'));
}

#[test]
fn keywords_read_back_their_spelling() {
    for word in ["int", "sizeof", "while", "_Bool", "restrict"] {
        let k = Keyword::from_str(word).expect("a keyword");
        assert_eq!(k.to_string(), word.to_string());
    }
    assert!(Keyword::from_str("banana").is_none());
}

#[test]
fn lexing_a_simple_line() {
    let tokens = lex(0, "a+=10").unwrap();
    assert_eq!(tokens.len(), 3);
    assert!(matches!(&tokens[0].value, PreprocessingToken::Identifier(s) if s == "a"));
    assert!(matches!(tokens[1].value, PreprocessingToken::Punctuator(Punctuator::PlusEqual)));
    assert!(matches!(&tokens[2].value, PreprocessingToken::PPNumber(s) if s == "10"));
    assert_eq!(tokens[2].location.range, 3..5);
}

#[test]
fn control_line_is_one_token() {
    let tokens = lex(0, "#define X 1\nX").unwrap();
    assert!(matches!(tokens[0].value, PreprocessingToken::ControlLine(_)));
}

#[test]
fn unterminated_string_ends_with_the_text() {
    let tokens = lex(0, "\"abc").unwrap();
    assert_eq!(tokens.len(), 1);
    assert!(matches!(&tokens[0].value, PreprocessingToken::StringLiteral(s) if s == "abc"));
}

#[test]
fn backslash_at_the_end_of_a_literal_is_an_error() {
    assert!(lex(0, "\"abc\\").is_err());
}

#[test]
fn block_comment_becomes_one_newline_at_its_star() {
    let tokens = lex(0, "a/* x */b").unwrap();
    assert_eq!(tokens.len(), 3);
    assert!(matches!(&tokens[0].value, PreprocessingToken::Identifier(s) if s == "a"));
    assert!(matches!(tokens[1].value, PreprocessingToken::Whitespace(cyntax::ast::Whitespace::Newline)));
    assert_eq!(tokens[1].location.range, 6..7);
    assert!(matches!(&tokens[2].value, PreprocessingToken::Identifier(s) if s == "b"));
}

#[test]
fn slash_star_slash_closes_a_block_comment() {
    let tokens = lex(0, "/*/x").unwrap();
    assert_eq!(tokens.len(), 2);
    assert!(matches!(&tokens[1].value, PreprocessingToken::Identifier(s) if s == "x"));
}

#[test]
fn line_comment_ends_at_its_newline() {
    let tokens = lex(0, "// note\nx").unwrap();
    assert_eq!(tokens.len(), 2);
    assert!(matches!(tokens[0].value, PreprocessingToken::Whitespace(cyntax::ast::Whitespace::Newline)));
    assert_eq!(tokens[0].location.range, 7..8);
    assert!(matches!(&tokens[1].value, PreprocessingToken::Identifier(s) if s == "x"));
}

#[test]
fn unclosed_comment_ends_the_tokens() {
    assert_eq!(lex(0, "a /* open").unwrap().len(), 2);
    assert_eq!(lex(0, "a // open").unwrap().len(), 2);
}

#[test]
fn control_line_holds_the_tokens_of_its_line() {
    let tokens = lex(0, "#define X 1\nX").unwrap();
    assert_eq!(tokens.len(), 3);
    match &tokens[0].value {
        PreprocessingToken::ControlLine(inner) => {
            assert_eq!(inner.len(), 5);
            assert!(matches!(&inner[0].value, PreprocessingToken::Identifier(s) if s == "define"));
            assert!(matches!(&inner[2].value, PreprocessingToken::Identifier(s) if s == "X"));
            assert!(matches!(&inner[4].value, PreprocessingToken::PPNumber(s) if s == "1"));
        },
        _ => panic!("expected a control line"),
    }
    assert_eq!(tokens[0].location.range, 0..11);
    assert!(matches!(tokens[1].value, PreprocessingToken::Whitespace(cyntax::ast::Whitespace::Newline)));
}

#[test]
fn comments_inside_a_control_line() {
    let tokens = lex(0, "#define X 1 // note\nX").unwrap();
    match &tokens[0].value {
        PreprocessingToken::ControlLine(inner) => {
            assert_eq!(inner.len(), 6);
            assert!(matches!(inner[5].value, PreprocessingToken::Whitespace(_)));
        },
        _ => panic!("expected a control line"),
    }
    let tokens = lex(0, "#define X /* c */ 1\nX").unwrap();
    match &tokens[0].value {
        PreprocessingToken::ControlLine(inner) => {
            assert_eq!(inner.len(), 7);
            assert!(matches!(inner[4].value, PreprocessingToken::Whitespace(cyntax::ast::Whitespace::Newline)));
            assert!(matches!(&inner[6].value, PreprocessingToken::PPNumber(s) if s == "1"));
        },
        _ => panic!("expected a control line"),
    }
}

#[test]
fn hash_after_a_hash_opens_a_nested_control_line() {
    let tokens = lex(0, "# # x\ny").unwrap();
    assert_eq!(tokens.len(), 3);
    assert_eq!(tokens[0].location.range, 0..5);
    match &tokens[0].value {
        PreprocessingToken::ControlLine(inner) => {
            assert_eq!(inner.len(), 2);
            assert_eq!(inner[1].location.range, 2..5);
            match &inner[1].value {
                PreprocessingToken::ControlLine(nested) => {
                    assert_eq!(nested.len(), 2);
                    assert!(matches!(&nested[1].value, PreprocessingToken::Identifier(s) if s == "x"));
                },
                _ => panic!("expected a nested control line"),
            }
        },
        _ => panic!("expected a control line"),
    }
}

#[test]
fn control_line_that_cannot_be_read_is_an_error() {
    assert!(lex(0, "#define X /* open").is_err());
    assert!(lex(0, "#define X \"abc\\").is_err());
}

#[test]
fn asterisk_equal_is_one_punctuator() {
    let tokens = lex(0, "a*=b").unwrap();
    assert_eq!(tokens.len(), 3);
    assert!(matches!(tokens[1].value, PreprocessingToken::Punctuator(Punctuator::AsteriskEqual)));
}

#[test]
fn digraph_punctuators_are_spelled_as_digraphs() {
    assert_eq!(Punctuator::ColonRight.to_string(), ":>");
    assert_eq!(Punctuator::LeftColon.to_string(), "<:");
    assert_eq!(Punctuator::Directive.to_string(), "\u{266f}");
}
