use cyntax::ast::PreprocessingToken;
use cyntax::lexer::lex;
use cyntax::tree::{IntoTokenTree, TokenTree};

fn trees(src: &str) -> Result<Vec<TokenTree>, ()> {
    let tokens = lex(0, src).unwrap();
    let mut it = IntoTokenTree::new(0, tokens.as_slice());
    it.collect_trees().map_err(|_| ())
}

#[test]
fn conditional_group_holds_body_and_opposition() {
    let t = trees("#if 1\na\n#else\nb\n#endif\n").unwrap();
    assert_eq!(t.len(), 2);
    match &t[0] {
        TokenTree::If { condition, body, opposition } => {
            assert_eq!(condition.len(), 1);
            assert_eq!(body.len(), 3);
            assert!(matches!(&body[1], TokenTree::PreprocessorToken(x) if matches!(&x.value, PreprocessingToken::Identifier(s) if s == "a")));
            match opposition.as_ref() {
                TokenTree::Else { body, opposition } => {
                    assert_eq!(body.len(), 3);
                    assert!(matches!(opposition.as_ref(), TokenTree::Endif));
                },
                _ => panic!("expected an else group"),
            }
        },
        _ => panic!("expected an if group"),
    }
    assert!(matches!(&t[1], TokenTree::PreprocessorToken(_)));
}

#[test]
fn nested_groups_close_in_order() {
    let t = trees("#ifdef A\n#ifndef B\nx\n#endif\n#endif").unwrap();
    assert_eq!(t.len(), 1);
    match &t[0] {
        TokenTree::IfDef { macro_name, body, opposition } => {
            assert_eq!(macro_name, "A");
            assert!(matches!(opposition.as_ref(), TokenTree::Endif));
            assert!(body.iter().any(|b| matches!(b, TokenTree::IfNDef { .. })));
        },
        _ => panic!("expected an ifdef group"),
    }
}

#[test]
fn empty_control_lines_are_skipped() {
    let t = trees("#\n#pragma once\nx").unwrap();
    assert_eq!(t.len(), 3);
}

#[test]
fn dangling_closers_are_errors() {
    assert!(trees("#endif\n").is_err());
    assert!(trees("#else\n").is_err());
    assert!(trees("#elif 1\n").is_err());
    assert!(trees("#if 1\nx\n").is_err());
}
