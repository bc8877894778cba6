use cyntax::expand::{Expander, MacroTable};
use cyntax::lexer::lex;
use cyntax::prepend::PrependingPeekableIterator;
use cyntax::spanned::{Location, Spanned};
use cyntax::tree::{ControlLine, HeaderName, TokenTree};
use cyntax::{write_tokens, Preprocessor};

fn trees_of(file_id: usize, src: &str) -> Vec<TokenTree> {
    let tokens = lex(file_id, src).unwrap();
    Preprocessor::new(file_id, tokens.as_slice()).unwrap().token_trees
}

#[test]
fn include_hands_out_its_header_and_takes_its_text() {
    let mut trees = trees_of(0, "x ");
    trees.push(TokenTree::Directive(ControlLine::Include(HeaderName::Q(Spanned::new(
        Location::new(),
        "a.h".to_string(),
    )))));
    trees.extend(trees_of(0, " y"));
    let mut expander = Expander::new(0, PrependingPeekableIterator::new(trees), MacroTable::new());
    let header = expander.expand_until_include().unwrap();
    assert!(matches!(&header, Some(HeaderName::Q(name)) if name.value == "a.h"));
    expander.include_source(1, "#define A 2\nA").unwrap();
    assert!(expander.expand_until_include().unwrap().is_none());
    let mut out = String::new();
    write_tokens("", &expander.output, &mut out);
    assert_eq!(out, "x \n2 y");
}

#[test]
fn header_text_that_does_not_lex_is_an_error() {
    let mut expander = Expander::new(0, PrependingPeekableIterator::new(Vec::new()), MacroTable::new());
    assert!(expander.include_source(1, "\"abc\\").is_err());
}
