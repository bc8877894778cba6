use cyntax::ast::PreprocessingToken;
use cyntax::expand::{Expander, MacroTable};
use cyntax::lexer::lex;
use cyntax::prelexer::prelex;
use cyntax::prepend::PrependingPeekableIterator;
use cyntax::spanned::Spanned;

fn groups(src: &str) -> Vec<usize> {
    let tokens = lex(0, src).unwrap();
    let refs: Vec<&Spanned<PreprocessingToken>> = tokens.iter().collect();
    let expander = Expander::new(0, PrependingPeekableIterator::new(vec![]), MacroTable::new());
    expander.split_delimited(&refs).iter().map(|g| g.value.len()).collect()
}

#[test]
fn split_of_nothing_is_no_group() {
    assert_eq!(groups(""), Vec::<usize>::new());
}

#[test]
fn split_of_two_commas_is_three_empty_groups() {
    assert_eq!(groups(",,"), vec![0, 0, 0]);
}

#[test]
fn split_without_comma_is_one_group() {
    assert_eq!(groups("2+5"), vec![3]);
}

#[test]
fn split_with_trailing_comma_ends_with_empty_group() {
    assert_eq!(groups("2+5,"), vec![3, 0]);
}

#[test]
fn parameters_of_a_definition() {
    let tokens = lex(0, "(a, b, ...)").unwrap();
    let expander = Expander::new(0, PrependingPeekableIterator::new(vec![]), MacroTable::new());
    let mut trees = Expander::new(
        0,
        PrependingPeekableIterator::new(
            tokens.into_iter().map(cyntax::tree::TokenTree::PreprocessorToken).collect(),
        ),
        MacroTable::new(),
    );
    let (opener, closer, inner) = trees.next_delimited().unwrap();
    let group = Spanned::new(
        opener.location.clone(),
        PreprocessingToken::Delimited(Box::new(cyntax::ast::Delimited { opener, closer, inner_tokens: inner })),
    );
    let list = expander.parse_parameters(group).unwrap();
    assert_eq!(list.parameters, vec!["a".to_string(), "b".to_string()]);
    assert!(list.variadic);
}

#[test]
fn trigraph_is_one_character() {
    let chars = prelex(0, "??=");
    assert_eq!(chars.len(), 1);
    assert_eq!(chars[0].value, '#');
    assert_eq!(chars[0].location.range, 0..3);
}

#[test]
fn digraph_and_line_splice() {
    let chars = prelex(0, "<:a\\\nb");
    let text: String = chars.iter().map(|c| c.value).collect();
    assert_eq!(text, "[ab");
    assert_eq!(chars[2].location.range, 5..6);
}
