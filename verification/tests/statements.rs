use cyntax::lexer::lex;
use cyntax::parser::Parser;

fn parser(src: &str) -> Parser {
    Parser::new(lex(0, src).unwrap())
}

#[test]
fn labeled_statements_start_with_a_label_or_case() {
    assert!(parser("done: x;").can_start_labeled_stmt());
    assert!(parser("case 1:").can_start_labeled_stmt());
    assert!(parser("default:").can_start_labeled_stmt());
    assert!(!parser("done = x;").can_start_labeled_stmt());
}

#[test]
fn statement_kinds_are_told_by_their_first_token() {
    assert!(parser("{ }").can_start_compound_statement());
    assert!(parser("if (x) y;").can_start_selection_statement());
    assert!(parser("switch (x) {}").can_start_selection_statement());
    assert!(parser("while (1) {}").can_start_iteration_statement());
    assert!(parser("do {} while (1);").can_start_iteration_statement());
    assert!(parser("for (;;) {}").can_start_iteration_statement());
    assert!(parser("return 0;").can_start_jump_statement());
    assert!(parser("break;").can_start_jump_statement());
    assert!(!parser("x;").can_start_jump_statement());
}

#[test]
fn any_statement_start() {
    assert!(parser("x = 1;").can_start_statement());
    assert!(parser("goto end;").can_start_statement());
    assert!(!parser("int x;").can_start_statement());
    assert!(!parser("").can_start_statement());
}

#[test]
fn pointer_starts_with_a_star() {
    assert_eq!(parser("*p").can_start_pointer().unwrap(), true);
    assert_eq!(parser("p").can_start_pointer().unwrap(), false);
    assert!(parser("").can_start_pointer().is_err());
}

#[test]
fn type_qualifiers_and_specifiers() {
    assert!(parser("const int").can_parse_type_qualifier());
    assert!(parser("volatile").can_parse_type_qualifier());
    assert!(!parser("int").can_parse_type_qualifier());
    assert!(parser("unsigned long").can_parse_type_specifier());
    assert!(!parser("const").can_parse_type_specifier());
    let mut p = parser("size_t n");
    assert!(!p.can_parse_type_specifier());
    p.declare_typedef("size_t").unwrap();
    assert!(p.can_parse_type_specifier());
}
