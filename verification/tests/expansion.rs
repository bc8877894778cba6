use cyntax::ast::PreprocessingToken;
use cyntax::expand::{Expander, MacroTable};
use cyntax::lexer::lex;
use cyntax::prepend::PrependingPeekableIterator;
use cyntax::{process_complex_macro, process_macro, write_tokens, Preprocessor};

fn expand_with(src: &str, table: MacroTable) -> String {
    let tokens = lex(0, src).unwrap();
    let pre = Preprocessor::new(0, tokens.as_slice()).unwrap();
    let mut expander = Expander::new(0, PrependingPeekableIterator::new(pre.token_trees), table);
    expander.expand().unwrap();
    let mut out = String::new();
    write_tokens(src, &expander.output, &mut out);
    out
}

#[test]
fn function_call_is_replaced_by_its_substituted_body() {
    let mut table = MacroTable::new();
    table.insert("F".to_string(), process_complex_macro(&["a", "b"], "b - a").unwrap());
    assert_eq!(expand_with("x F(1, 2) y", table), "x  2-1 y");
}

#[test]
fn function_name_without_call_stays() {
    let mut table = MacroTable::new();
    table.insert("F".to_string(), process_complex_macro(&["a"], "a").unwrap());
    assert_eq!(expand_with("F + 1", table), "F + 1");
}

#[test]
fn object_macro_inside_expansion_output_keeps_its_place() {
    let mut table = MacroTable::new();
    table.insert("ONE".to_string(), process_macro("1").unwrap());
    table.insert("F".to_string(), process_complex_macro(&["a"], "a + a").unwrap());
    assert_eq!(expand_with("F(2) ONE", table), "2+2 1");
}

#[test]
fn self_referencing_macro_stops() {
    let mut table = MacroTable::new();
    table.insert("X".to_string(), process_macro("X + 1").unwrap());
    let tokens = lex(0, "X").unwrap();
    let pre = Preprocessor::new(0, tokens.as_slice()).unwrap();
    let mut expander = Expander::new(0, PrependingPeekableIterator::new(pre.token_trees), table);
    expander.expand().unwrap();
    assert!(matches!(&expander.output[0].value, PreprocessingToken::BlueIdentifier(s) if s == "X"));
}

#[test]
fn definitions_in_the_input_take_effect_in_order() {
    assert_eq!(expand_with("#define X 1\nX\n#undef X\nX", MacroTable::new()), "\n1\n\nX");
    assert_eq!(expand_with("X\n#define X 1\nX", MacroTable::new()), "X\n\n1");
}

#[test]
fn ifdef_groups_follow_the_definitions_in_effect() {
    let src = "#define A\n#ifdef A\nyes\n#else\nno\n#endif\n#ifndef A\nx\n#endif\n";
    assert_eq!(expand_with(src, MacroTable::new()), "\n\nyes\n\n\n");
}

#[test]
fn if_groups_follow_their_conditions() {
    let src = "#define V 2\n#if V == 2\nyes\n#elif V == 3\nmaybe\n#else\nno\n#endif\n";
    assert_eq!(expand_with(src, MacroTable::new()), "\n\nyes\n\n");
    let src = "#define V 3\n#if V == 2\nyes\n#elif V == 3\nmaybe\n#else\nno\n#endif\n";
    assert_eq!(expand_with(src, MacroTable::new()), "\n\nmaybe\n\n");
}

#[test]
fn arguments_are_expanded_before_they_are_substituted() {
    let mut table = MacroTable::new();
    table.insert("ONE".to_string(), process_macro("1").unwrap());
    table.insert("F".to_string(), process_complex_macro(&["a"], "a + a").unwrap());
    assert_eq!(expand_with("F(ONE)", table), "1+1");
}

#[test]
fn stringified_arguments_are_not_expanded() {
    let mut table = MacroTable::new();
    table.insert("ONE".to_string(), process_macro("1").unwrap());
    table.insert("S".to_string(), process_complex_macro(&["a"], "a #a").unwrap());
    assert_eq!(expand_with("S(ONE)", table), "1\"ONE\"");
}

#[test]
fn object_macro_inside_a_replacement_is_expanded() {
    let mut table = MacroTable::new();
    table.insert("A".to_string(), process_macro("B - B").unwrap());
    table.insert("B".to_string(), process_macro("2").unwrap());
    assert_eq!(expand_with("x A y", table), "x 2-2 y");
}

#[test]
fn object_macro_inside_a_function_result_is_expanded() {
    let mut table = MacroTable::new();
    table.insert("ONE".to_string(), process_macro("1").unwrap());
    table.insert("F".to_string(), process_complex_macro(&["a"], "a + ONE").unwrap());
    assert_eq!(expand_with("F(2)", table), "2+1");
}

#[test]
fn mutually_referring_macros_stop() {
    let mut table = MacroTable::new();
    table.insert("A".to_string(), process_macro("B").unwrap());
    table.insert("B".to_string(), process_macro("A").unwrap());
    let tokens = lex(0, "A").unwrap();
    let pre = Preprocessor::new(0, tokens.as_slice()).unwrap();
    let mut expander = Expander::new(0, PrependingPeekableIterator::new(pre.token_trees), table);
    expander.expand().unwrap();
    assert!(matches!(&expander.output[0].value, PreprocessingToken::BlueIdentifier(s) if s == "A"));
}
