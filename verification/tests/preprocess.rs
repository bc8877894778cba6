use cyntax::{preprocess_str, process_complex_macro, process_macro, MacroD};
use cyntax::expand::MacroDefinition;

fn run(src: &str) -> String {
    preprocess_str(src, &[]).expect("preprocessing failed")
}

#[test]
fn plain_text_comes_out_unchanged() {
    assert_eq!(run("int x = a + 1;\n"), "int x = a + 1;\n");
}

#[test]
fn literals_are_written_in_their_quotes() {
    assert_eq!(run("f(\"hi\", 'c');"), "f(\"hi\", 'c');");
}

#[test]
fn object_macro_from_the_caller() {
    let out = preprocess_str(
        "TEST_MACRO",
        &[("TEST_MACRO".to_string(), MacroD::Simple("EXPANDED_TEST_MACRO"))],
    )
    .unwrap();
    assert_eq!(out, "EXPANDED_TEST_MACRO");
}

#[test]
fn function_macro_from_the_caller() {
    let out = preprocess_str(
        "texelFetch(x, y)",
        &[(
            "texelFetch".to_string(),
            MacroD::Complex(
                vec!["__a__", "__b__"],
                "wgpu_texelfetch(__a__, __b__, a, test, whatever)",
            ),
        )],
    )
    .unwrap();
    assert_eq!(out, "wgpu_texelfetch(x, y,a,test,whatever)");
}

#[test]
fn function_macro_name_without_call_stays() {
    let out = preprocess_str(
        "texelFetch;",
        &[(
            "texelFetch".to_string(),
            MacroD::Complex(vec!["__a__"], "f(__a__)"),
        )],
    )
    .unwrap();
    assert_eq!(out, "texelFetch;");
}

#[test]
fn define_then_use() {
    assert_eq!(run("#define X Y\nX"), "\nY");
}

#[test]
fn undef_forgets_the_macro() {
    assert_eq!(run("#define X Y\n#undef X\nX"), "\n\nX");
}

#[test]
fn define_function_then_call() {
    assert_eq!(run("#define ADD(a,b) a+b\nADD(1,2)"), "\n1+2");
}

#[test]
fn ifdef_takes_body_when_defined() {
    assert_eq!(run("#define A\n#ifdef A\nyes\n#else\nno\n#endif\n"), "\n\nyes\n\n");
}

#[test]
fn ifdef_takes_else_when_not_defined() {
    assert_eq!(run("#ifdef A\nyes\n#else\nno\n#endif\n"), "\nno\n\n");
}

#[test]
fn ifndef_takes_body_when_not_defined() {
    assert_eq!(run("#ifndef A\nyes\n#endif\n"), "\nyes\n\n");
}

#[test]
fn if_true_takes_body() {
    assert_eq!(run("#if 1\nA\n#endif\n"), "\nA\n\n");
}

#[test]
fn if_false_takes_else() {
    assert_eq!(run("#if 0\nA\n#else\nB\n#endif\n"), "\nB\n\n");
}

#[test]
fn if_with_arithmetic() {
    assert_eq!(run("#if (2 + 3) * 2 == 10\nA\n#else\nB\n#endif\n"), "\nA\n\n");
}

#[test]
fn if_defined_operator() {
    assert_eq!(run("#define M\n#if defined(M)\nA\n#else\nB\n#endif\n"), "\n\nA\n\n");
    assert_eq!(run("#if defined M\nA\n#else\nB\n#endif\n"), "\nB\n\n");
}

#[test]
fn elif_chain() {
    assert_eq!(run("#if 0\nA\n#elif 1\nB\n#else\nC\n#endif\n"), "\nB\n\n");
}

#[test]
fn self_reference_is_not_expanded_again() {
    assert_eq!(run("#define X X\nX"), "\nX");
}

#[test]
fn stringify_and_glue() {
    assert_eq!(run("#define S(a) #a\nS(hello)"), "\n\"hello\"");
    assert_eq!(run("#define G(a,b) a##b\nG(x,y)"), "\nxy");
}

#[test]
fn error_directive_is_an_error() {
    assert!(preprocess_str("#error stop\n", &[]).is_err());
}

#[test]
fn wrong_argument_count_is_an_error() {
    assert!(preprocess_str("#define F(a,b) a\nF(1)", &[]).is_err());
}

#[test]
fn unterminated_call_is_an_error() {
    assert!(preprocess_str("#define F(a) a\nF(1", &[]).is_err());
}

#[test]
fn dangling_endif_is_an_error() {
    assert!(preprocess_str("#endif\n", &[]).is_err());
}

#[test]
fn unterminated_if_is_an_error() {
    assert!(preprocess_str("#if 1\nA\n", &[]).is_err());
}

#[test]
fn process_macro_lexes_its_text() {
    match process_macro("a + 1").unwrap() {
        MacroDefinition::Object(tokens) => assert_eq!(tokens.len(), 5),
        _ => panic!("expected an object-like macro"),
    }
}

#[test]
fn process_complex_macro_keeps_parameters() {
    match process_complex_macro(&["x", "y"], "x").unwrap() {
        MacroDefinition::Function { parameter_list, replacement_list } => {
            assert_eq!(parameter_list.parameters, vec!["x".to_string(), "y".to_string()]);
            assert!(!parameter_list.variadic);
            assert_eq!(replacement_list.len(), 1);
        }
        _ => panic!("expected a function-like macro"),
    }
}

#[test]
fn glue_runs_across_several_operands() {
    assert_eq!(run("#define CAT(a,b,c) a##b##c\nCAT(1,2,3)"), "\n123");
}

#[test]
fn caller_macro_replaces_each_use_without_its_whitespace() {
    let out = preprocess_str("a X b X", &[("X".to_string(), MacroD::Simple("1 + 2"))]).unwrap();
    assert_eq!(out, "a 1+2 b 1+2");
}

#[test]
fn later_caller_macro_of_a_name_wins() {
    let out = preprocess_str(
        "X",
        &[("X".to_string(), MacroD::Simple("first")), ("X".to_string(), MacroD::Simple("second"))],
    )
    .unwrap();
    assert_eq!(out, "second");
}

#[test]
fn hash_in_object_macro_makes_a_string() {
    let out = preprocess_str("S", &[("S".to_string(), MacroD::Simple("x # hi"))]).unwrap();
    assert_eq!(out, "x\"hi\"");
    let line = preprocess_str("S", &[("S".to_string(), MacroD::Simple("# hi"))]).unwrap();
    assert_eq!(line, "# hi");
}

#[test]
fn if_condition_sees_object_macros() {
    assert_eq!(run("#define V 3\n#if V > 2\nA\n#else\nB\n#endif\n"), "\n\nA\n\n");
    assert_eq!(run("#define V 1\n#if V > 2\nA\n#else\nB\n#endif\n"), "\n\nB\n\n");
}

#[test]
fn if_condition_with_an_unknown_name_reads_it_as_zero() {
    assert_eq!(run("#if UNKNOWN\nA\n#else\nB\n#endif\n"), "\nB\n\n");
}

#[test]
fn caller_macros_expand_inside_each_other() {
    let out = preprocess_str(
        "a X b",
        &[("X".to_string(), MacroD::Simple("Y + Y")), ("Y".to_string(), MacroD::Simple("1"))],
    )
    .unwrap();
    assert_eq!(out, "a 1+1 b");
}

#[test]
fn if_condition_sees_nested_object_macros() {
    assert_eq!(run("#define W 3\n#define V W\n#if V > 2\nA\n#else\nB\n#endif\n"), "\n\n\nA\n\n");
}

#[test]
fn if_condition_mixes_defined_and_macros() {
    assert_eq!(run("#define V 3\n#if defined(V) && V > 2\nA\n#else\nB\n#endif\n"), "\n\nA\n\n");
    assert_eq!(run("#define V 3\n#if defined W || V < 2\nA\n#else\nB\n#endif\n"), "\n\nB\n\n");
}

#[test]
fn wrong_argument_count_names_both_counts() {
    let e = preprocess_str("#define F(a,b) a\nF(1)", &[]).unwrap_err();
    assert_eq!(e.labels.len(), 1);
    assert_eq!(e.labels[0].message, "Expected 2 parameters, found 1");
    let e = preprocess_str("#define F(a) a\nF(1,2,3)", &[]).unwrap_err();
    assert_eq!(e.labels[0].message, "Expected 1 parameters, found 3");
}

#[test]
fn bad_parameter_lists_say_what_is_wrong() {
    let e = preprocess_str("#define F(a,,b) a\n", &[]).unwrap_err();
    assert_eq!(e.labels[0].message, "empty parameter?");
    let e = preprocess_str("#define F(...,a) a\n", &[]).unwrap_err();
    assert_eq!(e.labels[0].message, "Variadic arguments must be the final argument.");
}

#[test]
fn error_directive_reports_its_message() {
    let e = preprocess_str("#error stop\n", &[]).unwrap_err();
    assert_eq!(e.title, "Encountered error directive");
    assert_eq!(e.labels.len(), 2);
    assert_eq!(e.labels[1].message, "Error message provided");
}

#[test]
fn unknown_directive_is_reported() {
    let e = preprocess_str("#frobnicate x\n", &[]).unwrap_err();
    assert_eq!(e.title, "Unknown directive");
}

#[test]
fn unclosed_parenthesis_is_an_unmatched_delimiter() {
    let e = preprocess_str("#define F(a) a\nF((1)", &[]).unwrap_err();
    assert_eq!(e.title, "Unmatched delimiter");
}

#[test]
fn if_condition_with_a_function_like_macro() {
    assert_eq!(run("#define F(x) x\n#if F(1)\nA\n#else\nB\n#endif\n"), "\n\nA\n\n");
    assert_eq!(run("#define F(x) x\n#if F(0)\nA\n#else\nB\n#endif\n"), "\n\nB\n\n");
}

#[test]
fn directives_take_effect_for_later_text() {
    assert_eq!(run("#define X 1\nX"), "\n1");
    assert_eq!(run("#define X 1\n#undef X\nX"), "\n\nX");
}

#[test]
fn function_macro_from_the_caller_is_applied() {
    let out = preprocess_str("f(x)", &[("f".to_string(), MacroD::Complex(vec!["a"], "a+1"))]).unwrap();
    assert_eq!(out, "x+1");
    let out = preprocess_str("f + 1", &[("f".to_string(), MacroD::Complex(vec!["a"], "a+1"))]).unwrap();
    assert_eq!(out, "f + 1");
}
