use lamplang::ast::{Expr, Stmt, TypedArgument};
use lamplang::codegen::CCodeGenerator;
use lamplang::error::TranslateError;
use lamplang::value::{Value, ValueType};
use lamplang::{generate_c_code, lex, parse_tokens, translate};

const OPEN: &str = "{area_start();";
const CLOSE: &str = "area_end();}";

/// Counts scope markers through the output and demands that no prefix
/// closes more scopes than it has opened, and that the whole balances.
fn assert_well_nested(output: &str) -> usize {
    let bytes = output.as_bytes();
    let mut opens: usize = 0;
    let mut closes: usize = 0;
    for i in 0..bytes.len() {
        let rest = &output[i..];
        if rest.starts_with(OPEN) {
            opens += 1;
        }
        if rest.starts_with(CLOSE) {
            closes += 1;
            assert!(closes <= opens, "a scope closed before it was opened at byte {}", i);
        }
    }
    assert_eq!(opens, closes, "scope markers must balance");
    opens
}

#[test]
fn entry_point_wraps_the_body_in_one_scope() {
    let output = translate("var a: number = 2").unwrap();
    assert_eq!(
        output,
        "#include \"area.h\"\nvoid main() {area_start();double a = 2;area_end();}"
    );
    assert_eq!(assert_well_nested(&output), 1);
}

#[test]
fn nested_control_flow_keeps_scopes_well_nested() {
    let output = translate(
        "func f(a: number): number { if a > 1 { return 1 } else { return 2 } }\nwhile 1 < 2 { if 1 == 1 x = 2 }",
    )
    .unwrap();
    // function body, if, else, while body, nested if, and the entry point
    assert_eq!(assert_well_nested(&output), 6);
}

#[test]
fn if_without_else_nests_correctly() {
    let output = translate("if a > 1 { x = 1 }").unwrap();
    assert_eq!(
        output,
        "#include \"area.h\"\nvoid main() {area_start();if (a>1) {area_start();x = 1;area_end();}area_end();}"
    );
    assert_well_nested(&output);
}

#[test]
fn struct_declaration_becomes_a_typedef_outside_the_entry_point() {
    let output = translate("struct Point { x: number, y: number }").unwrap();
    assert_eq!(
        output,
        "#include \"area.h\"\ntypedef struct {double x; double y; } Point;void main() {area_start();area_end();}"
    );
    // the typedef stands before the entry point, never inside its body
    let main_at = output.find("void main()").unwrap();
    assert!(output.find("typedef struct").unwrap() < main_at);
    assert!(!output[main_at..].contains("typedef"));
}

#[test]
fn use_declaration_becomes_an_include_line() {
    let output = translate("use io").unwrap();
    assert_eq!(
        output,
        "#include \"area.h\"\n#include \"io.h\"\nvoid main() {area_start();area_end();}"
    );
}

#[test]
fn function_definition_maps_parameters_and_return_type() {
    let output = translate("func add(a: number, b: number): number { return a + b }").unwrap();
    assert_eq!(
        output,
        "#include \"area.h\"\ndouble add (double a,double b) {area_start();return a+b;area_end();}void main() {area_start();area_end();}"
    );
}

#[test]
fn type_mapping_covers_all_three_declared_types() {
    let output = translate(
        "func f(s: string, n: number): unit { return 0 }",
    )
    .unwrap();
    assert!(output.contains("void f (char* s,double n)"));
}

#[test]
fn string_literal_lowers_to_an_owned_copy_in_the_open_region() {
    let output = translate("var name: string = \"something\"").unwrap();
    assert_eq!(
        output,
        "#include \"area.h\"\nvoid main() {area_start();char* name = area_memdup(\"something\", 10);area_end();}"
    );
}

#[test]
fn calls_render_with_comma_joined_arguments() {
    let output = translate("print(\"{s}\", name, 3)").unwrap();
    assert!(output.contains("print(area_memdup(\"{s}\", 4), name, 3);"));
}

#[test]
fn relational_operators_translate_with_their_spelling() {
    let output = translate("if a >= b { x = 1 }").unwrap();
    assert!(output.contains("if (a>=b) "));
    let output = translate("while a <= b { x = 1 }").unwrap();
    assert!(output.contains("while (a<=b) "));
}

#[test]
fn unary_minus_renders_as_negation_of_its_operand() {
    let output = translate("x = -y").unwrap();
    assert!(output.contains("x = -(y);"));
}

#[test]
fn generation_of_a_hand_built_tree_matches_its_contracted_text() {
    // the generator's contract holds for trees built directly, too
    let tree = Stmt::Block(vec![
        Stmt::VarDef(
            "a".to_string(),
            Box::new(Expr::Value(Value::Number(7))),
            ValueType::Number,
        ),
        Stmt::Return(Box::new(Expr::VarUse("a".to_string()))),
    ]);
    let output = generate_c_code(tree).unwrap();
    assert_eq!(
        output,
        "#include \"area.h\"\nvoid main() {area_start();double a = 7;return a;area_end();}"
    );
}

#[test]
fn constructor_reached_through_any_path_fails_generation() {
    // inside a function body
    let in_func = translate("func f(): unit { var p: number = new P() }");
    assert!(matches!(in_func, Err(TranslateError::UnsupportedFeature)));
    // inside a call argument
    let in_call = translate("print(new P())");
    assert!(matches!(in_call, Err(TranslateError::UnsupportedFeature)));
    // and nothing partial is emitted: the result is the error alone
    let direct = generate_c_code(Stmt::Block(vec![Stmt::Function(Box::new(Expr::New(
        "P".to_string(),
        vec![TypedArgument { name: "x".to_string(), typ: ValueType::Number }],
    )))]));
    assert!(matches!(direct, Err(TranslateError::UnsupportedFeature)));
}

#[test]
fn generator_object_reports_its_input_back() {
    let root = parse_tokens(&lex("x = 1").unwrap()).unwrap();
    let mut generator = CCodeGenerator::new(root);
    let output = generator.generate().unwrap();
    assert!(output.contains("x = 1;"));
}

#[test]
fn function_with_no_parameters_and_empty_body_still_opens_a_scope() {
    let output = lamplang::translate("func f(): unit { }").unwrap();
    assert_eq!(
        output,
        "#include \"area.h\"\nvoid f () {area_start();area_end();}void main() {area_start();area_end();}"
    );
    assert_well_nested(&output);
}

#[test]
fn struct_with_no_fields_renders_the_lone_separator() {
    let output = lamplang::translate("struct Empty { }").unwrap();
    assert_eq!(
        output,
        "#include \"area.h\"\ntypedef struct {; } Empty;void main() {area_start();area_end();}"
    );
}

#[test]
fn number_values_render_as_decimal_text() {
    assert_eq!(Value::Number(0).to_string(), "0");
    assert_eq!(Value::Number(42).to_string(), "42");
    assert_eq!(Value::Number(2147483647).to_string(), "2147483647");
}

#[test]
fn string_values_render_as_region_duplications() {
    assert_eq!(Value::String("hi".to_string()).to_string(), "area_memdup(\"hi\", 3)");
    assert_eq!(Value::String(String::new()).to_string(), "area_memdup(\"\", 1)");
}

#[test]
fn string_length_counts_bytes_not_characters() {
    // a two-byte character: the duplicated length is its UTF-8 size plus one
    let two_byte = "\u{e9}".to_string();
    assert_eq!(Value::String(two_byte).to_string(), "area_memdup(\"\u{e9}\", 3)");
}

#[test]
fn number_values_hand_their_payload_back() {
    assert_eq!(Value::Number(5).to_number(), 5);
}

#[test]
fn unsupported_feature_error_carries_a_readable_message() {
    let err = translate("print(new P())").unwrap_err();
    assert!(!err.message().is_empty());
}
