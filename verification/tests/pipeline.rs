use lamplang::error::TranslateError;
use lamplang::translate;

#[test]
fn test_input_and_variables() {
    let input = "\n
        use io
        var a: number = 2\n
        var b: number = a + 4\n
        var name: string = \"something\"\n
        print(\"{s}\", name)\n
        "
        .to_string();
    let c_code = translate(input.as_ref()).unwrap();
    println!("{}", c_code);
}

#[test]
fn empty_input_translates_to_bare_entry_point() {
    let c_code = translate("").unwrap();
    assert_eq!(c_code, "#include \"area.h\"\nvoid main() {area_start();area_end();}");
}

#[test]
fn two_variable_definitions_translate_exactly() {
    let c_code = translate("var a: number = 2\nvar b: number = a + 4").unwrap();
    assert_eq!(
        c_code,
        "#include \"area.h\"\nvoid main() {area_start();double a = 2;double b = a+4;area_end();}"
    );
}

#[test]
fn constructor_expression_fails_generation_with_distinct_signal() {
    let result = translate("var p: number = new Point()");
    assert!(matches!(result, Err(TranslateError::UnsupportedFeature)));
}
