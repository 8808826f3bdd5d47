use lamplang::ast::{Expr, Stmt};
use lamplang::error::{ParseErrorKind, TranslateError};
use lamplang::value::{Value, ValueType};
use lamplang::{lex, parse_tokens};

fn parse(input: &str) -> Result<Stmt, TranslateError> {
    parse_tokens(&lex(input).unwrap())
}

fn root_statements(input: &str) -> Vec<Stmt> {
    match parse(input).unwrap() {
        Stmt::Block(stmts) => stmts,
        _ => panic!("the root is always a block"),
    }
}

#[test]
fn root_block_statement_count_matches_the_source() {
    let stmts = root_statements(
        "use io\nvar a: number = 2\na = a + 1\nprint(\"{n}\", a)",
    );
    assert_eq!(stmts.len(), 4);
    let one = root_statements("var a: number = 2");
    assert_eq!(one.len(), 1);
    let none = root_statements("");
    assert_eq!(none.len(), 0);
}

#[test]
fn multiplication_binds_tighter_than_addition() {
    let stmts = root_statements("x = 2 + 3 * 4");
    assert_eq!(stmts.len(), 1);
    let Stmt::Assign(name, e) = &stmts[0] else {
        panic!("expected an assignment")
    };
    assert_eq!(name, "x");
    // the tree must group as 2 + (3 * 4)
    let Expr::Binary('+', l, r) = &**e else {
        panic!("expected an additive root")
    };
    assert!(matches!(**l, Expr::Value(Value::Number(2))));
    let Expr::Binary('*', rl, rr) = &**r else {
        panic!("expected a multiplicative right operand")
    };
    assert!(matches!(**rl, Expr::Value(Value::Number(3))));
    assert!(matches!(**rr, Expr::Value(Value::Number(4))));
}

#[test]
fn binary_chains_are_left_associative() {
    let stmts = root_statements("x = 1 - 2 - 3");
    let Stmt::Assign(_, e) = &stmts[0] else {
        panic!("expected an assignment")
    };
    // (1 - 2) - 3
    let Expr::Binary('-', l, r) = &**e else {
        panic!("expected a subtraction root")
    };
    assert!(matches!(**r, Expr::Value(Value::Number(3))));
    let Expr::Binary('-', ll, lr) = &**l else {
        panic!("expected a nested subtraction")
    };
    assert!(matches!(**ll, Expr::Value(Value::Number(1))));
    assert!(matches!(**lr, Expr::Value(Value::Number(2))));
}

#[test]
fn parentheses_override_precedence() {
    let stmts = root_statements("x = (2 + 3) * 4");
    let Stmt::Assign(_, e) = &stmts[0] else {
        panic!("expected an assignment")
    };
    let Expr::Binary('*', l, _) = &**e else {
        panic!("expected a multiplicative root")
    };
    assert!(matches!(**l, Expr::Binary('+', _, _)));
}

#[test]
fn statement_forms_dispatch_on_their_leading_tokens() {
    let stmts = root_statements(
        "use io\nstruct P { x: number }\nfunc f(a: number): unit { return a }\nif 1 > 2 { x = 1 } else { x = 2 }\nwhile 1 < 2 x = 3\nprint(\"hi\")\nvar y: string = \"s\"\ny = \"t\"",
    );
    assert_eq!(stmts.len(), 8);
    assert!(matches!(&stmts[0], Stmt::Use(m) if m == "io"));
    assert!(matches!(&stmts[1], Stmt::Struct(n, fs) if n == "P" && fs.len() == 1));
    assert!(matches!(&stmts[2], Stmt::FunctionDef(n, ps, _, ValueType::Unit) if n == "f" && ps.len() == 1));
    assert!(matches!(&stmts[3], Stmt::If(_, _, els) if matches!(&**els, Some(_))));
    assert!(matches!(&stmts[4], Stmt::While(_, body) if !matches!(&**body, Stmt::Block(_))));
    assert!(matches!(&stmts[5], Stmt::Function(call) if matches!(&**call, Expr::Functional(n, args) if n == "print" && args.len() == 1)));
    assert!(matches!(&stmts[6], Stmt::VarDef(n, _, ValueType::String) if n == "y"));
    assert!(matches!(&stmts[7], Stmt::Assign(n, _) if n == "y"));
}

#[test]
fn typed_argument_lists_take_optional_commas() {
    let with_commas = root_statements("struct P { x: number, y: number, }");
    let without = root_statements("struct P { x: number y: number }");
    for stmts in [with_commas, without] {
        let Stmt::Struct(_, fields) = &stmts[0] else {
            panic!("expected a struct declaration")
        };
        assert_eq!(fields.len(), 2);
        assert_eq!(fields[0].name, "x");
        assert_eq!(fields[1].name, "y");
        assert!(matches!(fields[0].typ, ValueType::Number));
    }
}

#[test]
fn constructor_expressions_parse_without_being_lowered() {
    let stmts = root_statements("var p: number = new Point(x: number, y: number)");
    let Stmt::VarDef(_, e, _) = &stmts[0] else {
        panic!("expected a variable definition")
    };
    let Expr::New(name, args) = &**e else {
        panic!("expected a constructor expression")
    };
    assert_eq!(name, "Point");
    assert_eq!(args.len(), 2);
}

#[test]
fn unary_minus_wraps_its_operand() {
    let stmts = root_statements("x = -y");
    let Stmt::Assign(_, e) = &stmts[0] else {
        panic!("expected an assignment")
    };
    assert!(matches!(&**e, Expr::Unary('-', operand) if matches!(&**operand, Expr::VarUse(n) if n == "y")));
}

#[test]
fn condition_operators_keep_their_spelling() {
    let stmts = root_statements("x = a == b && c != d || e < f");
    let Stmt::Assign(_, e) = &stmts[0] else {
        panic!("expected an assignment")
    };
    // || is the loosest level: (a == b && c != d) || (e < f)
    let Expr::Condition(op, l, r) = &**e else {
        panic!("expected a condition root")
    };
    assert_eq!(op, "||");
    assert!(matches!(&**l, Expr::Condition(and_op, _, _) if and_op == "&&"));
    assert!(matches!(&**r, Expr::Condition(lt_op, _, _) if lt_op == "<"));
}

#[test]
fn invalid_declared_type_name_is_a_parse_error() {
    let err = parse("var x: float = 2").unwrap_err();
    assert!(matches!(err, TranslateError::Parse { kind: ParseErrorKind::InvalidTypeName, .. }));
}

#[test]
fn bare_name_without_assignment_is_a_parse_error() {
    let err = parse("x + 2").unwrap_err();
    assert!(matches!(err, TranslateError::Parse { kind: ParseErrorKind::InvalidAssignment, .. }));
}

#[test]
fn malformed_var_definition_is_a_parse_error() {
    let err = parse("var x = 2").unwrap_err();
    assert!(matches!(
        err,
        TranslateError::Parse { kind: ParseErrorKind::InvalidVarDefinition, .. }
    ));
}

#[test]
fn token_that_begins_no_primary_is_a_parse_error() {
    let err = parse("x = var").unwrap_err();
    assert!(matches!(err, TranslateError::Parse { kind: ParseErrorKind::InvalidPrimary, .. }));
}

#[test]
fn unclosed_parenthesis_reports_expected_versus_found() {
    let err = parse("x = (2 + 3").unwrap_err();
    let TranslateError::Parse { kind: ParseErrorKind::UnexpectedToken { expected, found }, .. } =
        err
    else {
        panic!("expected an expected-versus-found diagnostic")
    };
    assert_eq!(expected, lamplang::lexer::TokenType::RightParen);
    assert_eq!(found, lamplang::lexer::TokenType::Eof);
}

#[test]
fn parse_errors_carry_the_offending_span() {
    let err = parse("var x: float = 2").unwrap_err();
    let TranslateError::Parse { start, end, .. } = err else {
        panic!("expected a parse error")
    };
    // the span points at the `: float` declaration, inside the source
    assert!(start <= end);
    assert!(end <= "var x: float = 2".len());
}
