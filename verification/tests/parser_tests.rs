use quasar::alum::grammar::ParseError;
use quasar::alum::lexer::lex;
use quasar::alum::parser::Parser;

const PROGRAM: &str = r#"
let test = 50.05;

fun ree() {
    fun reee(x) {
        return test + x;
    }

    return reee(20);
}

global y = ree();
"#;

fn parse_text(text: &str) -> Result<String, ParseError> {
    let mut p = Parser::new(lex(text));
    p.try_parse().map(|v| format!("{:?}", v))
}

fn err(text: &str) -> ParseError {
    match parse_text(text) {
        Ok(v) => panic!("parsed: {}", v),
        Err(e) => e,
    }
}

#[test]
fn parses_the_sample_program() {
    let got = parse_text(PROGRAM).unwrap();
    let want = [
        "[Let(\"test\", Number(\"50.05\"), Binding { name: \"test\", depth: Some(0), function_depth: 0 }), ",
        "Fun(\"ree\", [], [",
        "Fun(\"reee\", [\"x\"], [",
        "Return(Some(Var(\"test\", Binding { name: \"test\", depth: Some(2), function_depth: 0 }))), ",
        "Expression(Var(\"x\", Binding { name: \"x\", depth: Some(2), function_depth: 2 }))",
        "], Binding { name: \"reee\", depth: Some(1), function_depth: 1 }), ",
        "Return(Some(Call(Var(\"reee\", Binding { name: \"reee\", depth: Some(1), function_depth: 1 }), [Number(\"20\")])))",
        "], Binding { name: \"ree\", depth: Some(0), function_depth: 0 }), ",
        "Global(\"y\", Call(Var(\"ree\", Binding { name: \"ree\", depth: Some(0), function_depth: 0 }), []))]",
    ]
    .concat();
    assert_eq!(got, want);
}

#[test]
fn parse_returns_all_statements_so_far() {
    let mut p = Parser::new(lex("let a = 1;"));
    let first = p.parse();
    assert_eq!(first.len(), 1);
    let again = p.parse();
    assert_eq!(format!("{:?}", again), format!("{:?}", first));
}

#[test]
fn operators_fold_by_precedence() {
    assert_eq!(
        parse_text("1 + 2 * 3;").unwrap(),
        "[Expression(Binary(Number(\"1\"), Add, Binary(Number(\"2\"), Mul, Number(\"3\"))))]"
    );
    assert_eq!(
        parse_text("1 * 2 + 3;").unwrap(),
        "[Expression(Binary(Binary(Number(\"1\"), Mul, Number(\"2\")), Add, Number(\"3\")))]"
    );
    assert_eq!(
        parse_text("1 - 2 - 3;").unwrap(),
        "[Expression(Binary(Binary(Number(\"1\"), Sub, Number(\"2\")), Sub, Number(\"3\")))]"
    );
    assert_eq!(
        parse_text("(1 + 2) * 3;").unwrap(),
        "[Expression(Binary(Binary(Number(\"1\"), Add, Number(\"2\")), Mul, Number(\"3\")))]"
    );
    assert_eq!(
        parse_text("1 - 2 * 3 + 4;").unwrap(),
        "[Expression(Binary(Number(\"1\"), Sub, Binary(Binary(Number(\"2\"), Mul, Number(\"3\")), Add, Number(\"4\"))))]"
    );
}

#[test]
fn statements_keep_depths_and_bind_names() {
    let mut p = Parser::new(lex("fun f(a) { let b = a; } f;"));
    let got = format!("{:?}", p.try_parse().unwrap());
    assert!(got.ends_with("Expression(Var(\"f\", Binding { name: \"f\", depth: Some(0), function_depth: 0 }))]"));
}

#[test]
fn a_variable_operand_passes_over_the_next_token() {
    assert_eq!(
        parse_text("let a = 1; let b = a + 1;").unwrap(),
        [
            "[Let(\"a\", Number(\"1\"), Binding { name: \"a\", depth: Some(0), function_depth: 0 }), ",
            "Let(\"b\", Var(\"a\", Binding { name: \"a\", depth: Some(0), function_depth: 0 }), ",
            "Binding { name: \"b\", depth: Some(0), function_depth: 0 }), ",
            "Expression(Number(\"1\"))]",
        ]
        .concat()
    );
}

#[test]
fn parses_dictionaries_and_returns() {
    assert_eq!(
        parse_text("{1: 2, 3: 4};").unwrap(),
        "[Expression(Dict([Number(\"1\"), Number(\"3\")], [Number(\"2\"), Number(\"4\")]))]"
    );
    assert_eq!(parse_text("return;").unwrap(), "[Return(None)]");
    assert_eq!(parse_text("global g = 1;").unwrap(), "[Global(\"g\", Number(\"1\"))]");
}

#[test]
fn empty_input_parses_to_nothing() {
    assert_eq!(parse_text("").unwrap(), "[]");
    assert_eq!(parse_text(";;").unwrap(), "[]");
}

#[test]
fn parse_errors() {
    assert_eq!(err("let"), ParseError::UnexpectedEnd);
    assert_eq!(err("let = 1;"), ParseError::ExpectedName);
    assert_eq!(err("let x 1;"), ParseError::ExpectedAssign);
    assert_eq!(err("fun f {}"), ParseError::ExpectedParamsParen);
    assert_eq!(err("fun f(a b) {}"), ParseError::ExpectedParamComma);
    assert_eq!(err("fun f() x"), ParseError::ExpectedBody);
    assert_eq!(err("let x = ;"), ParseError::ExpectedExpression);
    assert_eq!(err("1.2.3;"), ParseError::InvalidNumber);
    assert_eq!(err("y;"), ParseError::UnknownVariable);
    assert_eq!(err("let f = 1; f(1 2);"), ParseError::ExpectedArgComma);
    assert_eq!(err("(1;"), ParseError::ExpectedCloseParen);
    assert_eq!(err("{1 2};"), ParseError::ExpectedColon);
    assert_eq!(err("{1: 2 3};"), ParseError::ExpectedEntryComma);
    assert_eq!(err("1 * 2 +"), ParseError::EndInOperation);
    assert_eq!(err("1 + 2 * 3"), ParseError::UnexpectedEnd);
}

#[test]
fn a_token_that_starts_no_expression_is_passed_over() {
    let mut p = Parser::new(lex(") ;"));
    assert_eq!(p.parse_expression().unwrap_err(), ParseError::ExpectedExpression);
    assert!(p.parse_statement().unwrap().is_none());
}

#[test]
fn statement_and_body_steps_can_be_called() {
    let mut p = Parser::new(lex("{ let a = 1; a; }"));
    let body = p.parse_body().unwrap();
    assert_eq!(body.len(), 2);
    let mut q = Parser::new(lex("let a = 1;"));
    assert!(q.parse_statement().unwrap().is_some());
}
