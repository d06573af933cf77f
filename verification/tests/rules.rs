use gettext::{compile_rule, eval, Error};

#[test]
fn rule_precedence_and_associativity() {
    let ast = compile_rule("2 + 3 * 4").unwrap();
    assert_eq!(eval(&ast, 0), 14);
    let ast = compile_rule("10 - 3 - 4").unwrap();
    assert_eq!(eval(&ast, 0), 3);
    let ast = compile_rule("n == 1").unwrap();
    assert_eq!(eval(&ast, 1), 1);
    assert_eq!(eval(&ast, 7), 0);
    // the ternary is right-associative
    let ast = compile_rule("n == 1 ? 0 : n == 2 ? 1 : 2").unwrap();
    assert_eq!(eval(&ast, 1), 0);
    assert_eq!(eval(&ast, 2), 1);
    assert_eq!(eval(&ast, 9), 2);
}

#[test]
fn three_form_rule_text() {
    let ast = compile_rule("(n==1 ? 0 : (n==0 || (n%100 > 0 && n%100 < 20)) ? 2 : 1)").unwrap();
    assert_eq!(eval(&ast, 1), 0);
    assert_eq!(eval(&ast, 0), 2);
    assert_eq!(eval(&ast, 5), 2);
    assert_eq!(eval(&ast, 19), 2);
    assert_eq!(eval(&ast, 21), 1);
    assert_eq!(eval(&ast, 100), 1);
}

#[test]
fn evaluation_is_total() {
    // arithmetic wraps modulo 2^64, as C unsigned arithmetic does
    let ast = compile_rule("n - 2").unwrap();
    assert_eq!(eval(&ast, 0), u64::MAX - 1);
    // a divisor that only evaluates to zero yields zero, never a failure
    let ast = compile_rule("n / (n - n)").unwrap();
    assert_eq!(eval(&ast, 5), 0);
    // any nonzero value counts as true
    let ast = compile_rule("0 - n ? 1 : 0").unwrap();
    assert_eq!(eval(&ast, 1), 1);
    assert_eq!(eval(&ast, 0), 0);
}

#[test]
fn rule_syntax_errors() {
    assert!(matches!(compile_rule("((n"), Err(Error::SyntaxError { .. })));
    assert!(matches!(compile_rule("foo + 1"), Err(Error::SyntaxError { .. })));
    assert!(matches!(compile_rule("n +"), Err(Error::SyntaxError { .. })));
    assert!(matches!(compile_rule("1 2"), Err(Error::SyntaxError { .. })));
    assert!(matches!(
        compile_rule("99999999999999999999999999"),
        Err(Error::SyntaxError { .. })
    ));
    assert!(matches!(compile_rule(""), Err(Error::SyntaxError { .. })));
    assert!(matches!(compile_rule("n / 0"), Err(Error::DivisionByZero)));
    assert!(matches!(compile_rule("n % 0"), Err(Error::DivisionByZero)));
    // a trailing semicolon terminates the rule text
    let ast = compile_rule("n != 1;").unwrap();
    assert_eq!(eval(&ast, 1), 0);
    assert_eq!(eval(&ast, 3), 1);
}

#[test]
fn syntax_error_reports_position() {
    match compile_rule("n $ 1") {
        Err(Error::SyntaxError { position, token }) => {
            assert_eq!(position, 2);
            assert_eq!(token, "$");
        }
        _ => panic!("expected a syntax error"),
    }
}
