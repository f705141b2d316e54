use uncap::solver::math::{compute, evaluate, finish, MathError};

#[test]
fn test_evaluate() {
    assert_eq!(evaluate("3 + 7").unwrap(), "10");
    assert_eq!(evaluate("12 - 4").unwrap(), "8");
    assert_eq!(evaluate("5 * 3").unwrap(), "15");
    assert_eq!(evaluate("10 / 2").unwrap(), "5");
    assert_eq!(evaluate("3 + 7 = ?").unwrap(), "10");
    assert_eq!(evaluate("6x4").unwrap(), "24");
}

#[test]
fn evaluate_multiplication_sign_variants() {
    assert_eq!(evaluate("6 x 4").unwrap(), "24");
    assert_eq!(evaluate("6 × 4").unwrap(), "24");
    assert_eq!(evaluate("6×4").unwrap(), "24");
    assert_eq!(evaluate("7*3").unwrap(), "21");
}

#[test]
fn evaluate_negative_and_signed_operands() {
    assert_eq!(evaluate("3 - 10").unwrap(), "-7");
    assert_eq!(evaluate("-3 * 4").unwrap(), "-12");
    assert_eq!(evaluate("+5 + 1").unwrap(), "6");
    assert_eq!(evaluate("-7 / 2").unwrap(), "-3");
    assert_eq!(evaluate("7 / -2").unwrap(), "-3");
}

#[test]
fn evaluate_ignores_equals_and_question_suffix() {
    assert_eq!(evaluate("12 - 4 = ?").unwrap(), evaluate("12 - 4").unwrap());
    assert_eq!(evaluate("6x4=?").unwrap(), "24");
    assert_eq!(evaluate("  9 / 3 =  ?  ").unwrap(), "3");
}

#[test]
fn evaluate_uses_first_three_words() {
    assert_eq!(evaluate("2 + 3 + 4").unwrap(), "5");
}

#[test]
fn evaluate_errors() {
    assert_eq!(evaluate("hello"), Err(MathError::CannotParse("hello".to_string())));
    assert_eq!(evaluate(""), Err(MathError::CannotParse(String::new())));
    assert_eq!(evaluate("a + 3"), Err(MathError::LeftOperand));
    assert_eq!(evaluate("3 + b"), Err(MathError::RightOperand));
    assert_eq!(evaluate("3 % 4"), Err(MathError::UnknownOperator("%".to_string())));
    assert_eq!(evaluate("8 / 0"), Err(MathError::DivisionByZero));
    assert_eq!(evaluate("9223372036854775807 + 1"), Err(MathError::Overflow));
    assert_eq!(evaluate("99999999999999999999 + 1"), Err(MathError::LeftOperand));
}

#[test]
fn evaluate_extreme_values() {
    assert_eq!(evaluate("-9223372036854775808 + 0").unwrap(), "-9223372036854775808");
    assert_eq!(evaluate("-9223372036854775808 / -1"), Err(MathError::Overflow));
    assert_eq!(evaluate("9223372036854775807 * 1").unwrap(), "9223372036854775807");
}

#[test]
fn compute_operations() {
    assert_eq!(compute(3, "+", 7), Ok(10));
    assert_eq!(compute(3, "-", 7), Ok(-4));
    assert_eq!(compute(3, "*", 7), Ok(21));
    assert_eq!(compute(3, "x", 7), Ok(21));
    assert_eq!(compute(3, "×", 7), Ok(21));
    assert_eq!(compute(7, "/", 2), Ok(3));
    assert_eq!(compute(-7, "/", 2), Ok(-3));
    assert_eq!(compute(7, "/", 0), Err(MathError::DivisionByZero));
    assert_eq!(compute(7, "^", 2), Err(MathError::UnknownOperator("^".to_string())));
    assert_eq!(compute(7, "++", 2), Err(MathError::UnknownOperator("++".to_string())));
    assert_eq!(compute(i64::MAX, "*", 2), Err(MathError::Overflow));
    assert_eq!(compute(i64::MIN, "-", 1), Err(MathError::Overflow));
}

#[test]
fn finish_trims_ocr_output() {
    assert_eq!(finish("  3 + 7 = ?\n").unwrap(), "10");
    assert_eq!(finish("\n"), Err(MathError::CannotParse(String::new())));
}

#[test]
fn error_messages() {
    assert_eq!(evaluate("abc").unwrap_err().message(), "cannot parse math expression: \"abc\"");
    assert_eq!(compute(5, "/", 0).unwrap_err().message(), "division by zero");
    assert_eq!(compute(5, " +", 1).unwrap_err().message(), "unknown operator: \" +\"");
    assert_eq!(compute(5, "%", 1).unwrap_err().message(), "unknown operator: \"%\"");
    assert_eq!(evaluate("a + 3").unwrap_err().message(), "parse left operand");
    assert_eq!(evaluate("3 + b").unwrap_err().message(), "parse right operand");
    assert_eq!(evaluate("say \"hi\"\t").unwrap_err().message(), "cannot parse math expression: \"say \\\"hi\\\"\"");
}

#[test]
fn fallback_operand_out_of_range() {
    let e = evaluate("99999999999999999999+1").unwrap_err();
    assert_eq!(e, MathError::BadNumber("number too large to fit in target type".to_string()));
    assert_eq!(e.message(), "number too large to fit in target type");
}
