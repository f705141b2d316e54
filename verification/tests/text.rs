use uncap::solver::text::finish;
use uncap::solver::{finish as finish_reply, SolveError, SolverKind};
use uncap::solver::math::MathError;

#[test]
fn text_answer_is_trimmed_ocr_output() {
    assert_eq!(finish("  aB3x9\n"), "aB3x9");
    assert_eq!(finish("\n"), "");
}

#[test]
fn finish_dispatches_by_kind() {
    assert_eq!(finish_reply(SolverKind::Text, " k9 \n").unwrap(), "k9");
    assert_eq!(finish_reply(SolverKind::Math, "3 + 7 = ?\n").unwrap(), "10");
    assert_eq!(finish_reply(SolverKind::Audio, " A 1 ").unwrap(), "A1");
    assert_eq!(finish_reply(SolverKind::Math, "8 / 0"), Err(SolveError::Math(MathError::DivisionByZero)));
    assert_eq!(finish_reply(SolverKind::Math, "8 / 0").unwrap_err().message(), "division by zero");
    assert_eq!(
        finish_reply(SolverKind::Math, "what?").unwrap_err().message(),
        "cannot parse math expression: \"what\""
    );
}
