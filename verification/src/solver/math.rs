//! Math-expression captchas ("3 + 7 = ?"): the expression read from the image is
//! evaluated and the answer returned as decimal text.
use vstd::prelude::*;
use vstd::string::StringExecFns;

use crate::solver::{is_ocr_outcome, ocr_step, SolveError, SolveStep, MATH_WHITELIST};
use crate::regex_search::{regex_captures, regex_first_captures};
use crate::strings::{
    debug_quoted, i64_parse_error, parse_i64_error_text, str_debug, is_white_space, lemma_decimal_parses_back, lemma_replace_append, lemma_trim_append_ws, chars_of, i64_to_decimal, int_decimal, parse_i64, replace, replace_char, spec_parse_i64,
    spec_trim, split_whitespace, split_ws, string_of, trim,
};

verus! {

broadcast use vstd::string::to_string_from_display_ensures_for_str;

/// Why a math expression could not be evaluated.
#[derive(Debug, Clone, PartialEq, Eq)]
pub enum MathError {
    /// Neither three words nor a `digits operator digits` pattern was found in
    /// the expression (held as it was searched: `=` and `?` blanked, trimmed).
    CannotParse(String),
    /// The first of three words is not an `i64`.
    LeftOperand,
    /// The third of three words is not an `i64`.
    RightOperand,
    /// An operand found by the fallback pattern is not an `i64`; holds std's
    /// message for it.
    BadNumber(String),
    /// The operator (held here) is none of `+ - * x × /`.
    UnknownOperator(String),
    /// Division with a zero divisor.
    DivisionByZero,
    /// The exact result does not fit in an `i64`.
    Overflow,
    /// The fallback pattern did not compile.
    InvalidPattern,
}

/// A `MathError` with its texts as character sequences.
pub enum MathFailure {
    CannotParse(Seq<char>),
    LeftOperand,
    RightOperand,
    BadNumber(Seq<char>),
    UnknownOperator(Seq<char>),
    DivisionByZero,
    Overflow,
    InvalidPattern,
}

impl View for MathError {
    type V = MathFailure;

    open spec fn view(&self) -> MathFailure {
        match self {
            MathError::CannotParse(e) => MathFailure::CannotParse(e@),
            MathError::LeftOperand => MathFailure::LeftOperand,
            MathError::RightOperand => MathFailure::RightOperand,
            MathError::BadNumber(n) => MathFailure::BadNumber(n@),
            MathError::UnknownOperator(op) => MathFailure::UnknownOperator(op@),
            MathError::DivisionByZero => MathFailure::DivisionByZero,
            MathError::Overflow => MathFailure::Overflow,
            MathError::InvalidPattern => MathFailure::InvalidPattern,
        }
    }
}

/// The message for a failure: "cannot parse math expression: " and the quoted
/// expression; "parse left operand" / "parse right operand"; the held message
/// of std for a fallback operand that is not an `i64`; "unknown operator: " and the quoted
/// operator; "division by zero"; and texts of this library for the rest.
pub open spec fn math_message(f: MathFailure) -> Seq<char> {
    match f {
        MathFailure::CannotParse(e) => "cannot parse math expression: "@ + str_debug(e),
        MathFailure::LeftOperand => "parse left operand"@,
        MathFailure::RightOperand => "parse right operand"@,
        MathFailure::BadNumber(t) => t,
        MathFailure::UnknownOperator(op) => "unknown operator: "@ + str_debug(op),
        MathFailure::DivisionByZero => "division by zero"@,
        MathFailure::Overflow => "result does not fit in a 64-bit integer"@,
        MathFailure::InvalidPattern => "invalid math expression pattern"@,
    }
}

impl MathError {
    /// The error's message (see `math_message`).
    pub fn message(&self) -> (m: String)
        ensures
            m@ == math_message(self@),
    {
        match self {
            MathError::CannotParse(e) => {
                let q = debug_quoted(e.as_str());
                String::from_str("cannot parse math expression: ").concat(q.as_str())
            },
            MathError::LeftOperand => String::from_str("parse left operand"),
            MathError::RightOperand => String::from_str("parse right operand"),
            MathError::BadNumber(t) => t.clone(),
            MathError::UnknownOperator(op) => {
                let q = debug_quoted(op.as_str());
                String::from_str("unknown operator: ").concat(q.as_str())
            },
            MathError::DivisionByZero => String::from_str("division by zero"),
            MathError::Overflow => String::from_str("result does not fit in a 64-bit integer"),
            MathError::InvalidPattern => String::from_str("invalid math expression pattern"),
        }
    }
}

/// The result of a computation with its error as a `MathFailure`.
pub open spec fn math_view(r: Result<i64, MathError>) -> Result<i64, MathFailure> {
    match r {
        Ok(v) => Ok(v),
        Err(e) => Err(e@),
    }
}

/// The arithmetic operations a captcha may ask for.
#[derive(Debug, Clone, Copy, PartialEq, Eq, Structural)]
pub enum MathOp {
    Add,
    Sub,
    Mul,
    Div,
}

/// Operator text: `+`, `-`, `*` (also `x` and `×`), `/`.
pub open spec fn spec_op(op: Seq<char>) -> Option<MathOp> {
    if op == seq!['+'] {
        Some(MathOp::Add)
    } else if op == seq!['-'] {
        Some(MathOp::Sub)
    } else if op == seq!['*'] || op == seq!['x'] || op == seq!['×'] {
        Some(MathOp::Mul)
    } else if op == seq!['/'] {
        Some(MathOp::Div)
    } else {
        None
    }
}

/// Integer division rounding toward zero, as Rust's `/` on integers.
pub open spec fn trunc_div(a: int, b: int) -> int {
    if a == 0 {
        0
    } else if a > 0 && b > 0 {
        a / b
    } else if a < 0 && b < 0 {
        (-a) / (-b)
    } else if a < 0 {
        -((-a) / b)
    } else {
        -(a / (-b))
    }
}

/// Exact value of `a op b`, before any range check.
pub open spec fn spec_apply(a: int, op: MathOp, b: int) -> int {
    match op {
        MathOp::Add => a + b,
        MathOp::Sub => a - b,
        MathOp::Mul => a * b,
        MathOp::Div => trunc_div(a, b),
    }
}

/// What `compute` answers for `a op b`.
pub open spec fn spec_compute(a: i64, op: Seq<char>, b: i64) -> Result<i64, MathFailure> {
    match spec_op(op) {
        None => Err(MathFailure::UnknownOperator(op)),
        Some(o) => if o == MathOp::Div && b == 0 {
            Err(MathFailure::DivisionByZero)
        } else {
            let v = spec_apply(a as int, o, b as int);
            if i64::MIN <= v <= i64::MAX {
                Ok(v as i64)
            } else {
                Err(MathFailure::Overflow)
            }
        },
    }
}

fn op_of(op: &[char]) -> (r: Option<MathOp>)
    ensures
        r == spec_op(op@),
{
    if op.len() != 1 {
        proof {
            assert(op@ != seq!['+']);
            assert(op@ != seq!['-']);
            assert(op@ != seq!['*']);
            assert(op@ != seq!['x']);
            assert(op@ != seq!['×']);
            assert(op@ != seq!['/']);
        }
        return None;
    }
    let c = op[0];
    assert(op@ == seq![c]);
    if c == '+' {
        Some(MathOp::Add)
    } else if c == '-' {
        Some(MathOp::Sub)
    } else if c == '*' || c == 'x' || c == '×' {
        Some(MathOp::Mul)
    } else if c == '/' {
        Some(MathOp::Div)
    } else {
        None
    }
}

/// `a op b` for an operator given as characters.
pub fn compute_chars(a: i64, op: &[char], b: i64) -> (r: Result<i64, MathError>)
    ensures
        math_view(r) == spec_compute(a, op@, b),
{
    match op_of(op) {
        None => Err(MathError::UnknownOperator(string_of(op))),
        Some(MathOp::Add) => match a.checked_add(b) {
            Some(v) => Ok(v),
            None => Err(MathError::Overflow),
        },
        Some(MathOp::Sub) => match a.checked_sub(b) {
            Some(v) => Ok(v),
            None => Err(MathError::Overflow),
        },
        Some(MathOp::Mul) => match a.checked_mul(b) {
            Some(v) => Ok(v),
            None => Err(MathError::Overflow),
        },
        Some(MathOp::Div) => {
            if b == 0 {
                Err(MathError::DivisionByZero)
            } else {
                match a.checked_div(b) {
                    Some(v) => Ok(v),
                    None => Err(MathError::Overflow),
                }
            }
        },
    }
}

/// Applies the operator `op` (`+`, `-`, `*`, `x`, `×` or `/`) to `a` and `b`.
/// Division rounds toward zero; a zero divisor, an unknown operator and a result
/// outside `i64` are errors.
pub fn compute(a: i64, op: &str, b: i64) -> (r: Result<i64, MathError>)
    ensures
        math_view(r) == spec_compute(a, op@, b),
{
    let op_chars = chars_of(op);
    compute_chars(a, &op_chars, b)
}


/// Fallback pattern for expressions that are not three words: digits, an
/// operator, digits, with optional white space between.
pub const MATH_PATTERN: &'static str = "(\\d+)\\s*([+\\-*/x×])\\s*(\\d+)";

/// The text that is split into words: `=` and `?` become spaces, then the
/// result is trimmed.
pub open spec fn normalize(s: Seq<char>) -> Seq<char> {
    spec_trim(replace_char(replace_char(s, '=', ' '), '?', ' '))
}

/// Evaluation of three words: left operand, operator, right operand.
pub open spec fn spec_eval_words(a: Seq<char>, op: Seq<char>, b: Seq<char>) -> Result<i64, MathFailure> {
    match spec_parse_i64(a) {
        None => Err(MathFailure::LeftOperand),
        Some(x) => match spec_parse_i64(b) {
            None => Err(MathFailure::RightOperand),
            Some(y) => spec_compute(x, op, y),
        },
    }
}

/// Evaluation of an operand and operator found by the fallback pattern.
pub open spec fn spec_eval_found(a: Seq<char>, op: Seq<char>, b: Seq<char>) -> Result<i64, MathFailure> {
    match spec_parse_i64(a) {
        None => Err(MathFailure::BadNumber(i64_parse_error(a))),
        Some(x) => match spec_parse_i64(b) {
            None => Err(MathFailure::BadNumber(i64_parse_error(b))),
            Some(y) => spec_compute(x, op, y),
        },
    }
}

/// Evaluation of the groups of a fallback-pattern match in the expression `e`.
pub open spec fn spec_eval_groups(e: Seq<char>, g: Seq<Option<Seq<char>>>) -> Result<i64, MathFailure> {
    if g.len() >= 4 && g[1] is Some && g[2] is Some && g[3] is Some {
        spec_eval_found(g[1]->0, g[2]->0, g[3]->0)
    } else {
        Err(MathFailure::CannotParse(e))
    }
}

/// What `evaluate` answers for `s`: the first three words when there are at least
/// three, else the first match of `MATH_PATTERN` in the normalized text.
pub open spec fn spec_evaluate(s: Seq<char>) -> Result<i64, MathFailure> {
    let e = normalize(s);
    let w = split_ws(e);
    if w.len() < 3 {
        match regex_first_captures(MATH_PATTERN@, e) {
            None => Err(MathFailure::InvalidPattern),
            Some(None) => Err(MathFailure::CannotParse(e)),
            Some(Some(g)) => spec_eval_groups(e, g),
        }
    } else {
        spec_eval_words(w[0], w[1], w[2])
    }
}

fn eval_words(a: &[char], op: &[char], b: &[char]) -> (r: Result<i64, MathError>)
    ensures
        math_view(r) == spec_eval_words(a@, op@, b@),
{
    match parse_i64(a) {
        None => Err(MathError::LeftOperand),
        Some(x) => match parse_i64(b) {
            None => Err(MathError::RightOperand),
            Some(y) => compute_chars(x, op, y),
        },
    }
}

fn eval_found(a: &str, op: &[char], b: &str) -> (r: Result<i64, MathError>)
    ensures
        math_view(r) == spec_eval_found(a@, op@, b@),
{
    let a_chars = chars_of(a);
    let b_chars = chars_of(b);
    match parse_i64(&a_chars) {
        None => Err(MathError::BadNumber(parse_i64_error_text(a))),
        Some(x) => match parse_i64(&b_chars) {
            None => Err(MathError::BadNumber(parse_i64_error_text(b))),
            Some(y) => compute_chars(x, op, y),
        },
    }
}

fn eval_groups(e: &str, g: &Vec<Option<String>>) -> (r: Result<i64, MathError>)
    ensures
        math_view(r) == spec_eval_groups(e@, g.deep_view()),
{
    if g.len() < 4 {
        return Err(MathError::CannotParse(e.to_string()));
    }
    assert(g.deep_view()[1] == g@[1].deep_view());
    assert(g.deep_view()[2] == g@[2].deep_view());
    assert(g.deep_view()[3] == g@[3].deep_view());
    match (&g[1], &g[2], &g[3]) {
        (Some(a), Some(op), Some(b)) => {
            let op_chars = chars_of(op.as_str());
            eval_found(a.as_str(), &op_chars, b.as_str())
        },
        _ => Err(MathError::CannotParse(e.to_string())),
    }
}

/// The answer to `s` as a number.
pub fn evaluate_value(s: &[char]) -> (r: Result<i64, MathError>)
    ensures
        math_view(r) == spec_evaluate(s@),
{
    let blanked = replace(s, '=', ' ');
    let blanked = replace(&blanked, '?', ' ');
    let e = trim(&blanked);
    let words = split_whitespace(&e);
    if words.len() < 3 {
        let e_text = string_of(&e);
        match regex_captures(MATH_PATTERN, e_text.as_str()) {
            Err(_) => Err(MathError::InvalidPattern),
            Ok(None) => Err(MathError::CannotParse(e_text)),
            Ok(Some(g)) => eval_groups(e_text.as_str(), &g),
        }
    } else {
        assert(words.deep_view()[0] == words@[0]@);
        assert(words.deep_view()[1] == words@[1]@);
        assert(words.deep_view()[2] == words@[2]@);
        eval_words(&words[0], &words[1], &words[2])
    }
}

/// Parses and evaluates a simple math expression such as "3 + 7", "12 - 4",
/// "5 * 3", "10 / 2" or "6x4"; a trailing "= ?" is ignored. The answer is the
/// decimal text of the result.
pub fn evaluate(expr: &str) -> (r: Result<String, MathError>)
    ensures
        r is Ok <==> spec_evaluate(expr@) is Ok,
        r matches Ok(t) ==> t@ == int_decimal(spec_evaluate(expr@)->Ok_0 as int),
        r matches Err(e) ==> spec_evaluate(expr@) == Err::<i64, MathFailure>(e@),
{
    let chars = chars_of(expr);
    match evaluate_value(&chars) {
        Ok(v) => {
            let digits = i64_to_decimal(v);
            Ok(string_of(&digits))
        },
        Err(e) => Err(e),
    }
}

/// Answer to a math captcha from the text that OCR read off the image: the text
/// is trimmed, then evaluated.
pub fn finish(ocr_text: &str) -> (r: Result<String, MathError>)
    ensures
        r is Ok <==> spec_evaluate(spec_trim(ocr_text@)) is Ok,
        r matches Ok(t) ==> t@ == int_decimal(spec_evaluate(spec_trim(ocr_text@))->Ok_0 as int),
        r matches Err(e) ==> spec_evaluate(spec_trim(ocr_text@)) == Err::<i64, MathFailure>(e@),
{
    let chars = chars_of(ocr_text);
    let trimmed = trim(&chars);
    match evaluate_value(&trimmed) {
        Ok(v) => {
            let digits = i64_to_decimal(v);
            Ok(string_of(&digits))
        },
        Err(e) => Err(e),
    }
}


/// Solves a math-expression captcha (e.g. "3 + 7 = ?") up to OCR: the image is
/// decoded, preprocessed, and handed on to be read in page-segmentation mode
/// `psm`, with the math whitelist; the text read is then evaluated by `finish`.
pub fn solve(image_bytes: &[u8], psm: u8) -> (r: Result<SolveStep, SolveError>)
    ensures
        is_ocr_outcome(image_bytes@, psm, MATH_WHITELIST@, r),
{
    ocr_step(image_bytes, psm, MATH_WHITELIST)
}

/// The answer text, read back as an `i64`, is the value of the expression.
pub proof fn lemma_answer_reads_back(s: Seq<char>)
    requires
        spec_evaluate(s) is Ok,
    ensures
        spec_parse_i64(int_decimal(spec_evaluate(s)->Ok_0 as int)) == Some(spec_evaluate(s)->Ok_0),
{
    lemma_decimal_parses_back(spec_evaluate(s)->Ok_0);
}

/// Appending "= ?" (or any run of `=`, `?` and white space) to an expression does
/// not change its answer.
pub proof fn lemma_equals_suffix_ignored(s: Seq<char>, t: Seq<char>)
    requires
        forall|i: int|
            0 <= i < t.len() ==> (#[trigger] t[i] == '=' || t[i] == '?' || is_white_space(t[i])),
    ensures
        spec_evaluate(s + t) == spec_evaluate(s),
{
    lemma_replace_append(s, t, '=', ' ');
    let s1 = replace_char(s, '=', ' ');
    let t1 = replace_char(t, '=', ' ');
    lemma_replace_append(s1, t1, '?', ' ');
    let t2 = replace_char(t1, '?', ' ');
    assert forall|i: int| 0 <= i < t2.len() implies is_white_space(#[trigger] t2[i]) by {
        assert(t2[i] == (if t1[i] == '?' { ' ' } else { t1[i] }));
        assert(t1[i] == (if t[i] == '=' { ' ' } else { t[i] }));
    }
    lemma_trim_append_ws(replace_char(s1, '?', ' '), t2);
    assert(normalize(s + t) == normalize(s));
}


/// The operators compute what they name: `+` the sum, `-` the difference,
/// `*`, `x` and `×` the product, `/` the quotient rounded toward zero (for a
/// nonzero divisor), whenever the exact value fits in an `i64`.
pub proof fn lemma_compute_arithmetic(a: i64, b: i64)
    ensures
        i64::MIN <= a + b <= i64::MAX ==> spec_compute(a, seq!['+'], b) == Ok::<i64, MathFailure>((a + b) as i64),
        i64::MIN <= a - b <= i64::MAX ==> spec_compute(a, seq!['-'], b) == Ok::<i64, MathFailure>((a - b) as i64),
        i64::MIN <= a * b <= i64::MAX ==> spec_compute(a, seq!['*'], b) == Ok::<i64, MathFailure>((a * b) as i64),
        i64::MIN <= a * b <= i64::MAX ==> spec_compute(a, seq!['x'], b) == Ok::<i64, MathFailure>((a * b) as i64),
        i64::MIN <= a * b <= i64::MAX ==> spec_compute(a, seq!['×'], b) == Ok::<i64, MathFailure>((a * b) as i64),
        b != 0 && !(a == i64::MIN && b == -1) ==> spec_compute(a, seq!['/'], b) is Ok && {
            let q = spec_compute(a, seq!['/'], b)->Ok_0;
            &&& if a >= 0 { a - q * b >= 0 } else { a - q * b <= 0 }
            &&& abs_int(a - q * b) < abs_int(b as int)
        },
        b == 0 ==> spec_compute(a, seq!['/'], b) == Err::<i64, MathFailure>(MathFailure::DivisionByZero),
{
    let ops: Seq<Seq<char>> = seq![seq!['+'], seq!['-'], seq!['*'], seq!['x'], seq!['×'], seq!['/']];
    assert forall|i: int, j: int| 0 <= i < 6 && 0 <= j < 6 && i != j implies ops[i] != ops[j] by {
        assert(ops[i][0] != ops[j][0]);
    }
    assert(spec_op(seq!['+']) == Some(MathOp::Add));
    assert(spec_op(seq!['-']) == Some(MathOp::Sub)) by { assert(ops[1] != ops[0]); }
    assert(spec_op(seq!['*']) == Some(MathOp::Mul)) by { assert(ops[2] != ops[0] && ops[2] != ops[1]); }
    assert(spec_op(seq!['x']) == Some(MathOp::Mul)) by { assert(ops[3] != ops[0] && ops[3] != ops[1] && ops[3] != ops[2]); }
    assert(spec_op(seq!['×']) == Some(MathOp::Mul)) by { assert(ops[4] != ops[0] && ops[4] != ops[1] && ops[4] != ops[2] && ops[4] != ops[3]); }
    assert(spec_op(seq!['/']) == Some(MathOp::Div)) by {
        assert(ops[5] != ops[0] && ops[5] != ops[1] && ops[5] != ops[2] && ops[5] != ops[3] && ops[5] != ops[4]);
    }
    if b != 0 && !(a == i64::MIN && b == -1) {
        lemma_trunc_div(a as int, b as int);
    }
}

/// `|v|`.
pub open spec fn abs_int(v: int) -> int {
    if v >= 0 {
        v
    } else {
        -v
    }
}

proof fn lemma_trunc_div(a: int, b: int)
    requires
        b != 0,
        i64::MIN <= a <= i64::MAX,
        i64::MIN <= b <= i64::MAX,
        !(a == i64::MIN && b == -1),
    ensures
        i64::MIN <= trunc_div(a, b) <= i64::MAX,
        if a >= 0 { a - trunc_div(a, b) * b >= 0 } else { a - trunc_div(a, b) * b <= 0 },
        abs_int(a - trunc_div(a, b) * b) < abs_int(b),
{
    let q = trunc_div(a, b);
    if a == 0 {
    } else if a > 0 && b > 0 {
        assert(0 <= a - q * b < b && 0 <= q <= a) by (nonlinear_arith)
            requires a > 0, b > 0, q == a / b;
    } else if a < 0 && b < 0 {
        assert(0 <= (-a) - q * (-b) < -b && 0 <= q <= -a) by (nonlinear_arith)
            requires a < 0, b < 0, q == (-a) / (-b);
        assert(a - q * b == -((-a) - q * (-b))) by (nonlinear_arith);
        assert(q * (-b) <= -a) by (nonlinear_arith)
            requires a < 0, b < 0, q == (-a) / (-b);
        if b == -1 {
            assert(q == -a) by (nonlinear_arith)
                requires q == (-a) / (-b), b == -1;
        } else {
            assert(q <= -a / 2) by (nonlinear_arith)
                requires q * (-b) <= -a, -b >= 2, q >= 0;
        }
    } else if a < 0 {
        let q0 = (-a) / b;
        assert(0 <= (-a) - q0 * b < b && 0 <= q0 <= -a) by (nonlinear_arith)
            requires a < 0, b > 0, q0 == (-a) / b;
        assert(a - q * b == -((-a) - q0 * b)) by (nonlinear_arith)
            requires q == -q0;
    } else {
        let q0 = a / (-b);
        assert(0 <= a - q0 * (-b) < -b && 0 <= q0 <= a) by (nonlinear_arith)
            requires a > 0, b < 0, q0 == a / (-b);
        assert(a - q * b == a - q0 * (-b)) by (nonlinear_arith)
            requires q == -q0;
    }
}

/// Three or more words: the expression is the first word as the left operand,
/// the second as the operator and the third as the right operand, in that order.
pub proof fn lemma_evaluate_words(s: Seq<char>, x: i64, y: i64)
    requires
        split_ws(normalize(s)).len() >= 3,
        spec_parse_i64(split_ws(normalize(s))[0]) == Some(x),
        spec_parse_i64(split_ws(normalize(s))[2]) == Some(y),
    ensures
        spec_evaluate(s) == spec_compute(x, split_ws(normalize(s))[1], y),
{
}

/// Fewer than three words: the first match of `MATH_PATTERN` gives the left
/// operand (group 1), the operator (group 2) and the right operand (group 3),
/// applied in the order they occur in the text.
pub proof fn lemma_evaluate_pattern(s: Seq<char>, g: Seq<Option<Seq<char>>>, x: i64, y: i64)
    requires
        split_ws(normalize(s)).len() < 3,
        regex_first_captures(MATH_PATTERN@, normalize(s)) == Some(Some(g)),
        g.len() >= 4,
        g[1] is Some,
        g[2] is Some,
        g[3] is Some,
        spec_parse_i64(g[1]->0) == Some(x),
        spec_parse_i64(g[3]->0) == Some(y),
    ensures
        spec_evaluate(s) == spec_compute(x, g[2]->0, y),
{
}

} // verus!
