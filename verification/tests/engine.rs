//! End-to-end tests of the expression engine: tokenize, resolve, evaluate.

use diceroll::evaluate;
use diceroll::match_sub;
use diceroll::roll_expr;
use diceroll::tokenize;
use diceroll::Dice;
use diceroll::EvalError;
use diceroll::LexError;
use diceroll::Token;
use diceroll::Variant;

fn eval_line(s: &str) -> Result<i32, EvalError> {
    let tokens = tokenize(s.to_string()).expect("tokenize failed");
    let (resolved, _logs) = roll_expr(tokens);
    evaluate(resolved)
}

#[test]
fn round_trip_two_plus_three() {
    assert_eq!(eval_line("2+3"), Ok(5));
}

#[test]
fn empty_input_tokenizes_like_d20() {
    let empty = tokenize("".to_string()).unwrap();
    let d20 = tokenize("d20".to_string()).unwrap();
    assert_eq!(empty, d20);
    assert_eq!(
        empty,
        vec![Token::Dice(Dice { count: 1, sides: 20, variant: Variant::Plain })]
    );
}

#[test]
fn whitespace_only_input_tokenizes_like_d20() {
    let blank = tokenize("  \t ".to_string()).unwrap();
    let d20 = tokenize("d20".to_string()).unwrap();
    assert_eq!(blank, d20);
}

#[test]
fn precedence_multiplication_before_addition() {
    assert_eq!(eval_line("2+3*4"), Ok(14));
}

#[test]
fn parentheses_override_precedence() {
    assert_eq!(eval_line("(2+3)*4"), Ok(20));
}

#[test]
fn implicit_d20_for_bare_modifier() {
    let bare = tokenize("+5".to_string()).unwrap();
    let explicit = tokenize("1d20+5".to_string()).unwrap();
    assert_eq!(bare, explicit);
    assert_eq!(
        bare,
        vec![
            Token::Dice(Dice { count: 1, sides: 20, variant: Variant::Plain }),
            Token::Add,
            Token::Constant(5),
        ]
    );
}

#[test]
fn implicit_d20_not_applied_to_longer_input() {
    let tokens = tokenize("5+5".to_string()).unwrap();
    assert_eq!(
        tokens,
        vec![Token::Constant(5), Token::Add, Token::Constant(5)]
    );
}

#[test]
fn malformed_missing_side_count() {
    assert_eq!(tokenize("2d".to_string()), Err(LexError::MalformedOperand));
}

#[test]
fn malformed_stray_letters() {
    assert_eq!(tokenize("2+x".to_string()), Err(LexError::MalformedOperand));
}

#[test]
fn malformed_constant_too_large_for_i32() {
    assert_eq!(
        tokenize("2147483648".to_string()),
        Err(LexError::MalformedOperand)
    );
}

#[test]
fn unbalanced_parentheses() {
    let tokens = tokenize("(2+3".to_string()).unwrap();
    assert_eq!(evaluate(tokens), Err(EvalError::UnbalancedParens));
}

#[test]
fn division_by_zero() {
    assert_eq!(eval_line("4/0"), Err(EvalError::DivisionByZero));
}

#[test]
fn division_truncates_toward_zero() {
    assert_eq!(eval_line("7/2"), Ok(3));
    assert_eq!(eval_line("(2-9)/2"), Ok(-3));
}

#[test]
fn equal_precedence_reduces_left_to_right() {
    assert_eq!(eval_line("10-2-3"), Ok(5));
    assert_eq!(eval_line("20/2/5"), Ok(2));
}

#[test]
fn nested_parentheses() {
    assert_eq!(eval_line("((2+3))*2"), Ok(10));
    assert_eq!(eval_line("2*(3+(4-1))"), Ok(12));
}

#[test]
fn whitespace_is_stripped() {
    assert_eq!(eval_line("2 + 3 * 4"), Ok(14));
}

#[test]
fn addition_overflow_reported() {
    assert_eq!(eval_line("2147483647+1"), Err(EvalError::Overflow));
}

#[test]
fn multiplication_overflow_reported() {
    assert_eq!(eval_line("65536*65536"), Err(EvalError::Overflow));
}

#[test]
fn empty_parentheses_do_not_simplify() {
    let tokens = tokenize("()".to_string()).unwrap();
    assert_eq!(evaluate(tokens), Err(EvalError::DidNotSimplify));
}

#[test]
fn adjacent_constants_do_not_simplify() {
    let tokens = vec![Token::Constant(2), Token::Constant(3)];
    assert_eq!(evaluate(tokens), Err(EvalError::DidNotSimplify));
}

#[test]
fn lone_operator_is_malformed() {
    assert_eq!(tokenize("+".to_string()), Err(LexError::MalformedOperand));
}

#[test]
fn trailing_operator_is_malformed() {
    assert_eq!(tokenize("2+".to_string()), Err(LexError::MalformedOperand));
    assert_eq!(tokenize("2*3/".to_string()), Err(LexError::MalformedOperand));
}

#[test]
fn malformed_inside_matched_parens_does_not_simplify() {
    // The parenthesis is depth-matched, so the failure is the malformed
    // adjacency inside it, not an unbalanced pair.
    let tokens = vec![
        Token::LeftParen,
        Token::Constant(2),
        Token::Constant(3),
        Token::RightParen,
    ];
    assert_eq!(evaluate(tokens), Err(EvalError::DidNotSimplify));
}

#[test]
fn unmatched_left_paren_is_unbalanced_wherever_it_stands() {
    let tokens = vec![Token::Constant(2), Token::LeftParen];
    assert_eq!(evaluate(tokens), Err(EvalError::UnbalancedParens));
    let trailing = tokenize("2+(".to_string()).unwrap();
    assert_eq!(evaluate(trailing), Err(EvalError::UnbalancedParens));
}

#[test]
fn error_inside_parens_propagates_its_own_kind() {
    assert_eq!(eval_line("(4/0)*2"), Err(EvalError::DivisionByZero));
}

#[test]
fn double_bare_modifier_is_rejected() {
    // "5+ +3" lexes — it does not end in an operator, and the implicit-d20
    // rule needs exactly two tokens — but the dangling second operator
    // stops evaluation.
    let tokens = tokenize("5+ +3".to_string()).unwrap();
    assert_eq!(
        tokens,
        vec![
            Token::Constant(5),
            Token::Add,
            Token::Add,
            Token::Constant(3),
        ]
    );
    assert_eq!(evaluate(tokens), Err(EvalError::DidNotSimplify));
}

#[test]
fn resolve_without_dice_is_noop() {
    let tokens = tokenize("2+3*4".to_string()).unwrap();
    let (resolved, logs) = roll_expr(tokens.clone());
    assert_eq!(resolved, tokens);
    assert!(logs.is_empty());
}

#[test]
fn match_sub_classifies_operators() {
    assert_eq!(match_sub("+".to_string()), Some(Token::Add));
    assert_eq!(match_sub("-".to_string()), Some(Token::Subtract));
    assert_eq!(match_sub("*".to_string()), Some(Token::Multiply));
    assert_eq!(match_sub("/".to_string()), Some(Token::Divide));
    assert_eq!(match_sub("(".to_string()), Some(Token::LeftParen));
    assert_eq!(match_sub(")".to_string()), Some(Token::RightParen));
}

#[test]
fn match_sub_classifies_operands() {
    assert_eq!(match_sub("12".to_string()), Some(Token::Constant(12)));
    assert_eq!(
        match_sub("2d6".to_string()),
        Some(Token::Dice(Dice { count: 2, sides: 6, variant: Variant::Plain }))
    );
    assert_eq!(match_sub("abc".to_string()), None);
    assert_eq!(match_sub("".to_string()), None);
}

#[test]
fn constant_accessor() {
    assert_eq!(Token::Constant(7).constant(), Some(7));
    assert_eq!(Token::Add.constant(), None);
    assert_eq!(
        Token::Dice(Dice { count: 1, sides: 20, variant: Variant::Plain }).constant(),
        None
    );
}
