//! Reduction of a dice-free token sequence to a single integer.
//!
//! The meaning of a sequence is given by the spec functions below, which
//! follow three passes applied in order.  First every parenthesized group is
//! eliminated: the first `LeftParen` is located, its partner found by a
//! depth-balanced scan (`UnbalancedParens` when the sequence ends first), the
//! enclosed subsequence evaluated recursively, and the whole group replaced
//! by the resulting constant.  Then `*`/`/` windows are reduced left to
//! right, then `+`/`-` windows, until a single constant remains; a window
//! whose operands are not constants, or a leftover that is not a single
//! constant, is `DidNotSimplify`.  Division truncates toward zero and fails
//! with `DivisionByZero` on a zero divisor; every intermediate value must
//! fit in `i32`, else `Overflow`.

use vstd::prelude::*;

use crate::token::EvalError;
use crate::token::Token;

verus! {

/// Whether `x` fits in `i32`.
pub open spec fn in_i32(x: int) -> bool {
    i32::MIN as int <= x <= i32::MAX as int
}

/// Division truncating toward zero, as `i32` division behaves.
pub open spec fn trunc_div(x: int, d: int) -> int
    recommends
        d != 0,
{
    if x == 0 {
        0
    } else if x > 0 && d > 0 {
        x / d
    } else if x < 0 && d < 0 {
        (x * -1) / (d * -1)
    } else if x < 0 {
        ((x * -1) / d) * -1
    } else {
        (x / (d * -1)) * -1
    }
}

/// The result of one binary operation, with checked `i32` arithmetic.
pub open spec fn apply_op(op: Token, a: int, b: int) -> Result<int, EvalError> {
    match op {
        Token::Add => if in_i32(a + b) {
            Ok(a + b)
        } else {
            Err(EvalError::Overflow)
        },
        Token::Subtract => if in_i32(a - b) {
            Ok(a - b)
        } else {
            Err(EvalError::Overflow)
        },
        Token::Multiply => if in_i32(a * b) {
            Ok(a * b)
        } else {
            Err(EvalError::Overflow)
        },
        Token::Divide => if b == 0 {
            Err(EvalError::DivisionByZero)
        } else if in_i32(trunc_div(a, b)) {
            Ok(trunc_div(a, b))
        } else {
            Err(EvalError::Overflow)
        },
        _ => Err(EvalError::DidNotSimplify),
    }
}

/// The index of the first `LeftParen` at or after `i`, or the length of `s`.
pub open spec fn first_lparen(s: Seq<Token>, i: int) -> int
    decreases s.len() - i,
{
    if i < 0 || i >= s.len() {
        s.len() as int
    } else if s[i] is LeftParen {
        i
    } else {
        first_lparen(s, i + 1)
    }
}

/// The position whose `RightParen` returns the nesting depth to zero,
/// scanning from `k` at depth `depth`; `None` when the sequence ends first.
pub open spec fn close_from(s: Seq<Token>, k: int, depth: int) -> Option<int>
    decreases s.len() - k,
{
    if k < 0 || k >= s.len() {
        None
    } else if s[k] is RightParen && depth == 1 {
        Some(k)
    } else {
        let d = if s[k] is LeftParen {
            depth + 1
        } else if s[k] is RightParen {
            depth - 1
        } else {
            depth
        };
        close_from(s, k + 1, d)
    }
}

/// The depth-balanced match of the `LeftParen` at `i`, if any.
pub open spec fn close_index(s: Seq<Token>, i: int) -> Option<int> {
    close_from(s, i + 1, 1)
}

/// The index of the first `Multiply`/`Divide` at or after `i`, or the
/// length of `s`.
pub open spec fn first_muldiv(s: Seq<Token>, i: int) -> int
    decreases s.len() - i,
{
    if i < 0 || i >= s.len() {
        s.len() as int
    } else if s[i] is Multiply || s[i] is Divide {
        i
    } else {
        first_muldiv(s, i + 1)
    }
}

/// The index of the first `Add`/`Subtract` at or after `i`, or the length
/// of `s`.
pub open spec fn first_addsub(s: Seq<Token>, i: int) -> int
    decreases s.len() - i,
{
    if i < 0 || i >= s.len() {
        s.len() as int
    } else if s[i] is Add || s[i] is Subtract {
        i
    } else {
        first_addsub(s, i + 1)
    }
}

/// The multiplication/division pass: repeatedly replaces the leftmost
/// `constant (*|/) constant` window by its value.  A `*`/`/` without a
/// constant on each side does not simplify.
pub open spec fn eval_muldiv(s: Seq<Token>) -> Result<Seq<Token>, EvalError>
    decreases s.len(),
{
    let i = first_muldiv(s, 0);
    if i >= s.len() {
        Ok(s)
    } else if 1 <= i && i + 1 < s.len() {
        match (s[i - 1], s[i + 1]) {
            (Token::Constant(x), Token::Constant(y)) => match apply_op(s[i], x as int, y as int) {
                Ok(v) => eval_muldiv(
                    s.subrange(0, i - 1) + seq![Token::Constant(v as i32)] + s.subrange(
                        i + 2,
                        s.len() as int,
                    ),
                ),
                Err(e) => Err(e),
            },
            _ => Err(EvalError::DidNotSimplify),
        }
    } else {
        Err(EvalError::DidNotSimplify)
    }
}

/// The addition/subtraction pass, then extraction of the single remaining
/// constant.
pub open spec fn eval_addsub(s: Seq<Token>) -> Result<i32, EvalError>
    decreases s.len(),
{
    let i = first_addsub(s, 0);
    if i >= s.len() {
        if s.len() == 1 {
            match s[0] {
                Token::Constant(c) => Ok(c),
                _ => Err(EvalError::DidNotSimplify),
            }
        } else {
            Err(EvalError::DidNotSimplify)
        }
    } else if 1 <= i && i + 1 < s.len() {
        match (s[i - 1], s[i + 1]) {
            (Token::Constant(x), Token::Constant(y)) => match apply_op(s[i], x as int, y as int) {
                Ok(v) => eval_addsub(
                    s.subrange(0, i - 1) + seq![Token::Constant(v as i32)] + s.subrange(
                        i + 2,
                        s.len() as int,
                    ),
                ),
                Err(e) => Err(e),
            },
            _ => Err(EvalError::DidNotSimplify),
        }
    } else {
        Err(EvalError::DidNotSimplify)
    }
}

/// Passes two and three on a parenthesis-free sequence.
pub open spec fn eval_flat(s: Seq<Token>) -> Result<i32, EvalError> {
    match eval_muldiv(s) {
        Ok(t) => eval_addsub(t),
        Err(e) => Err(e),
    }
}

/// The value of a whole token sequence per the three passes.  Parenthesized
/// groups are eliminated first, left to right: a `LeftParen` whose
/// depth-balanced scan finds no close is `UnbalancedParens`; a matched
/// group's inside is evaluated recursively and any failure there — a
/// malformed inside included — propagates as its own kind.
pub open spec fn spec_evaluate(s: Seq<Token>) -> Result<i32, EvalError>
    decreases s.len(),
{
    let i = first_lparen(s, 0);
    if i < 0 || i >= s.len() {
        eval_flat(s)
    } else {
        match close_index(s, i) {
            Some(m) => if i < m < s.len() {
                match spec_evaluate(s.subrange(i + 1, m)) {
                    Ok(v) => spec_evaluate(
                        s.subrange(0, i) + seq![Token::Constant(v)] + s.subrange(
                            m + 1,
                            s.len() as int,
                        ),
                    ),
                    Err(e) => Err(e),
                }
            } else {
                // A depth-balanced match always lies between `i` and the end
                // of the sequence, so this branch is never the result.
                Err(EvalError::UnbalancedParens)
            },
            None => Err(EvalError::UnbalancedParens),
        }
    }
}

fn is_lparen(t: Token) -> (b: bool)
    ensures
        b == (t is LeftParen),
{
    matches!(t, Token::LeftParen)
}

fn is_muldiv(t: Token) -> (b: bool)
    ensures
        b == (t is Multiply || t is Divide),
{
    matches!(t, Token::Multiply | Token::Divide)
}

fn is_addsub(t: Token) -> (b: bool)
    ensures
        b == (t is Add || t is Subtract),
{
    matches!(t, Token::Add | Token::Subtract)
}

fn find_lparen(a: &Vec<Token>, i: usize) -> (j: usize)
    requires
        i <= a.len(),
    ensures
        j as int == first_lparen(a@, i as int),
        i <= j <= a.len(),
        j < a.len() ==> a@[j as int] is LeftParen,
{
    let mut j = i;
    while j < a.len() && !is_lparen(a[j])
        invariant
            i <= j <= a.len(),
            first_lparen(a@, i as int) == first_lparen(a@, j as int),
        decreases a.len() - j,
    {
        j = j + 1;
    }
    j
}

fn find_muldiv(a: &Vec<Token>, i: usize) -> (j: usize)
    requires
        i <= a.len(),
    ensures
        j as int == first_muldiv(a@, i as int),
        i <= j <= a.len(),
        j < a.len() ==> (a@[j as int] is Multiply || a@[j as int] is Divide),
{
    let mut j = i;
    while j < a.len() && !is_muldiv(a[j])
        invariant
            i <= j <= a.len(),
            first_muldiv(a@, i as int) == first_muldiv(a@, j as int),
        decreases a.len() - j,
    {
        j = j + 1;
    }
    j
}

fn find_addsub(a: &Vec<Token>, i: usize) -> (j: usize)
    requires
        i <= a.len(),
    ensures
        j as int == first_addsub(a@, i as int),
        i <= j <= a.len(),
        j < a.len() ==> (a@[j as int] is Add || a@[j as int] is Subtract),
{
    let mut j = i;
    while j < a.len() && !is_addsub(a[j])
        invariant
            i <= j <= a.len(),
            first_addsub(a@, i as int) == first_addsub(a@, j as int),
        decreases a.len() - j,
    {
        j = j + 1;
    }
    j
}

/// The depth-balanced scan for the partner of the `LeftParen` at `i`.
fn find_close(a: &Vec<Token>, i: usize) -> (r: Option<usize>)
    requires
        i < a.len(),
    ensures
        match r {
            Some(m) => close_index(a@, i as int) == Some(m as int) && i < m < a.len(),
            None => close_index(a@, i as int) is None,
        },
{
    let mut k = i + 1;
    let mut depth: usize = 1;
    while k < a.len()
        invariant
            i + 1 <= k <= a.len(),
            1 <= depth <= k - i,
            close_index(a@, i as int) == close_from(a@, k as int, depth as int),
        decreases a.len() - k,
    {
        match a[k] {
            Token::RightParen => {
                if depth == 1 {
                    return Some(k);
                }
                depth = depth - 1;
            },
            Token::LeftParen => {
                depth = depth + 1;
            },
            _ => {},
        }
        k = k + 1;
    }
    None
}

fn copy_range(a: &Vec<Token>, from: usize, to: usize) -> (r: Vec<Token>)
    requires
        from <= to <= a.len(),
    ensures
        r@ == a@.subrange(from as int, to as int),
{
    let mut r: Vec<Token> = Vec::new();
    let mut k = from;
    while k < to
        invariant
            from <= k <= to <= a.len(),
            r@ == a@.subrange(from as int, k as int),
        decreases to - k,
    {
        r.push(a[k]);
        proof {
            assert(r@ =~= a@.subrange(from as int, k + 1 as int));
        }
        k = k + 1;
    }
    r
}

/// Replaces the three-token window centered on `i` by the constant `v`.
fn splice_window(a: &Vec<Token>, i: usize, v: i32) -> (r: Vec<Token>)
    requires
        1 <= i,
        i + 1 < a.len(),
    ensures
        r@ == a@.subrange(0, i - 1) + seq![Token::Constant(v)] + a@.subrange(
            i + 2,
            a@.len() as int,
        ),
{
    let mut r = copy_range(a, 0, i - 1);
    r.push(Token::Constant(v));
    let ghost head = r@;
    let mut k = i + 2;
    while k < a.len()
        invariant
            i + 2 <= k <= a.len(),
            head == a@.subrange(0, i - 1 as int) + seq![Token::Constant(v)],
            r@ == head + a@.subrange(i + 2 as int, k as int),
        decreases a.len() - k,
    {
        r.push(a[k]);
        proof {
            assert(r@ =~= head + a@.subrange(i + 2 as int, k + 1 as int));
        }
        k = k + 1;
    }
    proof {
        assert(r@ =~= a@.subrange(0, i - 1) + seq![Token::Constant(v)] + a@.subrange(
            i + 2,
            a@.len() as int,
        ));
    }
    r
}

fn reduce_muldiv(a: &Vec<Token>) -> (r: Result<Vec<Token>, EvalError>)
    ensures
        match r {
            Ok(v) => eval_muldiv(a@) == Ok::<Seq<Token>, EvalError>(v@),
            Err(e) => eval_muldiv(a@) == Err::<Seq<Token>, EvalError>(e),
        },
    decreases a.len(),
{
    let i = find_muldiv(a, 0);
    if i == a.len() {
        let r = copy_range(a, 0, a.len());
        proof {
            assert(r@ =~= a@);
        }
        return Ok(r);
    }
    if !(1 <= i && i + 1 < a.len()) {
        return Err(EvalError::DidNotSimplify);
    }
    let x = match a[i - 1] {
        Token::Constant(c) => c,
        _ => {
            return Err(EvalError::DidNotSimplify);
        },
    };
    let y = match a[i + 1] {
        Token::Constant(c) => c,
        _ => {
            return Err(EvalError::DidNotSimplify);
        },
    };
    let v: i32 = if let Token::Multiply = a[i] {
        match x.checked_mul(y) {
            Some(v) => v,
            None => {
                return Err(EvalError::Overflow);
            },
        }
    } else {
        if y == 0 {
            return Err(EvalError::DivisionByZero);
        }
        match x.checked_div(y) {
            Some(v) => v,
            None => {
                return Err(EvalError::Overflow);
            },
        }
    };
    let sp = splice_window(a, i, v);
    reduce_muldiv(&sp)
}

fn reduce_addsub(a: &Vec<Token>) -> (r: Result<i32, EvalError>)
    ensures
        r == eval_addsub(a@),
    decreases a.len(),
{
    let i = find_addsub(a, 0);
    if i == a.len() {
        if a.len() == 1 {
            if let Token::Constant(c) = a[0] {
                return Ok(c);
            }
        }
        return Err(EvalError::DidNotSimplify);
    }
    if !(1 <= i && i + 1 < a.len()) {
        return Err(EvalError::DidNotSimplify);
    }
    let x = match a[i - 1] {
        Token::Constant(c) => c,
        _ => {
            return Err(EvalError::DidNotSimplify);
        },
    };
    let y = match a[i + 1] {
        Token::Constant(c) => c,
        _ => {
            return Err(EvalError::DidNotSimplify);
        },
    };
    let v: i32 = if let Token::Add = a[i] {
        match x.checked_add(y) {
            Some(v) => v,
            None => {
                return Err(EvalError::Overflow);
            },
        }
    } else {
        match x.checked_sub(y) {
            Some(v) => v,
            None => {
                return Err(EvalError::Overflow);
            },
        }
    };
    let sp = splice_window(a, i, v);
    reduce_addsub(&sp)
}

fn eval_tokens(a: &Vec<Token>) -> (r: Result<i32, EvalError>)
    ensures
        r == spec_evaluate(a@),
    decreases a.len(),
{
    let i = find_lparen(a, 0);
    if i == a.len() {
        return match reduce_muldiv(a) {
            Ok(t) => reduce_addsub(&t),
            Err(e) => Err(e),
        };
    }
    match find_close(a, i) {
        Some(m) => {
            let inner = copy_range(a, i + 1, m);
            match eval_tokens(&inner) {
                Ok(v) => {
                    let mut sp = copy_range(a, 0, i);
                    sp.push(Token::Constant(v));
                    let ghost head = sp@;
                    let mut k = m + 1;
                    while k < a.len()
                        invariant
                            m + 1 <= k <= a.len(),
                            head == a@.subrange(0, i as int) + seq![Token::Constant(v)],
                            sp@ == head + a@.subrange(m + 1 as int, k as int),
                        decreases a.len() - k,
                    {
                        sp.push(a[k]);
                        proof {
                            assert(sp@ =~= head + a@.subrange(m + 1 as int, k + 1 as int));
                        }
                        k = k + 1;
                    }
                    proof {
                        assert(sp@ =~= a@.subrange(0, i as int) + seq![Token::Constant(v)]
                            + a@.subrange(m + 1, a@.len() as int));
                    }
                    eval_tokens(&sp)
                },
                Err(e) => Err(e),
            }
        },
        None => Err(EvalError::UnbalancedParens),
    }
}

/// Reduces a token sequence to its single integer value, or reports the
/// first failure the three passes meet.
pub fn evaluate(a: Vec<Token>) -> (r: Result<i32, EvalError>)
    ensures
        r == spec_evaluate(a@),
{
    eval_tokens(&a)
}

} // verus!
