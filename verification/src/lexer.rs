//! Tokenization of a dice-arithmetic input line.
//!
//! After whitespace is stripped, the input is a run of chunks separated by
//! single operator/parenthesis characters.  Each operator character maps to
//! its token; every other chunk is tried first as a dice pattern and then as
//! a non-negative integer literal.  An empty input stands for `d20`, a line
//! that ends in a binary operator is a structurally degenerate split and
//! fails, and a two-token result of the shape operator-then-constant gains
//! an implicit leading `1d20` dice group.

use vstd::prelude::*;

use crate::dice::all_digits;
use crate::dice::chars_of;
use crate::dice::dice_of_chars;
use crate::dice::digits_val;
use crate::dice::digits_value;
use crate::dice::is_digit;
use crate::dice::spec_parse_dice;
use crate::token::wf_token;
use crate::token::wf_tokens;
use crate::token::Dice;
use crate::token::LexError;
use crate::token::Token;
use crate::token::Variant;

verus! {

/// Whether `c` is ASCII whitespace, the kinds the lexer strips.
pub open spec fn is_space_char(c: char) -> bool {
    c == ' ' || c == '\t' || c == '\n' || c == '\r'
}

/// Whether `c` is an operator or parenthesis character, each of which forms
/// a token on its own.
pub open spec fn is_op_char(c: char) -> bool {
    c == '+' || c == '-' || c == '*' || c == '/' || c == '(' || c == ')'
}

/// The token of the operator character `c`.
pub open spec fn op_token(c: char) -> Token
    recommends
        is_op_char(c),
{
    if c == '+' {
        Token::Add
    } else if c == '-' {
        Token::Subtract
    } else if c == '*' {
        Token::Multiply
    } else if c == '/' {
        Token::Divide
    } else if c == '(' {
        Token::LeftParen
    } else {
        Token::RightParen
    }
}

/// `s` with every whitespace character at or after position `i` removed.
pub open spec fn strip_ws_from(s: Seq<char>, i: int) -> Seq<char>
    decreases s.len() - i,
{
    if i < 0 || i >= s.len() {
        Seq::empty()
    } else if is_space_char(s[i]) {
        strip_ws_from(s, i + 1)
    } else {
        seq![s[i]] + strip_ws_from(s, i + 1)
    }
}

/// `s` with every whitespace character removed.
pub open spec fn strip_ws(s: Seq<char>) -> Seq<char> {
    strip_ws_from(s, 0)
}

/// The first position at or after `i` that holds an operator character, or
/// the length of `s` if none follows.
pub open spec fn chunk_end(s: Seq<char>, i: int) -> int
    decreases s.len() - i,
{
    if i < 0 || i >= s.len() {
        i
    } else if is_op_char(s[i]) {
        i
    } else {
        chunk_end(s, i + 1)
    }
}

/// The integer literal written as `s`: a nonempty run of digits whose value
/// fits in `i32`.
pub open spec fn spec_parse_int(s: Seq<char>) -> Option<i32> {
    if s.len() > 0 && all_digits(s) && digits_val(s) <= i32::MAX as int {
        Some(digits_val(s) as i32)
    } else {
        None
    }
}

/// The token of a chunk between operators: a dice pattern if the dice
/// grammar matches, else an integer literal, else nothing.
pub open spec fn spec_match_chunk(s: Seq<char>) -> Option<Token> {
    match spec_parse_dice(s) {
        Some(d) => Some(Token::Dice(d)),
        None => match spec_parse_int(s) {
            Some(n) => Some(Token::Constant(n)),
            None => None,
        },
    }
}

/// The token of an arbitrary sub-string: a single operator character maps
/// directly, anything else classifies as a chunk.
pub open spec fn spec_match_sub(s: Seq<char>) -> Option<Token> {
    if s.len() == 1 && is_op_char(s[0]) {
        Some(op_token(s[0]))
    } else {
        spec_match_chunk(s)
    }
}

/// The token sequence of the whitespace-free characters from position `i`
/// on, or `None` when some chunk classifies as nothing.
pub open spec fn lex_from(s: Seq<char>, i: int) -> Option<Seq<Token>>
    decreases s.len() - i,
{
    if i < 0 || i >= s.len() {
        Some(Seq::empty())
    } else if is_op_char(s[i]) {
        match lex_from(s, i + 1) {
            Some(ts) => Some(seq![op_token(s[i])] + ts),
            None => None,
        }
    } else {
        let j = chunk_end(s, i);
        if i < j <= s.len() {
            match spec_match_chunk(s.subrange(i, j)) {
                Some(t) => match lex_from(s, j) {
                    Some(ts) => Some(seq![t] + ts),
                    None => None,
                },
                None => None,
            }
        } else {
            None
        }
    }
}

/// The single twenty-sided die that stands in for an empty input and for a
/// missing left operand.
pub open spec fn default_d20() -> Dice {
    Dice { count: 1, sides: 20, variant: Variant::Plain }
}

/// Whether `t` is one of the four binary operator tokens.
pub open spec fn is_op_token(t: Token) -> bool {
    t is Add || t is Subtract || t is Multiply || t is Divide
}

/// Prepends an implicit `1d20` to a bare operator-constant pair, so that an
/// input such as `+5` reads as `1d20+5`.
pub open spec fn apply_implicit_d20(ts: Seq<Token>) -> Seq<Token> {
    if ts.len() == 2 && is_op_token(ts[0]) && ts[1] is Constant {
        seq![Token::Dice(default_d20())] + ts
    } else {
        ts
    }
}

/// The token sequence of a whole input line: strip whitespace, treat an
/// empty result as `d20`, lex, reject a structurally degenerate split — a
/// lone trailing binary operator with nothing after it — and apply the
/// implicit-`1d20` rule.
pub open spec fn spec_tokenize(s: Seq<char>) -> Result<Seq<Token>, LexError> {
    let w = strip_ws(s);
    let t = if w.len() == 0 {
        seq!['d', '2', '0']
    } else {
        w
    };
    match lex_from(t, 0) {
        Some(ts) => if ts.len() > 0 && is_op_token(ts[ts.len() - 1]) {
            Err(LexError::MalformedOperand)
        } else {
            Ok(apply_implicit_d20(ts))
        },
        None => Err(LexError::MalformedOperand),
    }
}

/// Bounds of a chunk: it starts where scanning starts, ends within the
/// sequence, and is nonempty when scanning starts on a non-operator.
proof fn lemma_chunk_end_bounds(s: Seq<char>, i: int)
    requires
        0 <= i <= s.len(),
    ensures
        i <= chunk_end(s, i) <= s.len(),
    decreases s.len() - i,
{
    if i < s.len() && !is_op_char(s[i]) {
        lemma_chunk_end_bounds(s, i + 1);
    }
}

fn is_space(c: char) -> (b: bool)
    ensures
        b == is_space_char(c),
{
    c == ' ' || c == '\t' || c == '\n' || c == '\r'
}

fn is_op(c: char) -> (b: bool)
    ensures
        b == is_op_char(c),
{
    c == '+' || c == '-' || c == '*' || c == '/' || c == '(' || c == ')'
}

fn op_of(c: char) -> (r: Token)
    ensures
        r == op_token(c),
{
    if c == '+' {
        Token::Add
    } else if c == '-' {
        Token::Subtract
    } else if c == '*' {
        Token::Multiply
    } else if c == '/' {
        Token::Divide
    } else if c == '(' {
        Token::LeftParen
    } else {
        Token::RightParen
    }
}

/// Parses a whole character sequence as an integer literal.
fn int_of_chars(v: &Vec<char>) -> (r: Option<i32>)
    ensures
        r == spec_parse_int(v@),
{
    if v.len() == 0 {
        return None;
    }
    let mut k: usize = 0;
    while k < v.len()
        invariant
            k <= v.len(),
            forall|m: int| 0 <= m < k ==> crate::dice::is_digit_char(v@[m]),
        decreases v.len() - k,
    {
        if !is_digit(v[k]) {
            return None;
        }
        k = k + 1;
    }
    proof {
        assert(v@.subrange(0, v@.len() as int) =~= v@);
    }
    digits_value(v, 0, v.len())
}

/// Classifies one chunk: dice pattern first, then integer literal.
fn match_chunk(v: &Vec<char>) -> (r: Option<Token>)
    ensures
        r == spec_match_chunk(v@),
        match r {
            Some(t) => wf_token(t),
            None => true,
        },
{
    match dice_of_chars(v) {
        Some(d) => Some(Token::Dice(d)),
        None => match int_of_chars(v) {
            Some(n) => Some(Token::Constant(n)),
            None => None,
        },
    }
}

/// Classifies one sub-string produced by splitting, as the lexer would.
pub fn match_sub(a: String) -> (r: Option<Token>)
    ensures
        r == spec_match_sub(a@),
        match r {
            Some(t) => wf_token(t),
            None => true,
        },
{
    let cs = chars_of(a.as_str());
    if cs.len() == 1 && is_op(cs[0]) {
        Some(op_of(cs[0]))
    } else {
        match_chunk(&cs)
    }
}

fn chunk_to(v: &Vec<char>, i: usize) -> (j: usize)
    requires
        i <= v.len(),
    ensures
        j as int == chunk_end(v@, i as int),
        i <= j <= v.len(),
{
    let mut j = i;
    while j < v.len() && !is_op(v[j])
        invariant
            i <= j <= v.len(),
            chunk_end(v@, i as int) == chunk_end(v@, j as int),
        decreases v.len() - j,
    {
        j = j + 1;
    }
    j
}

/// Tokenizes one input line.  Succeeds exactly when, after the empty-input
/// default, every chunk between operators is a dice pattern or an integer
/// literal that fits in `i32` and the line does not end in a binary
/// operator; every dice group produced is well-formed.  Whitespace here
/// means the ASCII kinds — space, tab, carriage return, and newline.
pub fn tokenize(a: String) -> (r: Result<Vec<Token>, LexError>)
    ensures
        match r {
            Ok(v) => spec_tokenize(a@) == Ok::<Seq<Token>, LexError>(v@) && wf_tokens(v@),
            Err(e) => spec_tokenize(a@) == Err::<Seq<Token>, LexError>(e),
        },
{
    let cs = chars_of(a.as_str());
    // Strip whitespace.
    let mut stripped: Vec<char> = Vec::new();
    let mut i: usize = 0;
    while i < cs.len()
        invariant
            i <= cs.len(),
            cs@ == a@,
            strip_ws(a@) == stripped@ + strip_ws_from(a@, i as int),
        decreases cs.len() - i,
    {
        let c = cs[i];
        if !is_space(c) {
            let ghost prev = stripped@;
            stripped.push(c);
            proof {
                assert(prev + strip_ws_from(a@, i as int) =~= stripped@ + strip_ws_from(
                    a@,
                    i + 1 as int,
                ));
            }
        }
        i = i + 1;
    }
    proof {
        assert(strip_ws_from(a@, cs@.len() as int) =~= Seq::<char>::empty());
        assert(stripped@ + Seq::<char>::empty() =~= stripped@);
        assert(strip_ws(a@) == stripped@);
    }
    // An empty (or whitespace-only) line stands for a bare d20 roll.
    let t: Vec<char> = if stripped.len() == 0 {
        let d = vec!['d', '2', '0'];
        proof {
            assert(d@ =~= seq!['d', '2', '0']);
        }
        d
    } else {
        stripped
    };
    let ghost ts = t@;
    // Split into operator characters and chunks, classifying as we go.
    let mut out: Vec<Token> = Vec::new();
    let mut i: usize = 0;
    while i < t.len()
        invariant
            i <= t.len(),
            ts == t@,
            ts == (if strip_ws(a@).len() == 0 {
                seq!['d', '2', '0']
            } else {
                strip_ws(a@)
            }),
            wf_tokens(out@),
            lex_from(ts, 0) == (match lex_from(ts, i as int) {
                Some(rest) => Some(out@ + rest),
                None => None::<Seq<Token>>,
            }),
        decreases t.len() - i,
    {
        let c = t[i];
        if is_op(c) {
            let tok = op_of(c);
            let ghost prev = out@;
            out.push(tok);
            proof {
                let rest_opt = lex_from(ts, i + 1 as int);
                if rest_opt is Some {
                    let rest = rest_opt.unwrap();
                    assert(prev + (seq![tok] + rest) =~= out@ + rest);
                }
                assert(forall|k: int|
                    0 <= k < out@.len() ==> #[trigger] wf_token(out@[k]));
            }
            i = i + 1;
        } else {
            let j = chunk_to(&t, i);
            proof {
                lemma_chunk_end_bounds(ts, i as int);
            }
            let mut chunk: Vec<char> = Vec::new();
            let mut k = i;
            while k < j
                invariant
                    i <= k <= j <= t.len(),
                    ts == t@,
                    chunk@ == ts.subrange(i as int, k as int),
                decreases j - k,
            {
                chunk.push(t[k]);
                proof {
                    assert(chunk@ =~= ts.subrange(i as int, k + 1 as int));
                }
                k = k + 1;
            }
            match match_chunk(&chunk) {
                Some(tok) => {
                    let ghost prev = out@;
                    out.push(tok);
                    proof {
                        let rest_opt = lex_from(ts, j as int);
                        if rest_opt is Some {
                            let rest = rest_opt.unwrap();
                            assert(prev + (seq![tok] + rest) =~= out@ + rest);
                        }
                        assert(forall|k: int|
                            0 <= k < out@.len() ==> #[trigger] wf_token(out@[k]));
                    }
                    i = j;
                },
                None => {
                    return Err(LexError::MalformedOperand);
                },
            }
        }
    }
    proof {
        assert(lex_from(ts, i as int) == Some(Seq::<Token>::empty()));
        assert(out@ + Seq::<Token>::empty() =~= out@);
    }
    // A lone trailing binary operator is a structurally degenerate split.
    if out.len() > 0 && matches!(
        out[out.len() - 1],
        Token::Add | Token::Subtract | Token::Multiply | Token::Divide,
    ) {
        return Err(LexError::MalformedOperand);
    }
    // A bare operator-constant pair gains an implicit leading 1d20.
    let two = out.len() == 2;
    let needs_default = two && matches!(
        out[0],
        Token::Add | Token::Subtract | Token::Multiply | Token::Divide,
    ) && matches!(out[1], Token::Constant(_));
    if needs_default {
        let ghost prev = out@;
        out.insert(0, Token::Dice(Dice { count: 1, sides: 20, variant: Variant::Plain }));
        proof {
            assert(out@ =~= seq![Token::Dice(default_d20())] + prev);
            assert(forall|k: int| 0 <= k < out@.len() ==> #[trigger] wf_token(out@[k]));
        }
    }
    Ok(out)
}

} // verus!
