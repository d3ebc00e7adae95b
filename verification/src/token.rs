//! Shared data model: dice groups, tokens, and the error taxonomy.

use vstd::prelude::*;

verus! {

/// How the two roll-sets of a dice group are combined.
///
/// `Plain` draws one roll-set and takes its sum; the other variants draw two
/// independent roll-sets of the same group and combine their sums: `Crit`
/// adds them, `Advantage` keeps the larger, `Disadvantage` keeps the smaller.
#[derive(Clone, Copy, Debug, PartialEq, Eq, Structural)]
pub enum Variant {
    Plain,
    Crit,
    Advantage,
    Disadvantage,
}

/// A group of `count` dice with `sides` faces each, resolved per `variant`.
///
/// Well-formed groups (see [`Dice::wf`]) have at least one die, at least one
/// face per die, and a worst-case total (two roll-sets, every die at its
/// maximum) that fits in `i32`; the lexer only ever produces such groups.
#[derive(Clone, Copy, Debug, PartialEq, Eq, Structural)]
pub struct Dice {
    pub count: i32,
    pub sides: i32,
    pub variant: Variant,
}

impl Dice {
    /// A dice group the engine can resolve without overflow.
    pub open spec fn wf(self) -> bool {
        &&& 1 <= self.count
        &&& 1 <= self.sides
        &&& 2 * (self.count as int) * (self.sides as int) <= i32::MAX as int
    }
}

/// One element of the intermediate representation shared by the lexer, the
/// resolver, and the evaluator.
#[derive(Clone, Copy, Debug, PartialEq, Eq, Structural)]
pub enum Token {
    Dice(Dice),
    Constant(i32),
    Add,
    Subtract,
    Multiply,
    Divide,
    LeftParen,
    RightParen,
}

/// Failures of tokenization.
#[derive(Clone, Copy, Debug, PartialEq, Eq, Structural)]
pub enum LexError {
    /// A chunk between operators is neither a dice pattern nor an integer
    /// literal that fits in `i32`.
    MalformedOperand,
}

/// Failures of evaluation.
#[derive(Clone, Copy, Debug, PartialEq, Eq, Structural)]
pub enum EvalError {
    /// A `LeftParen` has no matching `RightParen` before the sequence ends.
    UnbalancedParens,
    /// The right operand of a division is zero.
    DivisionByZero,
    /// The sequence does not reduce to a single constant (malformed token
    /// adjacency, an unresolved dice group, or a stray `RightParen`).
    DidNotSimplify,
    /// An intermediate value fell outside the `i32` range.
    Overflow,
}

impl Token {
    /// The payload of a `Constant` token; `None` on every other variant.
    pub fn constant(self) -> (r: Option<i32>)
        ensures
            r == (match self {
                Token::Constant(c) => Some(c),
                _ => None::<i32>,
            }),
    {
        if let Token::Constant(c) = self {
            Some(c)
        } else {
            None
        }
    }
}

/// Whether `t` carries a well-formed dice group (trivially true of every
/// other token).
pub open spec fn wf_token(t: Token) -> bool {
    match t {
        Token::Dice(d) => d.wf(),
        _ => true,
    }
}

/// Whether every dice group in `ts` is well-formed.
pub open spec fn wf_tokens(ts: Seq<Token>) -> bool {
    forall|k: int| 0 <= k < ts.len() ==> #[trigger] wf_token(ts[k])
}

/// The one-letter suffix that selects `v` in the written dice notation.
pub open spec fn variant_suffix(v: Variant) -> Seq<char> {
    match v {
        Variant::Plain => Seq::<char>::empty(),
        Variant::Crit => seq!['c'],
        Variant::Advantage => seq!['a'],
        Variant::Disadvantage => seq!['d'],
    }
}

impl Variant {
    /// The notation suffix of this variant, e.g. `"a"` for `Advantage`.
    pub fn suffix(&self) -> (r: &'static str)
        ensures
            r@ == variant_suffix(*self),
    {
        match self {
            Variant::Plain => {
                let s = "";
                proof {
                    reveal_strlit("");
                    assert(s@ =~= variant_suffix(Variant::Plain));
                }
                s
            },
            Variant::Crit => {
                let s = "c";
                proof {
                    reveal_strlit("c");
                    assert(s@ =~= variant_suffix(Variant::Crit));
                }
                s
            },
            Variant::Advantage => {
                let s = "a";
                proof {
                    reveal_strlit("a");
                    assert(s@ =~= variant_suffix(Variant::Advantage));
                }
                s
            },
            Variant::Disadvantage => {
                let s = "d";
                proof {
                    reveal_strlit("d");
                    assert(s@ =~= variant_suffix(Variant::Disadvantage));
                }
                s
            },
        }
    }
}

} // verus!
