//! Resolution of dice groups: the one randomized stage.
//!
//! A single left-to-right walk replaces every dice-group token with the
//! constant it resolves to, drawing fresh randomness per group; every other
//! token passes through unchanged.  The walk also returns a log of each
//! resolution — the position, the group, and the faces drawn — so a caller
//! can display the individual dice without that display having any bearing
//! on the numeric result.

use vstd::prelude::*;

use crate::dice::resolution_possible;
use crate::dice::roll_valid;
use crate::dice::RollOutcome;
use crate::token::wf_token;
use crate::token::wf_tokens;
use crate::token::Dice;
use crate::token::Token;

verus! {

/// One resolved dice group: where it stood, what it was, and what it drew.
pub struct RollLog {
    /// The position of the dice-group token in the input sequence.
    pub pos: usize,
    /// The dice group that stood there.
    pub dice: Dice,
    /// The roll-sets drawn and the value the group resolved to.
    pub outcome: RollOutcome,
}

/// Whether `ts` is free of dice-group tokens.
pub open spec fn no_dice(ts: Seq<Token>) -> bool {
    forall|k: int| 0 <= k < ts.len() ==> !((#[trigger] ts[k]) is Dice)
}

/// Whether log entry `l` correctly records one resolution that turned
/// `orig` into `res`.
pub open spec fn log_matches(orig: Seq<Token>, res: Seq<Token>, l: RollLog) -> bool {
    &&& l.pos < orig.len()
    &&& orig[l.pos as int] == Token::Dice(l.dice)
    &&& res[l.pos as int] == Token::Constant(l.outcome.value)
    &&& roll_valid(l.dice, l.outcome)
    &&& resolution_possible(l.dice, l.outcome.value as int)
}

/// Replaces every dice-group token with the constant it resolves to, and
/// logs each resolution.  Every other token passes through unchanged, so a
/// sequence already free of dice groups comes back exactly as it was.
pub fn roll_expr(a: Vec<Token>) -> (r: (Vec<Token>, Vec<RollLog>))
    requires
        wf_tokens(a@),
    ensures
        r.0@.len() == a@.len(),
        forall|k: int| 0 <= k < a@.len() && !((#[trigger] a@[k]) is Dice) ==> r.0@[k] == a@[k],
        forall|k: int| 0 <= k < a@.len() && (#[trigger] a@[k]) is Dice ==> r.0@[k] is Constant,
        no_dice(r.0@),
        no_dice(a@) ==> r.0@ == a@,
        forall|m: int| 0 <= m < r.1@.len() ==> log_matches(a@, r.0@, #[trigger] r.1@[m]),
        forall|m1: int, m2: int|
            0 <= m1 < m2 < r.1@.len() ==> (#[trigger] r.1@[m1]).pos < (#[trigger] r.1@[m2]).pos,
        forall|k: int|
            0 <= k < a@.len() && (#[trigger] a@[k]) is Dice ==> exists|m: int|
                0 <= m < r.1@.len() && (#[trigger] r.1@[m]).pos == k,
{
    let mut out: Vec<Token> = Vec::new();
    let mut logs: Vec<RollLog> = Vec::new();
    let mut i: usize = 0;
    while i < a.len()
        invariant
            i <= a.len(),
            wf_tokens(a@),
            out@.len() == i,
            forall|k: int| 0 <= k < i && !((#[trigger] a@[k]) is Dice) ==> out@[k] == a@[k],
            forall|k: int| 0 <= k < i && (#[trigger] a@[k]) is Dice ==> out@[k] is Constant,
            forall|m: int| 0 <= m < logs@.len() ==> log_matches(a@, out@, #[trigger] logs@[m]),
            forall|m: int| 0 <= m < logs@.len() ==> (#[trigger] logs@[m]).pos < i,
            forall|m1: int, m2: int|
                0 <= m1 < m2 < logs@.len() ==> (#[trigger] logs@[m1]).pos < (
                #[trigger] logs@[m2]).pos,
            forall|k: int|
                0 <= k < i && (#[trigger] a@[k]) is Dice ==> exists|m: int|
                    0 <= m < logs@.len() && (#[trigger] logs@[m]).pos == k,
        decreases a.len() - i,
    {
        match a[i] {
            Token::Dice(d) => {
                proof {
                    assert(wf_token(a@[i as int]));
                }
                let outcome = d.roll();
                let ghost prev_out = out@;
                let ghost prev_logs = logs@;
                out.push(Token::Constant(outcome.value));
                logs.push(RollLog { pos: i, dice: d, outcome });
                proof {
                    assert(forall|m: int|
                        0 <= m < prev_logs.len() ==> logs@[m] == #[trigger] prev_logs[m]);
                    assert(forall|k: int|
                        0 <= k < prev_out.len() ==> out@[k] == #[trigger] prev_out[k]);
                    assert((logs@[logs@.len() - 1]).pos == i);
                }
            },
            t => {
                out.push(t);
                proof {
                    assert(out@[i as int] == a@[i as int]);
                }
            },
        }
        i = i + 1;
    }
    proof {
        assert forall|k: int| 0 <= k < out@.len() implies !((#[trigger] out@[k]) is Dice) by {
            if a@[k] is Dice {
            } else {
            }
        }
        if no_dice(a@) {
            assert(out@ =~= a@);
        }
    }
    (out, logs)
}

/// Checks at run time that every dice group in `a` is well-formed, as
/// [`roll_expr`] requires and as `tokenize` always produces.
pub fn tokens_wf(a: &Vec<Token>) -> (r: bool)
    ensures
        r == wf_tokens(a@),
{
    let mut i: usize = 0;
    while i < a.len()
        invariant
            i <= a.len(),
            forall|k: int| 0 <= k < i ==> #[trigger] wf_token(a@[k]),
        decreases a.len() - i,
    {
        if let Token::Dice(d) = a[i] {
            if !d.is_wf() {
                proof {
                    assert(!wf_token(a@[i as int]));
                }
                return false;
            }
        }
        proof {
            assert(wf_token(a@[i as int]));
        }
        i = i + 1;
    }
    true
}

} // verus!
