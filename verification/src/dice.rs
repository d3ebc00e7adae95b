//! The dice model: parsing `[count]d<sides>[c|a|d]` patterns and resolving a
//! dice group to a concrete value with fresh randomness.

use vstd::prelude::*;
use vstd::string::StrSliceExecFns;

use crate::token::Dice;
use crate::token::Variant;

verus! {

/// Whether `c` is an ASCII decimal digit.
pub open spec fn is_digit_char(c: char) -> bool {
    '0' as u32 <= c as u32 && c as u32 <= '9' as u32
}

/// The numeric value of the digit `c`.
pub open spec fn digit_val(c: char) -> int {
    c as u32 - '0' as u32
}

/// Whether every character of `s` is an ASCII decimal digit.
pub open spec fn all_digits(s: Seq<char>) -> bool {
    forall|k: int| 0 <= k < s.len() ==> is_digit_char(s[k])
}

/// The value of a digit string read in base ten.
pub open spec fn digits_val(s: Seq<char>) -> int
    decreases s.len(),
{
    if s.len() == 0 {
        0
    } else {
        digits_val(s.drop_last()) * 10 + digit_val(s.last())
    }
}

/// The first position at or after `i` that holds a non-digit, or the length
/// of `s` if digits run to its end.
pub open spec fn digit_run_end(s: Seq<char>, i: int) -> int
    decreases s.len() - i,
{
    if i < 0 || i >= s.len() {
        i
    } else if is_digit_char(s[i]) {
        digit_run_end(s, i + 1)
    } else {
        i
    }
}

/// Whether `c` selects a resolution variant (case-insensitive).
pub open spec fn is_variant_char(c: char) -> bool {
    c == 'c' || c == 'a' || c == 'd' || c == 'C' || c == 'A' || c == 'D'
}

/// The variant selected by the suffix character `c`.
pub open spec fn variant_of_char(c: char) -> Variant
    recommends
        is_variant_char(c),
{
    if c == 'c' || c == 'C' {
        Variant::Crit
    } else if c == 'a' || c == 'A' {
        Variant::Advantage
    } else {
        Variant::Disadvantage
    }
}

/// The dice group written as `s`, if `s` matches the whole dice grammar
/// `[digits] 'd' digits [c|a|d]` and names a group the engine can resolve:
/// at least one die (a missing count defaults to one), at least one face,
/// and a worst-case total that fits in `i32`.
pub open spec fn spec_parse_dice(s: Seq<char>) -> Option<Dice> {
    let p = digit_run_end(s, 0);
    if p < s.len() && s[p] == 'd' {
        let q = digit_run_end(s, p + 1);
        if q > p + 1 && (q == s.len() || (q == s.len() - 1 && is_variant_char(s[q]))) {
            let count = if p == 0 {
                1
            } else {
                digits_val(s.subrange(0, p))
            };
            let sides = digits_val(s.subrange(p + 1, q));
            let v = if q == s.len() {
                Variant::Plain
            } else {
                variant_of_char(s[q])
            };
            if 1 <= count && 1 <= sides && 2 * count * sides <= i32::MAX as int {
                Some(Dice { count: count as i32, sides: sides as i32, variant: v })
            } else {
                None
            }
        } else {
            None
        }
    } else {
        None
    }
}

/// A factor of a product bounded by `i32::MAX` is itself bounded by it.
proof fn lemma_product_bounds(c: int, s: int)
    requires
        c >= 1,
        s >= 1,
        2 * c * s <= i32::MAX as int,
    ensures
        c <= i32::MAX as int,
        s <= i32::MAX as int,
{
    assert(c <= 2 * c * s && s <= 2 * c * s) by (nonlinear_arith)
        requires
            c >= 1 && s >= 1,
    ;
}

/// A product with a factor beyond `i32::MAX` is itself beyond it.
proof fn lemma_product_overflows(c: int, s: int)
    requires
        c >= 1,
        s >= 1,
        c > i32::MAX as int || s > i32::MAX as int,
    ensures
        2 * c * s > i32::MAX as int,
{
    assert(c <= 2 * c * s && s <= 2 * c * s) by (nonlinear_arith)
        requires
            c >= 1 && s >= 1,
    ;
}

/// Every group the dice grammar accepts is well-formed.
pub proof fn lemma_parse_dice_wf(s: Seq<char>)
    ensures
        match spec_parse_dice(s) {
            Some(d) => d.wf(),
            None => true,
        },
{
    let p = digit_run_end(s, 0);
    if p < s.len() && s[p] == 'd' {
        let q = digit_run_end(s, p + 1);
        if q > p + 1 && (q == s.len() || (q == s.len() - 1 && is_variant_char(s[q]))) {
            let count = if p == 0 {
                1
            } else {
                digits_val(s.subrange(0, p))
            };
            let sides = digits_val(s.subrange(p + 1, q));
            if 1 <= count && 1 <= sides && 2 * count * sides <= i32::MAX as int {
                lemma_product_bounds(count, sides);
            }
        }
    }
}

/// The value of a digit string is never negative.
proof fn lemma_digits_val_nonneg(s: Seq<char>)
    requires
        all_digits(s),
    ensures
        digits_val(s) >= 0,
    decreases s.len(),
{
    if s.len() > 0 {
        assert(all_digits(s.drop_last()));
        lemma_digits_val_nonneg(s.drop_last());
    }
}

/// A digit-string prefix never has a larger value than the whole string.
proof fn lemma_digits_val_prefix(s: Seq<char>, k: int)
    requires
        all_digits(s),
        0 <= k <= s.len(),
    ensures
        digits_val(s.subrange(0, k)) <= digits_val(s),
    decreases s.len() - k,
{
    if k < s.len() {
        lemma_digits_val_prefix(s, k + 1);
        let a = s.subrange(0, k);
        let b = s.subrange(0, k + 1);
        assert(b.drop_last() =~= a);
        assert(all_digits(a));
        lemma_digits_val_nonneg(a);
        assert(digits_val(b) == digits_val(a) * 10 + digit_val(b.last()));
        assert(digits_val(a) * 10 >= digits_val(a)) by (nonlinear_arith)
            requires
                digits_val(a) >= 0,
        ;
    } else {
        assert(s.subrange(0, k) =~= s);
    }
}

pub(crate) fn is_digit(c: char) -> (b: bool)
    ensures
        b == is_digit_char(c),
{
    let u = c as u32;
    48 <= u && u <= 57
}

fn digit_run_to(v: &Vec<char>, i: usize) -> (j: usize)
    requires
        i <= v.len(),
    ensures
        j as int == digit_run_end(v@, i as int),
        i <= j <= v.len(),
{
    let mut j = i;
    while j < v.len() && is_digit(v[j])
        invariant
            i <= j <= v.len(),
            digit_run_end(v@, i as int) == digit_run_end(v@, j as int),
        decreases v.len() - j,
    {
        j = j + 1;
    }
    j
}

/// The value of the digit run `v[from..to]`, or `None` if it exceeds
/// `i32::MAX`.
pub(crate) fn digits_value(v: &Vec<char>, from: usize, to: usize) -> (r: Option<i32>)
    requires
        from <= to <= v.len(),
        all_digits(v@.subrange(from as int, to as int)),
    ensures
        match r {
            Some(x) => x as int == digits_val(v@.subrange(from as int, to as int)) && x >= 0,
            None => digits_val(v@.subrange(from as int, to as int)) > i32::MAX as int,
        },
{
    let ghost s = v@.subrange(from as int, to as int);
    let mut acc: i64 = 0;
    let mut k = from;
    while k < to
        invariant
            from <= k <= to <= v.len(),
            all_digits(v@.subrange(from as int, to as int)),
            s == v@.subrange(from as int, to as int),
            0 <= acc <= i32::MAX as int,
            acc as int == digits_val(v@.subrange(from as int, k as int)),
        decreases to - k,
    {
        let c = v[k];
        proof {
            let b = v@.subrange(from as int, k + 1 as int);
            assert(b.drop_last() =~= v@.subrange(from as int, k as int));
            assert(b.last() == v@[k as int]);
            assert(s[k - from as int] == v@[k as int]);
            assert(is_digit_char(v@[k as int]));
        }
        let d = (c as u32) - 48;
        let next: i64 = acc * 10 + (d as i64);
        if next > 2147483647i64 {
            proof {
                assert(next as int == digits_val(v@.subrange(from as int, k + 1 as int)));
                lemma_digits_val_prefix(s, k + 1 - from as int);
                assert(s.subrange(0, k + 1 - from as int) =~= v@.subrange(
                    from as int,
                    k + 1 as int,
                ));
            }
            return None;
        }
        acc = next;
        k = k + 1;
    }
    proof {
        assert(v@.subrange(from as int, k as int) =~= s);
    }
    Some(acc as i32)
}

/// Parses a whole character sequence as a dice pattern.
pub(crate) fn dice_of_chars(v: &Vec<char>) -> (r: Option<Dice>)
    ensures
        r == spec_parse_dice(v@),
        match r {
            Some(d) => d.wf(),
            None => true,
        },
{
    proof {
        lemma_parse_dice_wf(v@);
    }
    let p = digit_run_to(v, 0);
    if !(p < v.len() && v[p] == 'd') {
        return None;
    }
    let q = digit_run_to(v, p + 1);
    if !(q > p + 1 && (q == v.len() || (q == v.len() - 1 && is_variant(v[q])))) {
        return None;
    }
    proof {
        lemma_digit_run_digits(v@, 0, p as int);
        lemma_digit_run_digits(v@, p + 1 as int, q as int);
        lemma_digits_val_nonneg(v@.subrange(0, p as int));
        lemma_digits_val_nonneg(v@.subrange(p + 1 as int, q as int));
    }
    let ghost count_spec: int = if p == 0 {
        1
    } else {
        digits_val(v@.subrange(0, p as int))
    };
    let ghost sides_spec: int = digits_val(v@.subrange(p + 1 as int, q as int));
    let count: i32 = if p == 0 {
        1
    } else {
        match digits_value(v, 0, p) {
            Some(x) => x,
            None => {
                proof {
                    if sides_spec >= 1 {
                        lemma_product_overflows(count_spec, sides_spec);
                    }
                }
                return None;
            },
        }
    };
    let sides: i32 = match digits_value(v, p + 1, q) {
        Some(x) => x,
        None => {
            proof {
                if count_spec >= 1 {
                    lemma_product_overflows(count_spec, sides_spec);
                }
            }
            return None;
        },
    };
    let variant = if q == v.len() {
        Variant::Plain
    } else {
        variant_of(v[q])
    };
    if 1 <= count && 1 <= sides {
        proof {
            assert((count as i64) * (sides as i64) <= 4611686014132420609) by (nonlinear_arith)
                requires
                    1 <= count <= 2147483647 && 1 <= sides <= 2147483647,
            ;
            assert(2 * (count as int) * (sides as int) == 2 * ((count as int) * (sides as int)))
                by (nonlinear_arith);
        }
        let prod: i64 = (count as i64) * (sides as i64);
        if 2 * prod <= 2147483647i64 {
            Some(Dice { count, sides, variant })
        } else {
            None
        }
    } else {
        None
    }
}

/// Every position a digit run passes over holds a digit.
proof fn lemma_digit_run_digits(s: Seq<char>, i: int, j: int)
    requires
        0 <= i <= s.len(),
        j == digit_run_end(s, i),
    ensures
        i <= j <= s.len(),
        all_digits(s.subrange(i, j)),
    decreases s.len() - i,
{
    if i < s.len() && is_digit_char(s[i]) {
        lemma_digit_run_digits(s, i + 1, digit_run_end(s, i + 1));
        assert forall|k: int| 0 <= k < j - i implies is_digit_char(s.subrange(i, j)[k]) by {
            if k > 0 {
                assert(s.subrange(i + 1, j)[k - 1] == s[i + k]);
                assert(is_digit_char(s.subrange(i + 1, j)[k - 1]));
            }
        }
    } else {
        assert(s.subrange(i, j) =~= Seq::<char>::empty());
    }
}

/// Builds the character sequence of a string slice.
pub fn chars_of(s: &str) -> (r: Vec<char>)
    ensures
        r@ == s@,
{
    let n = s.unicode_len();
    let mut r: Vec<char> = Vec::new();
    let mut i: usize = 0;
    while i < n
        invariant
            i <= n,
            n == s@.len(),
            r@ == s@.subrange(0, i as int),
        decreases n - i,
    {
        r.push(s.get_char(i));
        proof {
            assert(r@ =~= s@.subrange(0, i + 1 as int));
        }
        i = i + 1;
    }
    proof {
        assert(r@ =~= s@);
    }
    r
}

/// The sum of a sequence of draws.
pub open spec fn sum_of(s: Seq<i32>) -> int
    decreases s.len(),
{
    if s.len() == 0 {
        0
    } else {
        sum_of(s.drop_last()) + s.last()
    }
}

/// A sequence of values each within `[lo, hi]` sums to within
/// `[len * lo, len * hi]`.
pub proof fn lemma_sum_bounds(s: Seq<i32>, lo: int, hi: int)
    requires
        forall|k: int| 0 <= k < s.len() ==> lo <= #[trigger] s[k] <= hi,
    ensures
        s.len() * lo <= sum_of(s) <= s.len() * hi,
    decreases s.len(),
{
    if s.len() > 0 {
        lemma_sum_bounds(s.drop_last(), lo, hi);
        assert((s.len() - 1) * lo + lo == s.len() * lo) by (nonlinear_arith);
        assert((s.len() - 1) * hi + hi == s.len() * hi) by (nonlinear_arith);
    }
}

/// The resolved value of a dice group whose two roll-set sums are `r1` and
/// `r2` (a `Plain` group draws only the first).
pub open spec fn combined(v: Variant, r1: int, r2: int) -> int {
    match v {
        Variant::Plain => r1,
        Variant::Crit => r1 + r2,
        Variant::Advantage => if r1 >= r2 {
            r1
        } else {
            r2
        },
        Variant::Disadvantage => if r1 <= r2 {
            r1
        } else {
            r2
        },
    }
}

/// The range a resolved value of `d` can fall in.
pub open spec fn resolution_possible(d: Dice, v: int) -> bool {
    match d.variant {
        Variant::Crit => 2 * d.count <= v <= 2 * (d.count as int) * (d.sides as int),
        _ => d.count <= v <= (d.count as int) * (d.sides as int),
    }
}

/// One complete resolution of a dice group: the individual die faces of each
/// roll-set drawn (so a caller can display them), and the combined value.
pub struct RollOutcome {
    /// The faces of the first roll-set, one entry per die.
    pub first: Vec<i32>,
    /// The faces of the second roll-set; drawn only by non-`Plain` variants.
    pub second: Option<Vec<i32>>,
    /// The value the group resolved to.
    pub value: i32,
}

/// Whether `o` is a resolution that `d` can produce: the right number of
/// roll-sets, every face within the die, and the value combined per variant.
pub open spec fn roll_valid(d: Dice, o: RollOutcome) -> bool {
    &&& o.first@.len() == d.count
    &&& (forall|k: int| 0 <= k < o.first@.len() ==> 1 <= #[trigger] o.first@[k] <= d.sides)
    &&& match o.second {
        None => d.variant == Variant::Plain && o.value == sum_of(o.first@),
        Some(f2) => {
            &&& d.variant != Variant::Plain
            &&& f2@.len() == d.count
            &&& (forall|k: int| 0 <= k < f2@.len() ==> 1 <= #[trigger] f2@[k] <= d.sides)
            &&& o.value == combined(d.variant, sum_of(o.first@), sum_of(f2@))
        },
    }
}

/// Relies on rand: `thread_rng().gen_range(1..=sides)` draws a uniformly
/// random value in the inclusive range; `sides >= 1` keeps the range
/// nonempty, so the call does not panic.
#[verifier::external_body]
fn roll_die(sides: i32) -> (r: i32)
    requires
        1 <= sides,
    ensures
        1 <= r <= sides,
{
    rand::Rng::gen_range(&mut rand::thread_rng(), 1..=sides)
}

/// Draws one roll-set: `count` dice of `sides` faces, each a fresh draw.
fn roll_set(count: i32, sides: i32) -> (r: (Vec<i32>, i32))
    requires
        1 <= count,
        1 <= sides,
        (count as int) * (sides as int) <= i32::MAX as int,
    ensures
        r.0@.len() == count,
        forall|k: int| 0 <= k < r.0@.len() ==> 1 <= #[trigger] r.0@[k] <= sides,
        r.1 as int == sum_of(r.0@),
        count <= r.1 as int <= (count as int) * (sides as int),
{
    let mut faces: Vec<i32> = Vec::new();
    let mut total: i32 = 0;
    let mut i: i32 = 0;
    while i < count
        invariant
            0 <= i <= count,
            1 <= sides,
            (count as int) * (sides as int) <= i32::MAX as int,
            faces@.len() == i,
            forall|k: int| 0 <= k < faces@.len() ==> 1 <= #[trigger] faces@[k] <= sides,
            total as int == sum_of(faces@),
            i <= total as int <= (i as int) * (sides as int),
        decreases count - i,
    {
        proof {
            assert((i + 1) * (sides as int) <= (count as int) * (sides as int)) by (
            nonlinear_arith)
                requires
                    i + 1 <= count as int && sides >= 1,
            ;
            assert((i as int) * (sides as int) + sides == (i + 1) * (sides as int)) by (
            nonlinear_arith);
        }
        let face = roll_die(sides);
        let ghost prev = faces@;
        faces.push(face);
        proof {
            assert(faces@.drop_last() =~= prev);
        }
        total = total + face;
        i = i + 1;
    }
    (faces, total)
}

impl Dice {
    /// Checks at run time whether this group is well-formed.
    pub fn is_wf(&self) -> (b: bool)
        ensures
            b == self.wf(),
    {
        if 1 <= self.count && 1 <= self.sides {
            proof {
                assert((self.count as i64) * (self.sides as i64) <= 4611686014132420609) by (
                nonlinear_arith)
                    requires
                        1 <= self.count <= 2147483647 && 1 <= self.sides <= 2147483647,
                ;
                assert(2 * (self.count as int) * (self.sides as int) == 2 * ((self.count as int) * (
                self.sides as int))) by (nonlinear_arith);
            }
            let prod: i64 = (self.count as i64) * (self.sides as i64);
            2 * prod <= 2147483647i64
        } else {
            false
        }
    }

    /// Parses `a` as a dice pattern per the grammar
    /// `[count] 'd' sides [c|a|d]`, the suffix case-insensitive.
    pub fn from_string(a: &str) -> (r: Option<Dice>)
        ensures
            r == spec_parse_dice(a@),
            match r {
                Some(d) => d.wf(),
                None => true,
            },
    {
        let chars = chars_of(a);
        dice_of_chars(&chars)
    }

    /// Resolves this group with fresh randomness: one roll-set for `Plain`,
    /// two independent roll-sets combined per variant otherwise.  The value
    /// always lies within [`resolution_possible`]; in particular a `Plain`
    /// group of `count` dice with `sides` faces resolves to a value in
    /// `[count, count * sides]`.
    pub fn roll(&self) -> (r: RollOutcome)
        requires
            self.wf(),
        ensures
            roll_valid(*self, r),
            resolution_possible(*self, r.value as int),
    {
        proof {
            assert((self.count as int) * (self.sides as int) <= i32::MAX as int) by (
            nonlinear_arith)
                requires
                    1 <= self.count && 1 <= self.sides && 2 * (self.count as int) * (
                    self.sides as int) <= i32::MAX as int,
            ;
        }
        let (first, sum1) = roll_set(self.count, self.sides);
        if let Variant::Plain = self.variant {
            return RollOutcome { first, second: None, value: sum1 };
        }
        let (second, sum2) = roll_set(self.count, self.sides);
        proof {
            assert(2 * (self.count as int) * (self.sides as int) == (self.count as int) * (
            self.sides as int) + (self.count as int) * (self.sides as int)) by (nonlinear_arith);
        }
        let value: i32 = match self.variant {
            Variant::Crit => sum1 + sum2,
            Variant::Advantage => if sum1 >= sum2 {
                sum1
            } else {
                sum2
            },
            _ => if sum1 <= sum2 {
                sum1
            } else {
                sum2
            },
        };
        RollOutcome { first, second: Some(second), value }
    }
}

/// Law: every outcome a well-formed dice group can record resolves to a
/// value within the group's possible range; in particular a `Plain` group of
/// `count` dice with `sides` faces resolves within `[count, count * sides]`.
pub proof fn lemma_roll_value_in_range(d: Dice, o: RollOutcome)
    requires
        d.wf(),
        roll_valid(d, o),
    ensures
        resolution_possible(d, o.value as int),
{
    lemma_sum_bounds(o.first@, 1, d.sides as int);
    match o.second {
        None => {
        },
        Some(f2) => {
            lemma_sum_bounds(f2@, 1, d.sides as int);
            assert(2 * (d.count as int) * (d.sides as int) == (d.count as int) * (d.sides as int)
                + (d.count as int) * (d.sides as int)) by (nonlinear_arith);
        },
    }
}

/// Law: for the same two roll-set sums, an `Advantage` resolution is never
/// below the `Disadvantage` resolution.
pub proof fn lemma_advantage_ge_disadvantage(r1: int, r2: int)
    ensures
        combined(Variant::Advantage, r1, r2) >= combined(Variant::Disadvantage, r1, r2),
{
}

/// Law: a `Crit` resolution is the sum of its two roll-set sums, each of
/// which is exactly what a `Plain` resolution yields for that roll-set; the
/// claim that the two draws are independent and identically distributed is a
/// property of the random source, outside what these contracts state.
pub proof fn lemma_crit_doubles_plain(r1: int, r2: int)
    ensures
        combined(Variant::Crit, r1, r2) == combined(Variant::Plain, r1, r2) + combined(
            Variant::Plain,
            r2,
            r1,
        ),
{
}

fn is_variant(c: char) -> (b: bool)
    ensures
        b == is_variant_char(c),
{
    c == 'c' || c == 'a' || c == 'd' || c == 'C' || c == 'A' || c == 'D'
}

fn variant_of(c: char) -> (r: Variant)
    ensures
        r == variant_of_char(c),
{
    if c == 'c' || c == 'C' {
        Variant::Crit
    } else if c == 'a' || c == 'A' {
        Variant::Advantage
    } else {
        Variant::Disadvantage
    }
}

} // verus!
