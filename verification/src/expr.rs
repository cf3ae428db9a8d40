//! The expression evaluator used by `set` and `if` lines.
//!
//! An expression is a line of infix syntax over numbers and variables:
//! `score + 1`, `(hp <= 0) or shield`, `not seen_intro`.  Evaluation never
//! fails; malformed input degrades to a best-effort result, and a missing
//! operand or unknown variable counts as zero.  Numbers are fixed-point
//! (see [`crate::fixed`]): comparisons and boolean operators yield the
//! fixed-point `1.0` ([`crate::fixed::FX_SCALE`]) or `0`.
//!
//! The algorithm is the classic two-stack operator-precedence pass: a value
//! stack and an operator stack, processed left to right.  The spec functions
//! here state that machine exactly, and every executable step is proved
//! against them.

use vstd::prelude::*;
use vstd::string::StrSliceExecFns;
use crate::fixed::{
    FX_SCALE, fx_add, fx_add_spec, fx_div, fx_div_spec, fx_mul, fx_mul_spec, fx_rem, fx_rem_spec,
    fx_sub, fx_sub_spec, sat_i64,
};
use crate::store::{Value, VarStore};
use crate::strutil::str_eq;

verus! {

/// The operators of the expression language.
///
/// `Assign` is the lone `=` character: the evaluator does not assign, but the
/// tokenizer can meet a bare `=`, and the evaluator treats it as an operator
/// it knows nothing about (lowest precedence, result zero).
#[derive(Clone, Copy, Debug, PartialEq, Eq, Structural)]
pub enum Op {
    Or,
    And,
    Eq,
    Gt,
    Lt,
    Ge,
    Le,
    Add,
    Sub,
    Mul,
    Div,
    Rem,
    Not,
    Assign,
}

/// Binding strength, low to high: `or` < `and` < comparisons < additive <
/// multiplicative < `not`.  The unknown `=` binds weakest of all.
pub open spec fn op_precedence(op: Op) -> int {
    match op {
        Op::Or => 1,
        Op::And => 2,
        Op::Eq | Op::Gt | Op::Lt | Op::Ge | Op::Le => 3,
        Op::Add | Op::Sub => 4,
        Op::Mul | Op::Div | Op::Rem => 5,
        Op::Not => 6,
        Op::Assign => 0,
    }
}

/// Only the unary `not` is right-associative.
pub open spec fn op_right_assoc(op: Op) -> bool {
    op == Op::Not
}

/// The operator written as the word `w`, if any.
pub open spec fn op_of_word(w: Seq<char>) -> Option<Op> {
    if w == "or"@ {
        Some(Op::Or)
    } else if w == "and"@ {
        Some(Op::And)
    } else if w == "=="@ {
        Some(Op::Eq)
    } else if w == ">"@ {
        Some(Op::Gt)
    } else if w == "<"@ {
        Some(Op::Lt)
    } else if w == ">="@ {
        Some(Op::Ge)
    } else if w == "<="@ {
        Some(Op::Le)
    } else if w == "+"@ {
        Some(Op::Add)
    } else if w == "-"@ {
        Some(Op::Sub)
    } else if w == "*"@ {
        Some(Op::Mul)
    } else if w == "/"@ {
        Some(Op::Div)
    } else if w == "%"@ {
        Some(Op::Rem)
    } else if w == "not"@ {
        Some(Op::Not)
    } else if w == "="@ {
        Some(Op::Assign)
    } else {
        None
    }
}

/// Binding strength of the operator written `op`; unknown words bind at 0.
pub fn precedence(op: &str) -> (r: i32)
    ensures
        r as int == match op_of_word(op@) {
            Some(k) => op_precedence(k),
            None => 0,
        },
{
    if str_eq(op, "or") {
        1
    } else if str_eq(op, "and") {
        2
    } else if str_eq(op, "==") || str_eq(op, ">") || str_eq(op, "<") || str_eq(op, ">=")
        || str_eq(op, "<=") {
        3
    } else if str_eq(op, "+") || str_eq(op, "-") {
        4
    } else if str_eq(op, "*") || str_eq(op, "/") || str_eq(op, "%") {
        5
    } else if str_eq(op, "not") {
        6
    } else {
        0
    }
}

/// Whether the operator written `op` is right-associative.
pub fn is_right_associative(op: &str) -> (r: bool)
    ensures
        r == (op@ == "not"@),
{
    str_eq(op, "not")
}

/// Result of a binary operator on fixed-point operands.  Comparisons and
/// boolean operators yield the fixed-point one or zero; equality is exact at
/// fixed-point resolution, far below any written literal's precision.
pub open spec fn apply_op_spec(a: int, b: int, op: Op) -> int {
    match op {
        Op::Add => fx_add_spec(a, b),
        Op::Sub => fx_sub_spec(a, b),
        Op::Mul => fx_mul_spec(a, b),
        Op::Div => fx_div_spec(a, b),
        Op::Rem => fx_rem_spec(a, b),
        Op::Eq => if a == b { FX_SCALE as int } else { 0 },
        Op::Gt => if a > b { FX_SCALE as int } else { 0 },
        Op::Lt => if a < b { FX_SCALE as int } else { 0 },
        Op::Ge => if a >= b { FX_SCALE as int } else { 0 },
        Op::Le => if a <= b { FX_SCALE as int } else { 0 },
        Op::And => if a != 0 && b != 0 { FX_SCALE as int } else { 0 },
        Op::Or => if a != 0 || b != 0 { FX_SCALE as int } else { 0 },
        Op::Not | Op::Assign => 0,
    }
}

/// Result of a unary operator: `not` flips zero and nonzero; any other
/// operator leaves the operand alone.
pub open spec fn apply_unary_spec(a: int, op: Op) -> int {
    if op == Op::Not {
        if a == 0 {
            FX_SCALE as int
        } else {
            0
        }
    } else {
        a
    }
}

/// Apply a binary operator.
pub fn apply_op(a: i64, b: i64, op: Op) -> (r: i64)
    ensures
        r as int == apply_op_spec(a as int, b as int, op),
{
    match op {
        Op::Add => fx_add(a, b),
        Op::Sub => fx_sub(a, b),
        Op::Mul => fx_mul(a, b),
        Op::Div => fx_div(a, b),
        Op::Rem => fx_rem(a, b),
        Op::Eq => if a == b { FX_SCALE } else { 0 },
        Op::Gt => if a > b { FX_SCALE } else { 0 },
        Op::Lt => if a < b { FX_SCALE } else { 0 },
        Op::Ge => if a >= b { FX_SCALE } else { 0 },
        Op::Le => if a <= b { FX_SCALE } else { 0 },
        Op::And => if a != 0 && b != 0 { FX_SCALE } else { 0 },
        Op::Or => if a != 0 || b != 0 { FX_SCALE } else { 0 },
        Op::Not | Op::Assign => 0,
    }
}

/// Apply a unary operator.
pub fn apply_unary(a: i64, op: Op) -> (r: i64)
    ensures
        r as int == apply_unary_spec(a as int, op),
{
    match op {
        Op::Not => if a == 0 { FX_SCALE } else { 0 },
        _ => a,
    }
}

/// Coerce a stored value to a fixed-point number: integers scale up
/// (saturating), booleans become one or zero, text reads as zero.
pub open spec fn coerce_value(v: Value) -> int {
    match v {
        Value::Int(i) => sat_i64(i * FX_SCALE),
        Value::Num(x) => x as int,
        Value::Bool(b) => if b { FX_SCALE as int } else { 0 },
        Value::Text(_) => 0,
    }
}

/// A variable read: missing names coerce to zero.
pub open spec fn lookup_var(vars: Map<Seq<char>, Value>, name: Seq<char>) -> int {
    if vars.contains_key(name) {
        coerce_value(vars[name])
    } else {
        0
    }
}

/// Decimal digit.
pub open spec fn is_digit(c: char) -> bool {
    48 <= c as u32 <= 57
}

/// Numeric value of a digit character.
pub open spec fn digit_val(c: char) -> int {
    c as u32 - 48
}

/// Every character is a decimal digit.
pub open spec fn all_digits(s: Seq<char>) -> bool {
    forall|i: int| 0 <= i < s.len() ==> is_digit(#[trigger] s[i])
}

/// The integer a run of digits denotes; the empty run denotes zero.
pub open spec fn digits_int(s: Seq<char>) -> int
    decreases s.len(),
{
    if s.len() == 0 {
        0
    } else {
        digits_int(s.drop_last()) * 10 + digit_val(s.last())
    }
}

/// A written number: digits, with at most one point somewhere among them,
/// and at least one digit.  (`12`, `3.5`, `.5` and `5.` qualify; `.`, `1e3`
/// or a signed literal do not — the tokenizer splits `+` and `-` off as
/// operators before a word is ever classified.)
pub open spec fn is_number_lit(s: Seq<char>) -> bool {
    match crate::strutil::spec_find_first(s, seq!['.']) {
        None => s.len() > 0 && all_digits(s),
        Some(k) => all_digits(s.subrange(0, k)) && all_digits(
            s.subrange(k + 1, s.len() as int),
        ) && s.len() > 1,
    }
}

/// Fixed-point value of the fractional digits: the first six count, a
/// millionth apiece at the last place; anything finer is truncated.
pub open spec fn frac6(s: Seq<char>) -> int {
    if s.len() == 0 {
        0
    } else if s.len() == 1 {
        digits_int(s) * 100000
    } else if s.len() == 2 {
        digits_int(s) * 10000
    } else if s.len() == 3 {
        digits_int(s) * 1000
    } else if s.len() == 4 {
        digits_int(s) * 100
    } else if s.len() == 5 {
        digits_int(s) * 10
    } else {
        digits_int(s.subrange(0, 6))
    }
}

/// Fixed-point value of a written number, saturated into the `i64` range.
pub open spec fn lit_value(s: Seq<char>) -> int {
    match crate::strutil::spec_find_first(s, seq!['.']) {
        None => sat_i64(digits_int(s) * 1000000),
        Some(k) => sat_i64(
            digits_int(s.subrange(0, k)) * 1000000 + frac6(s.subrange(k + 1, s.len() as int)),
        ),
    }
}

proof fn lemma_digits_int_nonneg(s: Seq<char>)
    requires
        all_digits(s),
    ensures
        digits_int(s) >= 0,
    decreases s.len(),
{
    if s.len() > 0 {
        let t = s.drop_last();
        assert(forall|i: int| 0 <= i < t.len() ==> is_digit(#[trigger] t[i]));
        lemma_digits_int_nonneg(t);
    }
}

proof fn lemma_digits_int_small(s: Seq<char>)
    requires
        all_digits(s),
        s.len() <= 6,
    ensures
        0 <= digits_int(s),
        s.len() <= 1 ==> digits_int(s) <= 9,
        s.len() <= 2 ==> digits_int(s) <= 99,
        s.len() <= 3 ==> digits_int(s) <= 999,
        s.len() <= 4 ==> digits_int(s) <= 9999,
        s.len() <= 5 ==> digits_int(s) <= 99999,
        digits_int(s) <= 999999,
    decreases s.len(),
{
    if s.len() > 0 {
        let t = s.drop_last();
        assert(forall|i: int| 0 <= i < t.len() ==> is_digit(#[trigger] t[i]));
        lemma_digits_int_small(t);
    }
}

/// Accumulate one more digit on the left-to-right pass.
proof fn lemma_digits_step(s: Seq<char>, i: int)
    requires
        0 <= i < s.len(),
    ensures
        digits_int(s.subrange(0, i + 1)) == digits_int(s.subrange(0, i)) * 10 + digit_val(s[i]),
{
    let w = s.subrange(0, i + 1);
    assert(w.drop_last() =~= s.subrange(0, i));
    assert(w.last() == s[i]);
}

/// Largest magnitude an `i64` can hold, as the capped accumulator's limit.
pub open spec fn digit_cap() -> int {
    0x8000000000000000
}

/// Scan a digit run `s[lo..hi]`, yielding its value capped at
/// [`digit_cap`], or `None` on the first non-digit.
fn scan_digits(s: &str, lo: usize, hi: usize) -> (r: Option<u128>)
    requires
        lo <= hi <= s@.len(),
        s@.len() <= usize::MAX,
    ensures
        match r {
            Some(acc) => {
                let d = digits_int(s@.subrange(lo as int, hi as int));
                all_digits(s@.subrange(lo as int, hi as int)) && (d < digit_cap() ==> acc as int
                    == d) && (d >= digit_cap() ==> acc as int == digit_cap()) && acc as int
                    <= digit_cap()
            },
            None => !all_digits(s@.subrange(lo as int, hi as int)),
        },
{
    let ghost whole = s@.subrange(lo as int, hi as int);
    let mut acc: u128 = 0;
    let mut i: usize = lo;
    proof {
        assert(whole.subrange(0, 0) =~= Seq::<char>::empty());
    }
    while i < hi
        invariant
            lo <= i <= hi <= s@.len(),
            s@.len() <= usize::MAX,
            whole == s@.subrange(lo as int, hi as int),
            all_digits(whole.subrange(0, i - lo)),
            ({
                let d = digits_int(whole.subrange(0, i - lo));
                (d < digit_cap() ==> acc as int == d) && (d >= digit_cap() ==> acc as int
                    == digit_cap()) && acc as int <= digit_cap()
            }),
        decreases hi - i,
    {
        let c = s.get_char(i);
        let u = c as u32;
        proof {
            assert(whole[i - lo] == s@[i as int]);
        }
        if u < 48 || u > 57 {
            proof {
                assert(!is_digit(whole[i - lo]));
            }
            return None;
        }
        let dv: u128 = (u - 48) as u128;
        proof {
            let pre = whole.subrange(0, i - lo);
            lemma_digits_step(whole, i - lo);
            assert(forall|j: int|
                0 <= j < pre.len() ==> is_digit(#[trigger] pre[j]) && digit_val(pre[j]) >= 0);
            lemma_digits_int_nonneg(pre);
            assert(whole.subrange(0, i - lo + 1).drop_last() =~= pre);
        }
        let t: u128 = acc * 10 + dv;
        if t > 0x8000000000000000u128 {
            acc = 0x8000000000000000u128;
        } else {
            acc = t;
        }
        proof {
            assert(all_digits(whole.subrange(0, i + 1 - lo))) by {
                let w = whole.subrange(0, i + 1 - lo);
                assert(forall|j: int| 0 <= j < w.len() - 1 ==> w[j] == #[trigger] whole.subrange(
                    0,
                    i - lo,
                )[j]);
                assert(w[w.len() - 1] == whole[i - lo]);
            }
        }
        i += 1;
    }
    proof {
        assert(whole.subrange(0, hi - lo) =~= whole);
    }
    Some(acc)
}

/// Parse a written number into its fixed-point value.
pub fn parse_number(s: &str) -> (r: Option<i64>)
    ensures
        (r is Some) == is_number_lit(s@),
        match r {
            Some(v) => v as int == lit_value(s@),
            None => true,
        },
{
    let n = s.unicode_len();
    let dot = crate::strutil::find_first(s, ".");
    proof {
        reveal_strlit(".");
        assert("."@ =~= seq!['.']);
    }
    match dot {
        None => {
            if n == 0 {
                return None;
            }
            let acc = match scan_digits(s, 0, n) {
                Some(a) => a,
                None => {
                    proof {
                        assert(s@.subrange(0, n as int) =~= s@);
                    }
                    return None;
                },
            };
            proof {
                assert(s@.subrange(0, n as int) =~= s@);
            }
            let r = combine_parts(acc, 0);
            proof {
                let d = digits_int(s@);
                if d >= digit_cap() {
                    assert(sat_i64(d * 1000000 + 0) == i64::MAX as int);
                }
            }
            Some(r)
        },
        Some(k) => {
            proof {
                crate::strutil::lemma_find_first_some(s@, "."@, k as int);
            }
            if n < 2 {
                return None;
            }
            let acc = match scan_digits(s, 0, k) {
                Some(a) => a,
                None => {
                    return None;
                },
            };
            let frac = match scan_frac(s, k + 1, n) {
                Some(f) => f,
                None => {
                    return None;
                },
            };
            let r = combine_parts(acc, frac);
            proof {
                let d = digits_int(s@.subrange(0, k as int));
                if d >= digit_cap() {
                    assert(sat_i64(d * 1000000 + frac as int) == i64::MAX as int);
                }
            }
            Some(r)
        },
    }
}

/// Scan the fractional digits `s[lo..hi]` into their fixed-point value, or
/// `None` on the first non-digit.
fn scan_frac(s: &str, lo: usize, hi: usize) -> (r: Option<u64>)
    requires
        lo <= hi <= s@.len(),
        s@.len() <= usize::MAX,
    ensures
        match r {
            Some(f) => all_digits(s@.subrange(lo as int, hi as int)) && f as int == frac6(
                s@.subrange(lo as int, hi as int),
            ) && f < 1000000,
            None => !all_digits(s@.subrange(lo as int, hi as int)),
        },
{
    let ghost whole = s@.subrange(lo as int, hi as int);
    let m = if hi - lo > 6 {
        6
    } else {
        hi - lo
    };
    let head = match scan_digits(s, lo, lo + m) {
        Some(a) => a,
        None => {
            proof {
                let part = s@.subrange(lo as int, lo + m as int);
                assert(forall|j: int|
                    0 <= j < part.len() ==> #[trigger] part[j] == whole[j]);
                assert(!all_digits(whole));
            }
            return None;
        },
    };
    // the digits past the sixth only need to be digits; their value is lost
    if m < hi - lo {
        match scan_digits(s, lo + m, hi) {
            Some(_) => {},
            None => {
                proof {
                    let part = s@.subrange(lo + m as int, hi as int);
                    assert(exists|j: int| 0 <= j < part.len() && !is_digit(#[trigger] part[j]));
                    let j = choose|j: int| 0 <= j < part.len() && !is_digit(#[trigger] part[j]);
                    assert(whole[m + j] == part[j]);
                }
                return None;
            },
        }
    }
    proof {
        let part = s@.subrange(lo as int, lo + m as int);
        lemma_digits_int_small(part);
        if m < hi - lo {
            let rest = s@.subrange(lo + m as int, hi as int);
            assert(forall|j: int| 0 <= j < whole.len() ==> is_digit(#[trigger] whole[j])) by {
                assert(forall|j: int|
                    0 <= j < m ==> #[trigger] whole[j] == part[j]);
                assert(forall|j: int|
                    m <= j < whole.len() ==> #[trigger] whole[j] == rest[j - m]);
            }
        } else {
            assert(part =~= whole);
        }
        if whole.len() >= 6 {
            assert(part =~= whole.subrange(0, 6));
        }
    }
    let head64 = head as u64;
    let f: u64 = if m == 0 {
        0
    } else if m == 1 {
        head64 * 100000
    } else if m == 2 {
        head64 * 10000
    } else if m == 3 {
        head64 * 1000
    } else if m == 4 {
        head64 * 100
    } else if m == 5 {
        head64 * 10
    } else {
        head64
    };
    Some(f)
}

/// Combine a capped integer part and an exact fractional part, saturating.
fn combine_parts(acc: u128, frac: u64) -> (r: i64)
    requires
        acc <= 0x8000000000000000u128,
        frac < 1000000,
    ensures
        (acc as int) < digit_cap() ==> r as int == sat_i64(acc as int * 1000000 + frac as int),
        (acc as int) >= digit_cap() ==> r as int == i64::MAX as int,
{
    if acc >= 0x8000000000000000u128 {
        i64::MAX
    } else {
        let t: u128 = acc * 1000000 + frac as u128;
        if t > i64::MAX as u128 {
            i64::MAX
        } else {
            t as i64
        }
    }
}

/// One token of an expression.
#[derive(Debug, Clone)]
pub enum Token {
    Number(i64),
    Variable(String),
    Operator(Op),
    LParen,
    RParen,
}

/// Spec image of a token: a variable name appears as its character sequence.
pub enum TokenModel {
    Number(i64),
    Variable(Seq<char>),
    Operator(Op),
    LParen,
    RParen,
}

impl View for Token {
    type V = TokenModel;

    open spec fn view(&self) -> TokenModel {
        match self {
            Token::Number(n) => TokenModel::Number(*n),
            Token::Variable(s) => TokenModel::Variable(s@),
            Token::Operator(op) => TokenModel::Operator(*op),
            Token::LParen => TokenModel::LParen,
            Token::RParen => TokenModel::RParen,
        }
    }
}

/// Spec images of a token sequence.
pub open spec fn views_of(ts: Seq<Token>) -> Seq<TokenModel> {
    ts.map_values(|t: Token| t@)
}

proof fn lemma_views_push(ts: Seq<Token>, t: Token)
    ensures
        views_of(ts.push(t)) == views_of(ts).push(t@),
{
    assert(views_of(ts.push(t)) =~= views_of(ts).push(t@));
}

/// What a finished word becomes: a keyword operator, a number, or a
/// variable reference.
pub open spec fn classify_word(w: Seq<char>) -> TokenModel {
    if w == "and"@ || w == "or"@ || w == "not"@ {
        TokenModel::Operator(if w == "and"@ {
            Op::And
        } else if w == "or"@ {
            Op::Or
        } else {
            Op::Not
        })
    } else if is_number_lit(w) {
        TokenModel::Number(lit_value(w) as i64)
    } else {
        TokenModel::Variable(w)
    }
}

/// Close the pending word `s[start..i]`, if any, and append its token.
pub open spec fn flush_word(s: Seq<char>, start: int, i: int, acc: Seq<TokenModel>) -> Seq<
    TokenModel,
> {
    if start < i {
        acc.push(classify_word(s.subrange(start, i)))
    } else {
        acc
    }
}

/// The left-to-right scan of [`spec_tokenize`]: `start..i` is the pending
/// word, `acc` the tokens already out.
pub open spec fn tok_rec(s: Seq<char>, start: int, i: int, acc: Seq<TokenModel>) -> Seq<TokenModel>
    recommends
        0 <= start <= i <= s.len(),
    decreases s.len() - i,
{
    if i < 0 || i >= s.len() {
        flush_word(s, start, i, acc)
    } else {
        let c = s[i];
        if c == ' ' {
            tok_rec(s, i + 1, i + 1, flush_word(s, start, i, acc))
        } else if c == '(' {
            tok_rec(s, i + 1, i + 1, flush_word(s, start, i, acc).push(TokenModel::LParen))
        } else if c == ')' {
            tok_rec(s, i + 1, i + 1, flush_word(s, start, i, acc).push(TokenModel::RParen))
        } else if c == '+' || c == '-' || c == '*' || c == '/' || c == '%' {
            tok_rec(
                s,
                i + 1,
                i + 1,
                flush_word(s, start, i, acc).push(
                    TokenModel::Operator(
                        if c == '+' {
                            Op::Add
                        } else if c == '-' {
                            Op::Sub
                        } else if c == '*' {
                            Op::Mul
                        } else if c == '/' {
                            Op::Div
                        } else {
                            Op::Rem
                        },
                    ),
                ),
            )
        } else if c == '=' || c == '>' || c == '<' {
            if i + 1 < s.len() && s[i + 1] == '=' {
                tok_rec(
                    s,
                    i + 2,
                    i + 2,
                    flush_word(s, start, i, acc).push(
                        TokenModel::Operator(
                            if c == '=' {
                                Op::Eq
                            } else if c == '>' {
                                Op::Ge
                            } else {
                                Op::Le
                            },
                        ),
                    ),
                )
            } else {
                tok_rec(
                    s,
                    i + 1,
                    i + 1,
                    flush_word(s, start, i, acc).push(
                        TokenModel::Operator(
                            if c == '=' {
                                Op::Assign
                            } else if c == '>' {
                                Op::Gt
                            } else {
                                Op::Lt
                            },
                        ),
                    ),
                )
            }
        } else {
            tok_rec(s, start, i + 1, acc)
        }
    }
}

/// The token sequence an expression line scans to.  Words split on spaces,
/// parentheses and operator characters; `=`, `>`, `<` greedily take a
/// following `=`; words that read as keywords or numbers become those.
pub open spec fn spec_tokenize(s: Seq<char>) -> Seq<TokenModel> {
    tok_rec(s, 0, 0, Seq::empty())
}

/// Turn a finished word into its token.
fn classify_word_exec(w: &str) -> (t: Token)
    ensures
        t@ == classify_word(w@),
{
    if str_eq(w, "and") {
        Token::Operator(Op::And)
    } else if str_eq(w, "or") {
        Token::Operator(Op::Or)
    } else if str_eq(w, "not") {
        Token::Operator(Op::Not)
    } else {
        match parse_number(w) {
            Some(v) => Token::Number(v),
            None => Token::Variable(w.to_owned()),
        }
    }
}

/// Close the pending word `s[start..i]`, if any, and push its token.
fn flush_buf(s: &str, start: usize, i: usize, tokens: &mut Vec<Token>)
    requires
        start <= i <= s@.len(),
        s@.len() <= usize::MAX,
    ensures
        views_of(final(tokens)@) == flush_word(s@, start as int, i as int, views_of(old(tokens)@)),
{
    if start < i {
        let w = s.substring_char(start, i);
        let t = classify_word_exec(w);
        proof {
            lemma_views_push(tokens@, t);
        }
        tokens.push(t);
    }
}

/// Scan an expression line into tokens.
pub fn tokenize(expr: &str) -> (r: Vec<Token>)
    ensures
        views_of(r@) == spec_tokenize(expr@),
{
    let n = expr.unicode_len();
    let mut tokens: Vec<Token> = Vec::new();
    let mut start: usize = 0;
    let mut i: usize = 0;
    proof {
        assert(views_of(tokens@) =~= Seq::<TokenModel>::empty());
    }
    while i < n
        invariant
            n == expr@.len(),
            n <= usize::MAX,
            start <= i <= n,
            tok_rec(expr@, start as int, i as int, views_of(tokens@)) == spec_tokenize(expr@),
        decreases n - i,
    {
        let c = expr.get_char(i);
        if c == ' ' {
            flush_buf(expr, start, i, &mut tokens);
            start = i + 1;
            i = i + 1;
        } else if c == '(' {
            flush_buf(expr, start, i, &mut tokens);
            proof {
                lemma_views_push(tokens@, Token::LParen);
            }
            tokens.push(Token::LParen);
            start = i + 1;
            i = i + 1;
        } else if c == ')' {
            flush_buf(expr, start, i, &mut tokens);
            proof {
                lemma_views_push(tokens@, Token::RParen);
            }
            tokens.push(Token::RParen);
            start = i + 1;
            i = i + 1;
        } else if c == '+' || c == '-' || c == '*' || c == '/' || c == '%' {
            flush_buf(expr, start, i, &mut tokens);
            let op = if c == '+' {
                Op::Add
            } else if c == '-' {
                Op::Sub
            } else if c == '*' {
                Op::Mul
            } else if c == '/' {
                Op::Div
            } else {
                Op::Rem
            };
            proof {
                lemma_views_push(tokens@, Token::Operator(op));
            }
            tokens.push(Token::Operator(op));
            start = i + 1;
            i = i + 1;
        } else if c == '=' || c == '>' || c == '<' {
            flush_buf(expr, start, i, &mut tokens);
            if i + 1 < n && expr.get_char(i + 1) == '=' {
                let op = if c == '=' {
                    Op::Eq
                } else if c == '>' {
                    Op::Ge
                } else {
                    Op::Le
                };
                proof {
                    lemma_views_push(tokens@, Token::Operator(op));
                }
                tokens.push(Token::Operator(op));
                start = i + 2;
                i = i + 2;
            } else {
                let op = if c == '=' {
                    Op::Assign
                } else if c == '>' {
                    Op::Gt
                } else {
                    Op::Lt
                };
                proof {
                    lemma_views_push(tokens@, Token::Operator(op));
                }
                tokens.push(Token::Operator(op));
                start = i + 1;
                i = i + 1;
            }
        } else {
            i = i + 1;
        }
    }
    flush_buf(expr, start, n, &mut tokens);
    tokens
}

/// Read a variable as a fixed-point number.
pub fn get_var(vars: &VarStore, name: &str) -> (r: i64)
    ensures
        r as int == lookup_var(vars@, name@),
{
    match vars.get(name) {
        Some(Value::Int(v)) => {
            let v = *v;
            proof {
                assert(v as int * FX_SCALE as int <= 0x8000000000000000 * 1000000
                    && v as int * FX_SCALE as int >= -0x8000000000000000 * 1000000)
                    by (nonlinear_arith)
                    requires
                        -0x8000000000000000 <= v as int <= 0x8000000000000000,
                ;
            }
            let wide: i128 = (v as i128) * (FX_SCALE as i128);
            if wide > i64::MAX as i128 {
                i64::MAX
            } else if wide < i64::MIN as i128 {
                i64::MIN
            } else {
                wide as i64
            }
        },
        Some(Value::Num(v)) => *v,
        Some(Value::Bool(b)) => if *b { FX_SCALE } else { 0 },
        _ => 0,
    }
}

/// An entry of the operator stack: an operator, or the `(` marker.
#[derive(Clone, Copy, Debug, PartialEq, Eq, Structural)]
pub enum OpEntry {
    Mark,
    Oper(Op),
}

/// Spec images of the value stack.
pub open spec fn vals_of(v: Seq<i64>) -> Seq<int> {
    v.map_values(|x: i64| x as int)
}

proof fn lemma_vals_push(v: Seq<i64>, x: i64)
    ensures
        vals_of(v.push(x)) == vals_of(v).push(x as int),
{
    assert(vals_of(v.push(x)) =~= vals_of(v).push(x as int));
}

proof fn lemma_vals_pop(v: Seq<i64>)
    requires
        v.len() > 0,
    ensures
        vals_of(v.drop_last()) == vals_of(v).drop_last(),
        vals_of(v).last() == v.last() as int,
{
    assert(vals_of(v.drop_last()) =~= vals_of(v).drop_last());
}

/// Top of the value stack; an empty stack reads as zero (the evaluator's
/// missing-operand degradation).
pub open spec fn top_or_zero(vals: Seq<int>) -> int {
    if vals.len() == 0 {
        0
    } else {
        vals.last()
    }
}

/// The value stack with its top removed, if it has one.
pub open spec fn pop1(vals: Seq<int>) -> Seq<int> {
    if vals.len() == 0 {
        vals
    } else {
        vals.drop_last()
    }
}

/// Apply one operator-stack entry to the value stack: `not` takes one
/// operand, every other operator two, and a stray `(` marker drains like an
/// operator nothing is known about (result zero).
pub open spec fn apply_entry(vals: Seq<int>, e: OpEntry) -> Seq<int> {
    match e {
        OpEntry::Oper(op) => if op == Op::Not {
            let a = top_or_zero(vals);
            pop1(vals).push(apply_unary_spec(a, op))
        } else {
            let b = top_or_zero(vals);
            let r1 = pop1(vals);
            let a = top_or_zero(r1);
            pop1(r1).push(apply_op_spec(a, b, op))
        },
        OpEntry::Mark => pop1(pop1(vals)).push(0),
    }
}

/// A `)` pops and applies operators until the matching `(` marker, which is
/// discarded; with no marker on the stack everything drains.
pub open spec fn close_paren(vals: Seq<int>, ops: Seq<OpEntry>) -> (Seq<int>, Seq<OpEntry>)
    decreases ops.len(),
{
    if ops.len() == 0 {
        (vals, ops)
    } else if ops.last() == OpEntry::Mark {
        (vals, ops.drop_last())
    } else {
        close_paren(apply_entry(vals, ops.last()), ops.drop_last())
    }
}

/// Does a pending operator `top` apply before the incoming `op`?  Equal
/// precedence applies, except for the right-associative `not`.
pub open spec fn should_pop(top: Op, incoming: Op) -> bool {
    if op_right_assoc(incoming) {
        op_precedence(top) > op_precedence(incoming)
    } else {
        op_precedence(top) >= op_precedence(incoming)
    }
}

/// An incoming operator pops and applies pending operators down to the first
/// `(` marker or weaker-binding operator, then goes on the stack itself.
pub open spec fn shunt_in(vals: Seq<int>, ops: Seq<OpEntry>, op: Op) -> (Seq<int>, Seq<OpEntry>)
    decreases ops.len(),
{
    if ops.len() == 0 {
        (vals, ops.push(OpEntry::Oper(op)))
    } else {
        match ops.last() {
            OpEntry::Mark => (vals, ops.push(OpEntry::Oper(op))),
            OpEntry::Oper(top) => if should_pop(top, op) {
                shunt_in(apply_entry(vals, ops.last()), ops.drop_last(), op)
            } else {
                (vals, ops.push(OpEntry::Oper(op)))
            },
        }
    }
}

/// After the last token, remaining operators apply in stack order.
pub open spec fn drain_ops(vals: Seq<int>, ops: Seq<OpEntry>) -> Seq<int>
    decreases ops.len(),
{
    if ops.len() == 0 {
        vals
    } else {
        drain_ops(apply_entry(vals, ops.last()), ops.drop_last())
    }
}

/// The two-stack pass over the tokens from position `i` on.
pub open spec fn run_tokens(
    tokens: Seq<TokenModel>,
    i: int,
    vals: Seq<int>,
    ops: Seq<OpEntry>,
    vars: Map<Seq<char>, Value>,
) -> (Seq<int>, Seq<OpEntry>)
    decreases tokens.len() - i,
{
    if i < 0 || i >= tokens.len() {
        (vals, ops)
    } else {
        match tokens[i] {
            TokenModel::Number(n) => run_tokens(tokens, i + 1, vals.push(n as int), ops, vars),
            TokenModel::Variable(name) => run_tokens(
                tokens,
                i + 1,
                vals.push(lookup_var(vars, name)),
                ops,
                vars,
            ),
            TokenModel::Operator(op) => {
                let (v2, o2) = shunt_in(vals, ops, op);
                run_tokens(tokens, i + 1, v2, o2, vars)
            },
            TokenModel::LParen => run_tokens(tokens, i + 1, vals, ops.push(OpEntry::Mark), vars),
            TokenModel::RParen => {
                let (v2, o2) = close_paren(vals, ops);
                run_tokens(tokens, i + 1, v2, o2, vars)
            },
        }
    }
}

/// The value a token sequence evaluates to.
pub open spec fn spec_eval_tokens(tokens: Seq<TokenModel>, vars: Map<Seq<char>, Value>) -> int {
    let (vals, ops) = run_tokens(tokens, 0, Seq::empty(), Seq::empty(), vars);
    top_or_zero(drain_ops(vals, ops))
}

/// The value an expression line evaluates to: tokenize, then run the
/// two-stack pass.  An empty or fully malformed expression reads as zero.
pub open spec fn spec_eval(s: Seq<char>, vars: Map<Seq<char>, Value>) -> int {
    spec_eval_tokens(spec_tokenize(s), vars)
}

/// Pop the value stack, reading an empty stack as zero.
fn pop_or_zero(vals: &mut Vec<i64>) -> (r: i64)
    ensures
        r as int == top_or_zero(vals_of(old(vals)@)),
        vals_of(final(vals)@) == pop1(vals_of(old(vals)@)),
{
    proof {
        if old(vals)@.len() > 0 {
            lemma_vals_pop(old(vals)@);
        }
    }
    match vals.pop() {
        Some(x) => x,
        None => 0,
    }
}

/// Pop one operator entry and apply it to the value stack.
fn process_op(values: &mut Vec<i64>, e: OpEntry) -> (nothing: ())
    ensures
        vals_of(final(values)@) == apply_entry(vals_of(old(values)@), e),
{
    match e {
        OpEntry::Oper(op) => {
            if op == Op::Not {
                let a = pop_or_zero(values);
                let r = apply_unary(a, op);
                proof {
                    lemma_vals_push(values@, r);
                }
                values.push(r);
            } else {
                let b = pop_or_zero(values);
                let a = pop_or_zero(values);
                let r = apply_op(a, b, op);
                proof {
                    lemma_vals_push(values@, r);
                }
                values.push(r);
            }
        },
        OpEntry::Mark => {
            let _b = pop_or_zero(values);
            let _a = pop_or_zero(values);
            proof {
                lemma_vals_push(values@, 0);
            }
            values.push(0);
        },
    }
}

/// Is the top of the operator stack the `(` marker?
fn top_is_mark(ops: &Vec<OpEntry>) -> (r: bool)
    ensures
        r == (ops@.len() > 0 && ops@.last() == OpEntry::Mark),
{
    if ops.len() == 0 {
        false
    } else {
        ops[ops.len() - 1] == OpEntry::Mark
    }
}

/// Binding strength of an operator.
fn prec_of(op: Op) -> (r: i32)
    ensures
        r as int == op_precedence(op),
{
    match op {
        Op::Or => 1,
        Op::And => 2,
        Op::Eq | Op::Gt | Op::Lt | Op::Ge | Op::Le => 3,
        Op::Add | Op::Sub => 4,
        Op::Mul | Op::Div | Op::Rem => 5,
        Op::Not => 6,
        Op::Assign => 0,
    }
}

/// Should the pending top of `ops` apply before `op` goes on the stack?
fn should_pop_top(ops: &Vec<OpEntry>, op: Op) -> (r: bool)
    ensures
        r == (ops@.len() > 0 && match ops@.last() {
            OpEntry::Mark => false,
            OpEntry::Oper(top) => should_pop(top, op),
        }),
{
    if ops.len() == 0 {
        return false;
    }
    match ops[ops.len() - 1] {
        OpEntry::Mark => false,
        OpEntry::Oper(top) => {
            let pt = prec_of(top);
            let pi = prec_of(op);
            if op == Op::Not {
                pt > pi
            } else {
                pt >= pi
            }
        },
    }
}

/// Pop and apply operators until the matching `(` marker, discarding it.
fn close_group(values: &mut Vec<i64>, ops: &mut Vec<OpEntry>)
    ensures
        ({
            let (v2, o2) = close_paren(vals_of(old(values)@), old(ops)@);
            vals_of(final(values)@) == v2 && final(ops)@ == o2
        }),
{
    while ops.len() > 0 && !top_is_mark(ops)
        invariant
            close_paren(vals_of(values@), ops@) == close_paren(
                vals_of(old(values)@),
                old(ops)@,
            ),
        decreases ops@.len(),
    {
        match ops.pop() {
            Some(e) => {
                process_op(values, e);
            },
            None => {},
        }
    }
    if ops.len() > 0 {
        ops.pop();
    }
}

/// Pop stronger-binding pending operators, then stack `op` itself.
fn shunt_operator(values: &mut Vec<i64>, ops: &mut Vec<OpEntry>, op: Op)
    ensures
        ({
            let (v2, o2) = shunt_in(vals_of(old(values)@), old(ops)@, op);
            vals_of(final(values)@) == v2 && final(ops)@ == o2
        }),
{
    while should_pop_top(ops, op)
        invariant
            shunt_in(vals_of(values@), ops@, op) == shunt_in(
                vals_of(old(values)@),
                old(ops)@,
                op,
            ),
        decreases ops@.len(),
    {
        match ops.pop() {
            Some(e) => {
                process_op(values, e);
            },
            None => {},
        }
    }
    ops.push(OpEntry::Oper(op));
}

/// Evaluate an expression line against the variable store.
///
/// The result is the fixed-point value of the expression: `r` stands for the
/// number `r / 1_000_000`.  Evaluation never fails: unknown variables and
/// missing operands read as zero, and an empty expression yields zero.
pub fn eval(expr: &str, vars: &VarStore) -> (r: i64)
    ensures
        r as int == spec_eval(expr@, vars@),
{
    let tokens = tokenize(expr);
    let mut values: Vec<i64> = Vec::new();
    let mut ops: Vec<OpEntry> = Vec::new();
    let n = tokens.len();
    let mut i: usize = 0;
    proof {
        assert(vals_of(values@) =~= Seq::<int>::empty());
        assert(ops@ =~= Seq::<OpEntry>::empty());
    }
    while i < n
        invariant
            n == tokens@.len(),
            i <= n,
            views_of(tokens@) == spec_tokenize(expr@),
            run_tokens(views_of(tokens@), i as int, vals_of(values@), ops@, vars@) == run_tokens(
                views_of(tokens@),
                0,
                Seq::empty(),
                Seq::empty(),
                vars@,
            ),
        decreases n - i,
    {
        proof {
            assert(views_of(tokens@)[i as int] == tokens@[i as int]@);
        }
        match &tokens[i] {
            Token::Number(v) => {
                proof {
                    lemma_vals_push(values@, *v);
                }
                values.push(*v);
            },
            Token::Variable(name) => {
                let x = get_var(vars, name.as_str());
                proof {
                    lemma_vals_push(values@, x);
                }
                values.push(x);
            },
            Token::Operator(op) => {
                shunt_operator(&mut values, &mut ops, *op);
            },
            Token::LParen => {
                ops.push(OpEntry::Mark);
            },
            Token::RParen => {
                close_group(&mut values, &mut ops);
            },
        }
        i += 1;
    }
    let ghost drained_vals = vals_of(values@);
    let ghost drained_ops = ops@;
    while ops.len() > 0
        invariant
            drain_ops(vals_of(values@), ops@) == drain_ops(drained_vals, drained_ops),
        decreases ops@.len(),
    {
        match ops.pop() {
            Some(e) => {
                process_op(&mut values, e);
            },
            None => {},
        }
    }
    pop_or_zero(&mut values)
}

} // verus!
