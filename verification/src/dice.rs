//! Dice-notation evaluator.
//!
//! A request such as `"1d6+2-3d4"` is split on `+`/`-` into signed terms;
//! each term is either an integer literal or a dice term `[count]d<sides>`.
//! Terms matching neither shape are dropped silently.  A leading `!` turns
//! on exploding mode for every dice term.  When no usable term remains the
//! evaluator answers with the single sentinel value `-666`.
//!
//! Only the first whitespace-delimited token of a request is rollable; a
//! trailing `*` on that token marks the roll as hidden and is stripped
//! before evaluation.

use vstd::prelude::*;
use vstd::math::min;
use vstd::string::StrSliceExecFns;
use vstd::string::StringExecFns;

verus! {

/// Sentinel answer for a request without a single well-formed term.
pub const NO_RESULT: i32 = -666;

// ---------------------------------------------------------------------------
// Specification: characters, numbers and searching
// ---------------------------------------------------------------------------

pub open spec fn is_term_sep(c: char) -> bool {
    c == '+' || c == '-'
}

pub open spec fn is_digit(c: char) -> bool {
    '0' <= c && c <= '9'
}

pub open spec fn digit_val(c: char) -> int {
    c as int - '0' as int
}

pub open spec fn all_digits(s: Seq<char>) -> bool {
    forall|i: int| 0 <= i < s.len() ==> is_digit(#[trigger] s[i])
}

/// The value of a digit string read in base ten.
pub open spec fn dec_val(s: Seq<char>) -> int
    decreases s.len(),
{
    if s.len() == 0 {
        0
    } else {
        dec_val(s.drop_last()) * 10 + digit_val(s.last())
    }
}

/// Index of the first occurrence of `x` in `s`, or `-1` when `s` lacks it.
pub open spec fn first_index_of<T>(s: Seq<T>, x: T) -> int
    decreases s.len(),
{
    if s.len() == 0 {
        -1
    } else if s[0] == x {
        0
    } else if first_index_of(s.drop_first(), x) < 0 {
        -1
    } else {
        1 + first_index_of(s.drop_first(), x)
    }
}

pub proof fn lemma_first_index_found<T>(s: Seq<T>, x: T, k: int)
    requires
        0 <= k < s.len(),
        s[k] == x,
        forall|j: int| 0 <= j < k ==> s[j] != x,
    ensures
        first_index_of(s, x) == k,
    decreases s.len(),
{
    if k > 0 {
        assert(forall|j: int| 0 <= j < k - 1 ==> s.drop_first()[j] == s[j + 1]);
        lemma_first_index_found(s.drop_first(), x, k - 1);
    }
}

pub proof fn lemma_first_index_none<T>(s: Seq<T>, x: T)
    requires
        forall|j: int| 0 <= j < s.len() ==> s[j] != x,
    ensures
        first_index_of(s, x) == -1,
    decreases s.len(),
{
    if s.len() > 0 {
        lemma_first_index_none(s.drop_first(), x);
    }
}

pub proof fn lemma_first_index_props<T>(s: Seq<T>, x: T)
    ensures
        first_index_of(s, x) >= 0 ==> {
            &&& first_index_of(s, x) < s.len()
            &&& s[first_index_of(s, x)] == x
            &&& forall|j: int| 0 <= j < first_index_of(s, x) ==> s[j] != x
        },
        first_index_of(s, x) < 0 ==> first_index_of(s, x) == -1
            && forall|j: int| 0 <= j < s.len() ==> s[j] != x,
    decreases s.len(),
{
    if s.len() > 0 {
        lemma_first_index_props(s.drop_first(), x);
        assert(forall|j: int| 1 <= j < s.len() ==> s[j] == s.drop_first()[j - 1]);
    }
}

// ---------------------------------------------------------------------------
// Specification: stripping the rollable part of a request
// ---------------------------------------------------------------------------

/// The first whitespace-delimited token of a raw request.
pub open spec fn roll_part(s: Seq<char>) -> Seq<char> {
    if first_index_of(s, ' ') < 0 {
        s
    } else {
        s.take(first_index_of(s, ' '))
    }
}

pub open spec fn strip_star(s: Seq<char>) -> Seq<char> {
    if s.len() > 0 && s.last() == '*' {
        s.drop_last()
    } else {
        s
    }
}

/// The rollable token with a hidden-roll marker removed.
pub open spec fn stripped_expr(s: Seq<char>) -> Seq<char> {
    strip_star(roll_part(s))
}

/// A leading `!` on the stripped token turns on exploding mode.
pub open spec fn explode_mode(s: Seq<char>) -> bool {
    stripped_expr(s).len() > 0 && stripped_expr(s)[0] == '!'
}

/// The expression that is actually tokenized, after the `!` is consumed.
pub open spec fn dice_expr(s: Seq<char>) -> Seq<char> {
    if explode_mode(s) {
        stripped_expr(s).drop_first()
    } else {
        stripped_expr(s)
    }
}

/// A roll is hidden when the first whitespace-delimited token ends in `*`.
pub open spec fn hidden_roll(s: Seq<char>) -> bool {
    roll_part(s).len() > 0 && roll_part(s).last() == '*'
}

/// The free-form text after the first space of a raw request.
pub open spec fn flavor_text(s: Seq<char>) -> Seq<char> {
    if first_index_of(s, ' ') < 0 {
        Seq::empty()
    } else {
        s.skip(first_index_of(s, ' ') + 1)
    }
}

// ---------------------------------------------------------------------------
// Specification: splitting an expression into signed terms
// ---------------------------------------------------------------------------

/// Splits `s` on `+`/`-`, closing the open term `(neg, cur)`.  Each produced
/// pair carries the sign that preceded the term's text.
pub open spec fn split_terms(s: Seq<char>, cur: Seq<char>, neg: bool) -> Seq<(bool, Seq<char>)>
    decreases s.len(),
{
    if s.len() == 0 {
        seq![(neg, cur)]
    } else if is_term_sep(s[0]) {
        seq![(neg, cur)] + split_terms(s.drop_first(), Seq::empty(), s[0] == '-')
    } else {
        split_terms(s.drop_first(), cur.push(s[0]), neg)
    }
}

/// The signed terms of an expression; a leading unsigned term counts as `+`.
pub open spec fn terms_of(s: Seq<char>) -> Seq<(bool, Seq<char>)> {
    if s.len() == 0 {
        seq![]
    } else {
        split_terms(s, Seq::empty(), false)
    }
}

// ---------------------------------------------------------------------------
// Specification: the shape and value of one term
// ---------------------------------------------------------------------------

/// The digits before the first `d` of a dice term.
pub open spec fn dice_count_part(body: Seq<char>) -> Seq<char> {
    body.take(first_index_of(body, 'd'))
}

/// The text after the first `d` of a dice term.
pub open spec fn dice_sides_part(body: Seq<char>) -> Seq<char> {
    body.skip(first_index_of(body, 'd') + 1)
}

/// `[count]d<sides>`: an optional count and mandatory sides, both plain
/// decimal numbers that a 32-bit unsigned integer can hold.
pub open spec fn is_dice_term(body: Seq<char>) -> bool {
    &&& first_index_of(body, 'd') >= 0
    &&& all_digits(dice_count_part(body))
    &&& (dice_count_part(body).len() == 0 || dec_val(dice_count_part(body)) <= u32::MAX)
    &&& dice_sides_part(body).len() > 0
    &&& all_digits(dice_sides_part(body))
    &&& dec_val(dice_sides_part(body)) <= u32::MAX
}

/// The count of a dice term; an omitted count means one die.
pub open spec fn term_count(body: Seq<char>) -> int {
    if dice_count_part(body).len() == 0 {
        1
    } else {
        dec_val(dice_count_part(body))
    }
}

pub open spec fn term_sides(body: Seq<char>) -> int {
    dec_val(dice_sides_part(body))
}

/// A bare integer literal whose signed value fits in an `i32`.
pub open spec fn is_lit_term(neg: bool, body: Seq<char>) -> bool {
    &&& first_index_of(body, 'd') < 0
    &&& body.len() > 0
    &&& all_digits(body)
    &&& if neg {
        dec_val(body) <= 0x8000_0000
    } else {
        dec_val(body) <= 0x7fff_ffff
    }
}

pub open spec fn lit_value(neg: bool, body: Seq<char>) -> int {
    if neg {
        -dec_val(body)
    } else {
        dec_val(body)
    }
}

/// A term contributes a value exactly when it is well formed.
pub open spec fn term_wf(neg: bool, body: Seq<char>) -> bool {
    if first_index_of(body, 'd') >= 0 {
        is_dice_term(body)
    } else {
        is_lit_term(neg, body)
    }
}

/// What a summed roll of `count` dice with `sides` faces may come to.
/// `m` is the magnitude before the term's sign is applied.  Sums saturate
/// at `i32::MAX` instead of overflowing.
pub open spec fn dice_value_ok(count: int, sides: int, explode: bool, m: int) -> bool {
    &&& (count == 0 || sides == 0) ==> m == 0
    &&& (count >= 1 && sides >= 1) ==> min(count, i32::MAX as int) <= m <= i32::MAX as int
    &&& (count >= 1 && sides >= 1 && !explode) ==> m <= min(count * sides, i32::MAX as int)
    &&& sides == 1 ==> m == min(count, i32::MAX as int)
}

/// Relates a well-formed term to the value reported for it.
pub open spec fn term_value_ok(neg: bool, body: Seq<char>, explode: bool, v: int) -> bool {
    if first_index_of(body, 'd') >= 0 {
        dice_value_ok(term_count(body), term_sides(body), explode, if neg { -v } else { v })
    } else {
        v == lit_value(neg, body)
    }
}

/// The well-formed terms of a term list, in their textual order.
pub open spec fn wf_terms(ts: Seq<(bool, Seq<char>)>) -> Seq<(bool, Seq<char>)>
    decreases ts.len(),
{
    if ts.len() == 0 {
        seq![]
    } else if term_wf(ts.last().0, ts.last().1) {
        wf_terms(ts.drop_last()).push(ts.last())
    } else {
        wf_terms(ts.drop_last())
    }
}

/// The contract of the evaluator: one value per well-formed term, in order,
/// each value in the range its term admits; the sentinel when none remains.
pub open spec fn results_ok(input: Seq<char>, r: Seq<i32>) -> bool {
    let wf = wf_terms(terms_of(dice_expr(input)));
    if wf.len() == 0 {
        r == seq![NO_RESULT]
    } else {
        &&& r.len() == wf.len()
        &&& forall|i: int|
            0 <= i < wf.len() ==> term_value_ok(
                wf[i].0,
                wf[i].1,
                explode_mode(input),
                #[trigger] r[i] as int,
            )
    }
}

// ---------------------------------------------------------------------------
// Laws of the evaluator
// ---------------------------------------------------------------------------

/// For every request with at least one well-formed term, the evaluator
/// answers one value per well-formed term; the value of a dice term with at
/// least one die and one face, and of a nonzero literal, carries the sign
/// the term was written with.
pub proof fn lemma_result_signs(input: Seq<char>, r: Seq<i32>)
    requires
        results_ok(input, r),
        wf_terms(terms_of(dice_expr(input))).len() > 0,
    ensures
        r.len() == wf_terms(terms_of(dice_expr(input))).len(),
        forall|i: int|
            0 <= i < r.len() ==> {
                let neg = #[trigger] wf_terms(terms_of(dice_expr(input)))[i].0;
                let body = wf_terms(terms_of(dice_expr(input)))[i].1;
                if first_index_of(body, 'd') >= 0 {
                    term_count(body) >= 1 && term_sides(body) >= 1 ==> if neg {
                        r[i] < 0
                    } else {
                        r[i] > 0
                    }
                } else {
                    dec_val(body) > 0 ==> if neg {
                        r[i] < 0
                    } else {
                        r[i] > 0
                    }
                }
            },
{
}

/// A roll of `count` dice with `sides` faces, outside exploding mode, comes
/// to a total between `count` and `count * sides` whenever that product
/// stays representable.
pub proof fn lemma_dice_range(count: int, sides: int, m: int)
    requires
        dice_value_ok(count, sides, false, m),
        1 <= count,
        1 <= sides,
        count * sides <= i32::MAX,
    ensures
        count <= m <= count * sides,
{
    assert(count <= count * sides) by (nonlinear_arith)
        requires
            1 <= count,
            1 <= sides,
    ;
}

/// A one-sided die never explodes: whatever the exploding flag, `count`
/// one-sided dice always total exactly `count`.
pub proof fn lemma_one_sided_die_exact(count: int, explode: bool, m: int)
    requires
        dice_value_ok(count, 1, explode, m),
        0 <= count <= i32::MAX,
    ensures
        m == count,
{
}

// ---------------------------------------------------------------------------
// Small number lemmas
// ---------------------------------------------------------------------------

pub proof fn lemma_dec_val_nonneg(s: Seq<char>)
    requires
        all_digits(s),
    ensures
        dec_val(s) >= 0,
    decreases s.len(),
{
    if s.len() > 0 {
        assert(all_digits(s.drop_last()));
        lemma_dec_val_nonneg(s.drop_last());
    }
}

/// Reading more digits never shrinks the value.
pub proof fn lemma_dec_val_take_le(s: Seq<char>, i: int)
    requires
        all_digits(s),
        0 <= i <= s.len(),
    ensures
        dec_val(s.take(i)) <= dec_val(s),
    decreases s.len() - i,
{
    if i < s.len() {
        assert(all_digits(s.take(i)));
        lemma_dec_val_nonneg(s.take(i));
        assert(s.take(i + 1).drop_last() =~= s.take(i));
        assert(s.take(i + 1).last() == s[i]);
        assert(dec_val(s.take(i + 1)) == dec_val(s.take(i)) * 10 + digit_val(s[i]));
        lemma_dec_val_take_le(s, i + 1);
    } else {
        assert(s.take(i) =~= s);
    }
}

// ---------------------------------------------------------------------------
// Executable helpers
// ---------------------------------------------------------------------------

/// The characters of a string slice, one per unicode scalar.
fn chars_of(s: &str) -> (r: Vec<char>)
    ensures
        r@ == s@,
{
    let n = s.unicode_len();
    let mut r: Vec<char> = Vec::new();
    for i in 0..n
        invariant
            n == s@.len(),
            r@ == s@.take(i as int),
    {
        r.push(s.get_char(i));
        proof {
            assert(s@.take(i + 1) =~= s@.take(i as int).push(s@[i as int]));
        }
    }
    proof {
        assert(s@.take(n as int) =~= s@);
    }
    r
}

/// A copy of `v[from..to]`.
fn subvec(v: &Vec<char>, from: usize, to: usize) -> (r: Vec<char>)
    requires
        from <= to <= v@.len(),
    ensures
        r@ == v@.subrange(from as int, to as int),
{
    let mut r: Vec<char> = Vec::new();
    for i in from..to
        invariant
            from <= i <= to <= v@.len(),
            r@ == v@.subrange(from as int, i as int),
    {
        r.push(v[i]);
        proof {
            assert(v@.subrange(from as int, i + 1) =~= v@.subrange(from as int, i as int).push(
                v@[i as int],
            ));
        }
    }
    r
}

/// Finds the first occurrence of `c` in `v`.
fn find_char(v: &Vec<char>, c: char) -> (r: Option<usize>)
    ensures
        match r {
            Some(i) => first_index_of(v@, c) == i && i < v@.len(),
            None => first_index_of(v@, c) == -1,
        },
{
    let n = v.len();
    for i in 0..n
        invariant
            n == v@.len(),
            forall|j: int| 0 <= j < i ==> v@[j] != c,
    {
        if v[i] == c {
            proof {
                lemma_first_index_found(v@, c, i as int);
            }
            return Some(i);
        }
    }
    proof {
        lemma_first_index_none(v@, c);
    }
    None
}

/// Parses a plain decimal number.  Answers `None` exactly when the text is
/// empty, holds a non-digit, or names a number above `u32::MAX`.
fn parse_u32(v: &Vec<char>) -> (r: Option<u32>)
    ensures
        r is Some <==> v@.len() > 0 && all_digits(v@) && dec_val(v@) <= u32::MAX,
        r matches Some(x) ==> x as int == dec_val(v@),
{
    if v.len() == 0 {
        return None;
    }
    let mut acc: u32 = 0;
    let n = v.len();
    for i in 0..n
        invariant
            n == v@.len(),
            all_digits(v@.take(i as int)),
            acc as int == dec_val(v@.take(i as int)),
    {
        let c = v[i];
        if !(c >= '0' && c <= '9') {
            assert(!is_digit(v@[i as int]));
            return None;
        }
        let d: u32 = c as u32 - '0' as u32;
        let wide: u64 = acc as u64 * 10 + d as u64;
        proof {
            assert(v@.take(i + 1).drop_last() =~= v@.take(i as int));
            assert(v@.take(i + 1).last() == v@[i as int]);
            assert(dec_val(v@.take(i + 1)) == dec_val(v@.take(i as int)) * 10 + digit_val(
                v@[i as int],
            ));
        }
        if wide > u32::MAX as u64 {
            proof {
                assert(all_digits(v@.take(i + 1)));
                assert(dec_val(v@.take(i + 1)) > u32::MAX);
                if all_digits(v@) {
                    lemma_dec_val_take_le(v@, i + 1);
                }
            }
            return None;
        }
        acc = wide as u32;
    }
    proof {
        assert(v@.take(n as int) =~= v@);
    }
    Some(acc)
}

// ---------------------------------------------------------------------------
// Rolling
// ---------------------------------------------------------------------------

/// Relies on `rand::random_range`: the draw is uniform over `1..=sides`;
/// the range is nonempty, so the call does not panic.
#[verifier::external_body]
fn draw_die(sides: u32) -> (r: u32)
    requires
        sides >= 1,
    ensures
        1 <= r <= sides,
{
    rand::random_range(1..=sides)
}

/// `d` pressed into the non-negative `i32` range.
fn clip_to_i32(d: u32) -> (r: i32)
    ensures
        r as int == min(d as int, i32::MAX as int),
{
    if d > 0x7fff_ffff {
        i32::MAX
    } else {
        d as i32
    }
}

/// Adds without overflowing, saturating at `i32::MAX`.
fn clip_add(x: i32, y: i32) -> (r: i32)
    requires
        x >= 0,
        y >= 0,
    ensures
        r as int == min(x as int + y as int, i32::MAX as int),
{
    if x > i32::MAX - y {
        i32::MAX
    } else {
        x + y
    }
}

/// One die of `x` faces.  Zero faces roll zero.  In exploding mode a die
/// that lands on its maximum face (of two or more) is rolled again and the
/// draws accumulate, saturating at `i32::MAX`; a one-sided die never
/// explodes.
fn roll_single(x: u32, explode: bool) -> (r: i32)
    ensures
        0 <= r <= i32::MAX,
        x == 0 ==> r == 0,
        x >= 1 ==> r >= 1,
        x >= 1 && !explode ==> r as int <= min(x as int, i32::MAX as int),
        x == 1 ==> r == 1,
{
    if x == 0 {
        return 0;
    }
    let mut d = draw_die(x);
    let mut r = clip_to_i32(d);
    if explode && x > 1 {
        while d == x && r < i32::MAX
            invariant
                x >= 2,
                1 <= r <= i32::MAX,
            decreases i32::MAX - r,
        {
            d = draw_die(x);
            let extra = clip_to_i32(d);
            r = clip_add(r, extra);
        }
    }
    r
}

/// Sums `a` independent single-die rolls of `b` faces, saturating at
/// `i32::MAX`.
fn roll(a: u32, b: u32, explode: bool) -> (r: i32)
    ensures
        0 <= r <= i32::MAX,
        dice_value_ok(a as int, b as int, explode, r as int),
{
    let mut sum: i32 = 0;
    let mut i: u32 = 0;
    while i < a
        invariant
            i <= a,
            0 <= sum <= i32::MAX,
            i == 0 ==> sum == 0,
            b == 0 ==> sum == 0,
            b >= 1 ==> sum as int >= min(i as int, i32::MAX as int),
            b >= 1 && !explode ==> sum as int <= min(i as int * b as int, i32::MAX as int),
            b == 1 ==> sum as int == min(i as int, i32::MAX as int),
        decreases a - i,
    {
        let d = roll_single(b, explode);
        proof {
            assert((i as int + 1) * b as int == i as int * b as int + b as int) by (nonlinear_arith);
            if b >= 1 {
                assert(i as int * b as int >= 0) by (nonlinear_arith)
                    requires b >= 1 && i >= 0;
            }
        }
        sum = clip_add(sum, d);
        i = i + 1;
    }
    sum
}

// ---------------------------------------------------------------------------
// Tokenizing
// ---------------------------------------------------------------------------

/// One signed term of an expression, as split off by the tokenizer.
pub struct SignedTerm {
    pub neg: bool,
    pub body: Vec<char>,
}

impl View for SignedTerm {
    type V = (bool, Seq<char>);

    open spec fn view(&self) -> (bool, Seq<char>) {
        (self.neg, self.body@)
    }
}

pub open spec fn views_of(ts: Seq<SignedTerm>) -> Seq<(bool, Seq<char>)> {
    Seq::new(ts.len(), |i: int| ts[i]@)
}

/// Splits an expression on `+`/`-` into signed terms, the sign of each term
/// being the separator before it; a leading unsigned term counts as `+`.
fn tokenize(s: &Vec<char>) -> (toks: Vec<SignedTerm>)
    ensures
        views_of(toks@) == terms_of(s@),
{
    let mut toks: Vec<SignedTerm> = Vec::new();
    if s.len() == 0 {
        proof {
            assert(views_of(toks@) =~= terms_of(s@));
        }
        return toks;
    }
    let mut cur: Vec<char> = Vec::new();
    let mut neg = false;
    let n = s.len();
    proof {
        assert(s@.skip(0) =~= s@);
    }
    for i in 0..n
        invariant
            n == s@.len(),
            n > 0,
            views_of(toks@) + split_terms(s@.skip(i as int), cur@, neg) == split_terms(
                s@,
                Seq::empty(),
                false,
            ),
    {
        let ghost prev = views_of(toks@) + split_terms(s@.skip(i as int), cur@, neg);
        let c = s[i];
        proof {
            assert(s@.skip(i as int)[0] == s@[i as int]);
            assert(s@.skip(i as int).drop_first() =~= s@.skip(i + 1));
        }
        if c == '+' || c == '-' {
            let done = SignedTerm { neg, body: cur };
            toks.push(done);
            cur = Vec::new();
            neg = c == '-';
            proof {
                assert(views_of(toks@) =~= views_of(toks@.drop_last()).push((
                    toks@.last().neg,
                    toks@.last().body@,
                )));
                assert(views_of(toks@) + split_terms(s@.skip(i + 1), cur@, neg) =~= prev);
            }
        } else {
            cur.push(c);
            proof {
                assert(views_of(toks@) + split_terms(s@.skip(i + 1), cur@, neg) =~= prev);
            }
        }
    }
    let last = SignedTerm { neg, body: cur };
    toks.push(last);
    proof {
        assert(s@.skip(n as int) =~= Seq::<char>::empty());
        assert(views_of(toks@) =~= views_of(toks@.drop_last()).push((
            toks@.last().neg,
            toks@.last().body@,
        )));
        assert(views_of(toks@) =~= terms_of(s@));
    }
    toks
}

// ---------------------------------------------------------------------------
// Evaluating one term
// ---------------------------------------------------------------------------

/// Evaluates one signed term: the signed literal value, or the signed sum
/// of its dice rolls.  Malformed terms answer `None`.
fn eval_term(neg: bool, body: &Vec<char>, explode: bool) -> (r: Option<i32>)
    ensures
        r is Some <==> term_wf(neg, body@),
        r matches Some(v) ==> term_value_ok(neg, body@, explode, v as int),
{
    let len = body.len();
    match find_char(body, 'd') {
        Some(di) => {
            let count_part = subvec(body, 0, di);
            let sides_part = subvec(body, di + 1, len);
            proof {
                assert(count_part@ =~= dice_count_part(body@));
                assert(sides_part@ =~= dice_sides_part(body@));
            }
            let a: u32 = if count_part.len() == 0 {
                1
            } else {
                match parse_u32(&count_part) {
                    Some(x) => x,
                    None => {
                        return None;
                    },
                }
            };
            let b: u32 = match parse_u32(&sides_part) {
                Some(x) => x,
                None => {
                    return None;
                },
            };
            let m = roll(a, b, explode);
            if neg {
                Some(-m)
            } else {
                Some(m)
            }
        },
        None => {
            let mag = match parse_u32(body) {
                Some(x) => x,
                None => {
                    return None;
                },
            };
            if neg {
                if mag > 0x8000_0000 {
                    return None;
                }
                if mag == 0x8000_0000 {
                    Some(i32::MIN)
                } else {
                    Some(-(mag as i32))
                }
            } else {
                if mag > 0x7fff_ffff {
                    return None;
                }
                Some(mag as i32)
            }
        },
    }
}

// ---------------------------------------------------------------------------
// The public evaluator
// ---------------------------------------------------------------------------

/// The rollable token of a raw request: the text before the first space,
/// with a trailing `*` removed.
fn strip_text(chars: Vec<char>) -> (r: Vec<char>)
    ensures
        r@ == stripped_expr(chars@),
{
    let ghost c0 = chars@;
    let mut p = match find_char(&chars, ' ') {
        Some(i) => subvec(&chars, 0, i),
        None => chars,
    };
    proof {
        assert(p@ =~= roll_part(c0));
    }
    let ghost rp = p@;
    if p.len() > 0 && p[p.len() - 1] == '*' {
        p.pop();
        proof {
            assert(p@ =~= strip_star(rp));
        }
    }
    p
}

/// Evaluates a dice request: one signed value per well-formed term of the
/// first whitespace-delimited token, or `[-666]` when none is usable.
pub fn get_results(request: &str) -> (r: Vec<i32>)
    ensures
        results_ok(request@, r@),
{
    let chars = chars_of(request);
    let ghost input = chars@;
    let mut p = strip_text(chars);
    let explode = p.len() > 0 && p[0] == '!';
    if explode {
        p.remove(0);
        proof {
            assert(p@ =~= dice_expr(input));
        }
    }
    proof {
        assert(p@ =~= dice_expr(input));
    }
    let toks = tokenize(&p);
    let ghost tv = terms_of(dice_expr(input));
    let mut out: Vec<i32> = Vec::new();
    let n = toks.len();
    proof {
        assert(tv.take(0) =~= Seq::<(bool, Seq<char>)>::empty());
    }
    for ti in 0..n
        invariant
            n == toks@.len(),
            views_of(toks@) == tv,
            out@.len() == wf_terms(tv.take(ti as int)).len(),
            forall|i: int|
                0 <= i < out@.len() ==> term_value_ok(
                    wf_terms(tv.take(ti as int))[i].0,
                    wf_terms(tv.take(ti as int))[i].1,
                    explode_mode(input),
                    #[trigger] out@[i] as int,
                ),
            explode == explode_mode(input),
    {
        let ghost prev_wf = wf_terms(tv.take(ti as int));
        let t = &toks[ti];
        proof {
            assert(tv[ti as int] == toks@[ti as int]@);
            assert(tv.take(ti + 1).drop_last() =~= tv.take(ti as int));
            assert(tv.take(ti + 1).last() == tv[ti as int]);
        }
        match eval_term(t.neg, &t.body, explode) {
            Some(v) => {
                out.push(v);
                proof {
                    assert(wf_terms(tv.take(ti + 1)) =~= prev_wf.push(tv[ti as int]));
                }
            },
            None => {
                proof {
                    assert(wf_terms(tv.take(ti + 1)) =~= prev_wf);
                }
            },
        }
    }
    proof {
        assert(tv.take(n as int) =~= tv);
    }
    if out.len() == 0 {
        out.push(NO_RESULT);
        proof {
            assert(out@ =~= seq![NO_RESULT]);
        }
    }
    out
}

/// True when the request asks for a hidden roll: its first
/// whitespace-delimited token ends in `*`.
pub fn is_hidden_roll(input: &str) -> (r: bool)
    ensures
        r == hidden_roll(input@),
{
    let chars = chars_of(input);
    let rp = match find_char(&chars, ' ') {
        Some(i) => subvec(&chars, 0, i),
        None => chars,
    };
    if rp.len() > 0 {
        rp[rp.len() - 1] == '*'
    } else {
        false
    }
}

/// Replaces the rollable token of a hidden roll by a marker, keeping the
/// free-form text after the first space.
pub fn hide_roll_part(input: &str) -> (r: String)
    ensures
        r@ == "!*hidden* "@ + flavor_text(input@),
{
    let chars = chars_of(input);
    let mut out = String::from_str("!*hidden* ");
    match find_char(&chars, ' ') {
        Some(i) => {
            let n = input.unicode_len();
            let rest = input.substring_char(i + 1, n);
            out.append(rest);
        },
        None => {
            proof {
                assert(out@ =~= "!*hidden* "@ + flavor_text(input@));
            }
        },
    }
    out
}

} // verus!
