//! Number literals.
//!
//! A [`Number`] keeps the literal as it was written, so nothing is rounded
//! when a file is read. A decimal literal denotes the exact value
//! `±mantissa · 10^scale`; range tests are decided on that value, digit by
//! digit, with no limit on the number of digits. The words for infinity and
//! NaN are number literals too; they lie in no range.
//!
//! A range test here is stricter than the same test on the nearest 32-bit
//! float, because rounding can move a value onto a bound: `1.00000001` lies
//! above 1, though the float nearest to it is 1.0, and `-1e-50` lies below
//! 0, though the float nearest to it is zero. A consumer that turns the
//! literals into floats gets numbers within the range in either case.

use crate::text::{copy_range, to_chars, to_text};
use vstd::prelude::*;

verus! {

/// An ASCII decimal digit.
pub open spec fn is_digit(c: char) -> bool {
    '0' <= c && c <= '9'
}

/// The value of a decimal digit.
pub open spec fn digit_value(c: char) -> nat {
    (c as u32 - '0' as u32) as nat
}

/// Number of digits at the start of `s`.
pub open spec fn digit_run(s: Seq<char>) -> nat
    decreases s.len(),
{
    if s.len() == 0 || !is_digit(s[0]) {
        0
    } else {
        1 + digit_run(s.drop_first())
    }
}

/// The natural number that a sequence of digits spells, most significant
/// digit first.
pub open spec fn digits_value(s: Seq<char>) -> nat
    decreases s.len(),
{
    if s.len() == 0 {
        0
    } else {
        digits_value(s.drop_last()) * 10 + digit_value(s.last())
    }
}

/// Whether `s` begins with a sign.
pub open spec fn is_signed(s: Seq<char>) -> bool {
    s.len() > 0 && (s[0] == '+' || s[0] == '-')
}

/// `s` without its sign.
pub open spec fn unsigned(s: Seq<char>) -> Seq<char> {
    if is_signed(s) {
        s.drop_first()
    } else {
        s
    }
}

/// The parts of a decimal literal.
pub struct Parts {
    /// Whether the literal begins with `-`.
    pub negative: bool,
    /// The digits before the point.
    pub whole: Seq<char>,
    /// The digits after the point.
    pub fraction: Seq<char>,
    /// The power of ten written after `e`, or 0.
    pub exponent: int,
}

impl Parts {
    /// All digits of the literal as one natural number.
    pub open spec fn mantissa(self) -> nat {
        digits_value(self.whole + self.fraction)
    }

    /// The power of ten by which the mantissa is scaled.
    pub open spec fn scale(self) -> int {
        self.exponent - self.fraction.len()
    }

    /// Whether the value `±mantissa · 10^scale` lies in `[0, bound]`.
    pub open spec fn in_range(self, bound: nat) -> bool {
        self.mantissa() == 0 || (!self.negative && if self.scale() >= 0 {
            self.mantissa() * pow10(self.scale() as nat) <= bound
        } else {
            self.mantissa() <= bound * pow10((-self.scale()) as nat)
        })
    }
}

/// Ten to the power `n`.
pub open spec fn pow10(n: nat) -> nat
    decreases n,
{
    if n == 0 {
        1
    } else {
        10 * pow10((n - 1) as nat)
    }
}

/// The exponent that `t` spells: `e` or `E`, an optional sign, and at least
/// one digit up to the end.
pub open spec fn exponent_of(t: Seq<char>) -> Option<int> {
    if t.len() > 0 && (t[0] == 'e' || t[0] == 'E') {
        let d = unsigned(t.drop_first());
        if d.len() > 0 && digit_run(d) == d.len() {
            if t.len() > 1 && t[1] == '-' {
                Some(-(digits_value(d) as int))
            } else {
                Some(digits_value(d) as int)
            }
        } else {
            None
        }
    } else {
        None
    }
}

/// The digits of a literal and what follows them.
pub struct Mantissa {
    /// The digits before the point.
    pub whole: Seq<char>,
    /// The digits after the point.
    pub fraction: Seq<char>,
    /// What follows the last digit.
    pub tail: Seq<char>,
}

/// Reads digits, then an optional point with more digits, from the start of
/// `body`.
pub open spec fn mantissa_of(body: Seq<char>) -> Mantissa {
    let w = digit_run(body) as int;
    let rest = body.skip(w);
    if rest.len() > 0 && rest[0] == '.' {
        let after = rest.drop_first();
        let f = digit_run(after) as int;
        Mantissa { whole: body.take(w), fraction: after.take(f), tail: after.skip(f) }
    } else {
        Mantissa { whole: body.take(w), fraction: Seq::empty(), tail: rest }
    }
}

/// Reads `s` as a decimal literal: an optional sign; digits with an optional
/// point among them, at least one digit in all; an optional exponent.
pub open spec fn parts_of(s: Seq<char>) -> Option<Parts> {
    let m = mantissa_of(unsigned(s));
    let negative = s.len() > 0 && s[0] == '-';
    if m.whole.len() + m.fraction.len() == 0 {
        None
    } else if m.tail.len() == 0 {
        Some(Parts { negative, whole: m.whole, fraction: m.fraction, exponent: 0 })
    } else {
        match exponent_of(m.tail) {
            Some(exponent) => Some(
                Parts { negative, whole: m.whole, fraction: m.fraction, exponent },
            ),
            None => None,
        }
    }
}

/// Whether `s` spells the word `small`, each letter in either case; `big`
/// is the same word in capitals.
pub open spec fn spells(s: Seq<char>, small: Seq<char>, big: Seq<char>) -> bool {
    s.len() == small.len() && s.len() == big.len() && forall|k: int|
        0 <= k < s.len() ==> s[k] == small[k] || s[k] == big[k]
}

/// Whether `s` names an infinity or a NaN: an optional sign, then `inf`,
/// `infinity` or `nan`, each letter in either case.
pub open spec fn is_special(s: Seq<char>) -> bool {
    let body = unsigned(s);
    spells(body, "inf"@, "INF"@) || spells(body, "infinity"@, "INFINITY"@) || spells(
        body,
        "nan"@,
        "NAN"@,
    )
}

/// Whether `s` is a decimal literal, which denotes a finite value.
pub open spec fn is_finite(s: Seq<char>) -> bool {
    parts_of(s) is Some
}

/// Whether `s` is a number literal: a decimal literal, an infinity or a NaN.
/// These are the words that can be read as a floating-point number.
pub open spec fn is_number(s: Seq<char>) -> bool {
    is_finite(s) || is_special(s)
}

/// Whether `s` is a number literal whose value lies in `[0, bound]`. The
/// value is the one written, not the nearest float: a literal that is above
/// `bound` by however little, or below zero by however little, is out of
/// range. An infinity and a NaN lie in no range.
pub open spec fn in_range(s: Seq<char>, bound: nat) -> bool {
    match parts_of(s) {
        Some(p) => p.in_range(bound),
        None => false,
    }
}

/// Whether `s` holds digits only.
pub open spec fn all_digits(s: Seq<char>) -> bool {
    forall|k: int| 0 <= k < s.len() ==> is_digit(#[trigger] s[k])
}

/// `digit_run` is the position before which only digits stand and at which
/// none does, or the sequence ends.
pub proof fn lemma_digit_run(s: Seq<char>, n: int)
    requires
        0 <= n <= s.len(),
        forall|k: int| 0 <= k < n ==> is_digit(s[k]),
        n < s.len() ==> !is_digit(s[n]),
    ensures
        digit_run(s) == n,
    decreases n,
{
    if n > 0 {
        let t = s.drop_first();
        assert forall|k: int| 0 <= k < n - 1 implies is_digit(t[k]) by {
            assert(t[k] == s[k + 1]);
        }
        lemma_digit_run(t, n - 1);
    }
}

/// A run of digits stays within its text and holds digits only.
pub proof fn lemma_digit_run_digits(s: Seq<char>)
    ensures
        digit_run(s) <= s.len(),
        forall|k: int| 0 <= k < digit_run(s) ==> is_digit(#[trigger] s[k]),
    decreases s.len(),
{
    if s.len() > 0 && is_digit(s[0]) {
        let t = s.drop_first();
        lemma_digit_run_digits(t);
        assert forall|k: int| 0 <= k < digit_run(s) implies is_digit(#[trigger] s[k]) by {
            if k > 0 {
                assert(s[k] == t[k - 1]);
            }
        }
    }
}

/// A character that can stand in a number literal: a digit, a sign, the
/// point or an ASCII letter.
pub open spec fn is_literal_char(c: char) -> bool {
    is_digit(c) || c == '+' || c == '-' || c == '.' || ('a' <= c && c <= 'z') || ('A' <= c && c
        <= 'Z')
}

/// Whether `s` holds only characters that can stand in a number literal.
pub open spec fn all_literal(s: Seq<char>) -> bool {
    forall|k: int| 0 <= k < s.len() ==> is_literal_char(#[trigger] s[k])
}

/// An exponent holds only characters of number literals.
proof fn lemma_exponent_chars(t: Seq<char>)
    requires
        exponent_of(t) is Some,
    ensures
        all_literal(t),
{
    let d0 = t.drop_first();
    let d = unsigned(d0);
    lemma_digit_run_digits(d);
    assert forall|k: int| 0 <= k < t.len() implies is_literal_char(#[trigger] t[k]) by {
        if k > 0 {
            assert(t[k] == d0[k - 1]);
            if is_signed(d0) {
                if k > 1 {
                    assert(d0[k - 1] == d[k - 2]);
                }
            } else {
                assert(d0[k - 1] == d[k - 1]);
            }
        }
    }
}

/// The digits of a mantissa, and the point between them, are characters of
/// number literals; what follows them is the tail.
proof fn lemma_mantissa_chars(body: Seq<char>)
    requires
        all_literal(mantissa_of(body).tail),
    ensures
        all_literal(body),
        mantissa_of(body).whole.len() + mantissa_of(body).fraction.len() <= body.len(),
{
    lemma_digit_run_digits(body);
    let w = digit_run(body) as int;
    let rest = body.skip(w);
    if rest.len() > 0 && rest[0] == '.' {
        let after = rest.drop_first();
        lemma_digit_run_digits(after);
        let f = digit_run(after) as int;
        let tail = after.skip(f);
        assert forall|k: int| 0 <= k < body.len() implies is_literal_char(#[trigger] body[k]) by {
            if k > w {
                assert(body[k] == after[k - w - 1]);
                if k - w - 1 >= f {
                    assert(after[k - w - 1] == tail[k - w - 1 - f]);
                }
            } else if k == w {
                assert(body[k] == rest[0]);
            }
        }
    } else {
        assert forall|k: int| 0 <= k < body.len() implies is_literal_char(#[trigger] body[k]) by {
            if k >= w {
                assert(body[k] == rest[k - w]);
            }
        }
    }
}

/// A word in small letters and in capitals is spelt with letters only.
proof fn lemma_spells_chars(s: Seq<char>, small: Seq<char>, big: Seq<char>)
    requires
        spells(s, small, big),
        forall|k: int| 0 <= k < small.len() ==> 'a' <= small[k] && small[k] <= 'z',
        forall|k: int| 0 <= k < big.len() ==> 'A' <= big[k] && big[k] <= 'Z',
    ensures
        all_literal(s),
{
    assert forall|k: int| 0 <= k < s.len() implies is_literal_char(#[trigger] s[k]) by {
        assert(s[k] == small[k] || s[k] == big[k]);
    }
}

/// A number literal is not empty and holds only digits, signs, the point
/// and ASCII letters.
pub proof fn lemma_number_chars(s: Seq<char>)
    requires
        is_number(s),
    ensures
        s.len() > 0,
        all_literal(s),
{
    let body = unsigned(s);
    if is_finite(s) {
        let m = mantissa_of(body);
        if m.tail.len() > 0 {
            lemma_exponent_chars(m.tail);
        }
        lemma_mantissa_chars(body);
    } else {
        reveal_strlit("inf");
        reveal_strlit("INF");
        reveal_strlit("infinity");
        reveal_strlit("INFINITY");
        reveal_strlit("nan");
        reveal_strlit("NAN");
        if spells(body, "inf"@, "INF"@) {
            lemma_spells_chars(body, "inf"@, "INF"@);
        } else if spells(body, "infinity"@, "INFINITY"@) {
            lemma_spells_chars(body, "infinity"@, "INFINITY"@);
        } else {
            lemma_spells_chars(body, "nan"@, "NAN"@);
        }
    }
    assert forall|k: int| 0 <= k < s.len() implies is_literal_char(#[trigger] s[k]) by {
        if is_signed(s) && k > 0 {
            assert(s[k] == body[k - 1]);
        }
    }
}

/// Tests whether `c` is a decimal digit.
pub fn is_ascii_digit(c: char) -> (r: bool)
    ensures
        r == is_digit(c),
{
    '0' <= c && c <= '9'
}

/// Position of the first character at or after `from` that is no digit.
fn skip_digits(s: &[char], from: usize) -> (to: usize)
    requires
        from <= s.len(),
    ensures
        from <= to <= s.len(),
        to - from == digit_run(s@.skip(from as int)),
        forall|k: int| from <= k < to ==> is_digit(s@[k]),
        to < s.len() ==> !is_digit(s@[to as int]),
{
    let mut i: usize = from;
    while i < s.len() && is_ascii_digit(s[i])
        invariant
            from <= i <= s.len(),
            forall|k: int| from <= k < i ==> is_digit(s@[k]),
        decreases s.len() - i,
    {
        i += 1;
    }
    proof {
        lemma_digit_run(s@.skip(from as int), i - from);
    }
    i
}

/// Where the parts of a literal stand in its text.
struct Layout {
    negative: bool,
    whole_start: usize,
    whole_end: usize,
    fraction_start: usize,
    fraction_end: usize,
    exponent_negative: bool,
    exponent_start: usize,
}

impl Layout {
    /// The order of the positions in a text of length `n`.
    spec fn ordered(self, n: int) -> bool {
        self.whole_start <= self.whole_end <= self.fraction_start <= self.fraction_end
            <= self.exponent_start <= n
    }

    /// The exponent that the layout points at.
    spec fn exponent(self, s: Seq<char>) -> int {
        let e = digits_value(s.skip(self.exponent_start as int)) as int;
        if self.exponent_negative {
            -e
        } else {
            e
        }
    }

    /// The layout agrees with what `parts_of` reads from `s`.
    spec fn describes(self, s: Seq<char>) -> bool {
        &&& self.ordered(s.len() as int)
        &&& self.whole_end - self.whole_start + (self.fraction_end - self.fraction_start) > 0
        &&& all_digits(s.subrange(self.whole_start as int, self.whole_end as int))
        &&& all_digits(s.subrange(self.fraction_start as int, self.fraction_end as int))
        &&& all_digits(s.skip(self.exponent_start as int))
        &&& parts_of(s) == Some(
            Parts {
                negative: self.negative,
                whole: s.subrange(self.whole_start as int, self.whole_end as int),
                fraction: s.subrange(self.fraction_start as int, self.fraction_end as int),
                exponent: self.exponent(s),
            },
        )
    }
}

/// Finds the digits of a literal that begins at `from`: the end of the whole
/// digits, and the range of the fraction digits.
fn scan_mantissa(s: &[char], from: usize) -> (r: (usize, usize, usize))
    requires
        from <= s.len(),
    ensures
        from <= r.0 <= r.1 <= r.2 <= s.len(),
        all_digits(s@.subrange(from as int, r.0 as int)),
        all_digits(s@.subrange(r.1 as int, r.2 as int)),
        mantissa_of(s@.skip(from as int)) == (Mantissa {
            whole: s@.subrange(from as int, r.0 as int),
            fraction: s@.subrange(r.1 as int, r.2 as int),
            tail: s@.skip(r.2 as int),
        }),
{
    let whole_end = skip_digits(s, from);
    let ghost body = s@.skip(from as int);
    let ghost rest = body.skip(whole_end - from);
    assert(rest == s@.skip(whole_end as int));
    assert(body.take(whole_end - from) == s@.subrange(from as int, whole_end as int));
    if whole_end < s.len() && s[whole_end] == '.' {
        let fraction_end = skip_digits(s, whole_end + 1);
        proof {
            let after = rest.drop_first();
            assert(after == s@.skip(whole_end + 1));
            assert(after.take(fraction_end - whole_end - 1) == s@.subrange(
                whole_end + 1,
                fraction_end as int,
            ));
            assert(after.skip(fraction_end - whole_end - 1) == s@.skip(fraction_end as int));
        }
        (whole_end, whole_end + 1, fraction_end)
    } else {
        assert(s@.subrange(whole_end as int, whole_end as int) == Seq::<char>::empty());
        (whole_end, whole_end, whole_end)
    }
}

/// Reads the exponent that begins at `from`: its sign and where its digits
/// begin.
fn scan_exponent(s: &[char], from: usize) -> (r: Option<(bool, usize)>)
    requires
        from < s.len(),
    ensures
        r matches Some((_, start)) ==> all_digits(s@.skip(start as int)),
        match exponent_of(s@.skip(from as int)) {
            Some(e) => r matches Some((negative, start)) && from < start < s.len() && e == if negative {
                -(digits_value(s@.skip(start as int)) as int)
            } else {
                digits_value(s@.skip(start as int)) as int
            },
            None => r is None,
        },
{
    let n = s.len();
    let ghost tail = s@.skip(from as int);
    if s[from] != 'e' && s[from] != 'E' {
        return None;
    }
    let mark = from + 1;
    let signed = mark < n && (s[mark] == '+' || s[mark] == '-');
    let negative = mark < n && s[mark] == '-';
    let start: usize = if signed {
        mark + 1
    } else {
        mark
    };
    let end = skip_digits(s, start);
    proof {
        assert(tail.drop_first() == s@.skip(mark as int));
        assert(unsigned(tail.drop_first()) == s@.skip(start as int));
    }
    if start == n || end != n {
        None
    } else {
        Some((negative, start))
    }
}

/// Finds the parts of a decimal literal, or reports that `s` is none.
fn scan(s: &[char]) -> (r: Option<Layout>)
    ensures
        r is Some <==> is_finite(s@),
        r matches Some(l) ==> l.describes(s@),
{
    let n = s.len();
    let signed = n > 0 && (s[0] == '+' || s[0] == '-');
    let negative = n > 0 && s[0] == '-';
    let whole_start: usize = if signed {
        1
    } else {
        0
    };
    assert(unsigned(s@) == s@.skip(whole_start as int));
    let (whole_end, fraction_start, fraction_end) = scan_mantissa(s, whole_start);
    if whole_end - whole_start + (fraction_end - fraction_start) == 0 {
        return None;
    }
    if fraction_end == n {
        assert(digits_value(s@.skip(n as int)) == 0);
        return Some(
            Layout {
                negative,
                whole_start,
                whole_end,
                fraction_start,
                fraction_end,
                exponent_negative: false,
                exponent_start: n,
            },
        );
    }
    match scan_exponent(s, fraction_end) {
        Some((exponent_negative, exponent_start)) => Some(
            Layout {
                negative,
                whole_start,
                whole_end,
                fraction_start,
                fraction_end,
                exponent_negative,
                exponent_start,
            },
        ),
        None => None,
    }
}

/// Tests whether `s[from..]` spells a word, given in small letters and in
/// capitals.
fn spells_from(s: &[char], from: usize, small: &str, big: &str) -> (r: bool)
    requires
        from <= s.len(),
    ensures
        r == spells(s@.skip(from as int), small@, big@),
{
    let a = to_chars(small);
    let b = to_chars(big);
    let n = s.len() - from;
    if a.len() != n || b.len() != n {
        return false;
    }
    let ghost rest = s@.skip(from as int);
    let mut k: usize = 0;
    while k < n
        invariant
            k <= n,
            n == s.len() - from,
            a.len() == n,
            b.len() == n,
            rest == s@.skip(from as int),
            a@ == small@,
            b@ == big@,
            forall|j: int| 0 <= j < k ==> rest[j] == a@[j] || rest[j] == b@[j],
        decreases n - k,
    {
        let c = s[from + k];
        assert(rest[k as int] == c);
        if c != a[k] && c != b[k] {
            assert(!(rest[k as int] == small@[k as int] || rest[k as int] == big@[k as int]));
            return false;
        }
        k += 1;
    }
    true
}

/// Tests whether `s` names an infinity or a NaN.
fn special(s: &[char]) -> (r: bool)
    ensures
        r == is_special(s@),
{
    let from: usize = if s.len() > 0 && (s[0] == '+' || s[0] == '-') {
        1
    } else {
        0
    };
    assert(unsigned(s@) == s@.skip(from as int));
    spells_from(s, from, "inf", "INF") || spells_from(s, from, "infinity", "INFINITY")
        || spells_from(s, from, "nan", "NAN")
}

/// Powers of ten are positive and grow with the exponent.
pub proof fn lemma_pow10_monotone(a: nat, b: nat)
    requires
        a <= b,
    ensures
        1 <= pow10(a) <= pow10(b),
    decreases b,
{
    if b > a {
        lemma_pow10_monotone(a, (b - 1) as nat);
    } else if a > 0 {
        lemma_pow10_monotone((a - 1) as nat, (a - 1) as nat);
    }
}

/// A run of `n` digits spells a number below `10^n`.
pub proof fn lemma_digits_bound(s: Seq<char>)
    requires
        all_digits(s),
    ensures
        digits_value(s) < pow10(s.len()),
    decreases s.len(),
{
    if s.len() > 0 {
        let t = s.drop_last();
        assert(all_digits(t)) by {
            assert forall|k: int| 0 <= k < t.len() implies is_digit(#[trigger] t[k]) by {
                assert(t[k] == s[k]);
            }
        }
        lemma_digits_bound(t);
        assert(is_digit(s[s.len() - 1]));
    }
}

/// Digits spell zero exactly when each of them is `0`.
pub proof fn lemma_digits_zero(s: Seq<char>)
    requires
        all_digits(s),
    ensures
        digits_value(s) == 0 <==> forall|k: int| 0 <= k < s.len() ==> s[k] == '0',
    decreases s.len(),
{
    if s.len() > 0 {
        let t = s.drop_last();
        assert(all_digits(t)) by {
            assert forall|k: int| 0 <= k < t.len() implies is_digit(#[trigger] t[k]) by {
                assert(t[k] == s[k]);
            }
        }
        lemma_digits_zero(t);
        assert(is_digit(s[s.len() - 1]));
        if digits_value(s) == 0 {
            assert forall|k: int| 0 <= k < s.len() implies s[k] == '0' by {
                if k < t.len() {
                    assert(t[k] == s[k]);
                }
            }
        } else {
            if forall|k: int| 0 <= k < s.len() ==> s[k] == '0' {
                assert forall|k: int| 0 <= k < t.len() implies t[k] == '0' by {
                    assert(t[k] == s[k]);
                }
                assert(false);
            }
        }
    }
}

/// The digits before position `at` count `10^(len - at)` times, the digits
/// from `at` on count once.
pub proof fn lemma_digits_split(s: Seq<char>, at: int)
    requires
        0 <= at <= s.len(),
    ensures
        digits_value(s) == digits_value(s.take(at)) * pow10((s.len() - at) as nat) + digits_value(
            s.skip(at),
        ),
    decreases s.len(),
{
    if at == s.len() {
        assert(s.take(at) == s);
        assert(s.skip(at).len() == 0);
        assert(pow10(0) == 1);
        assert(digits_value(s) * 1 == digits_value(s));
    } else {
        let t = s.drop_last();
        lemma_digits_split(t, at);
        assert(t.take(at) == s.take(at));
        assert(s.skip(at).drop_last() == t.skip(at));
        assert(s.skip(at).last() == s.last());
        let hi = digits_value(s.take(at));
        let p = pow10((t.len() - at) as nat);
        let lo = digits_value(t.skip(at));
        assert(pow10((s.len() - at) as nat) == 10 * p);
        assert((hi * p + lo) * 10 == hi * (10 * p) + lo * 10) by (nonlinear_arith);
        assert(digits_value(s) == digits_value(t) * 10 + digit_value(s.last()));
        assert(digits_value(s.skip(at)) == lo * 10 + digit_value(s.last()));
    }
}

/// Comparing `hi · p + lo` with `bound · p`, where `lo < p`, comes down to
/// comparing `hi` with `bound`, and on a tie to whether `lo` is zero.
pub proof fn lemma_scaled_le(hi: nat, lo: nat, p: nat, bound: nat)
    requires
        lo < p,
    ensures
        hi * p + lo <= bound * p <==> hi < bound || (hi == bound && lo == 0),
{
    if hi < bound {
        assert(hi * p + p <= bound * p) by (nonlinear_arith)
            requires
                hi + 1 <= bound,
        ;
    } else if hi == bound {
    } else {
        assert(hi * p >= bound * p + p) by (nonlinear_arith)
            requires
                hi >= bound + 1,
        ;
    }
}

/// Tests whether every character of `s[from..to]` is `0`.
fn all_zero(s: &[char], from: usize, to: usize) -> (r: bool)
    requires
        from <= to <= s.len(),
    ensures
        r == forall|k: int| from <= k < to ==> s@[k] == '0',
{
    let mut i: usize = from;
    while i < to
        invariant
            from <= i <= to <= s.len(),
            forall|k: int| from <= k < i ==> s@[k] == '0',
        decreases to - i,
    {
        if s[i] != '0' {
            return false;
        }
        i += 1;
    }
    true
}

/// The number that the digits `s[from..to]` spell, or `cap` if that is less.
fn capped_value(s: &[char], from: usize, to: usize, cap: u128) -> (r: u128)
    requires
        from <= to <= s.len(),
        all_digits(s@.subrange(from as int, to as int)),
        cap <= 0x1000_0000_0000_0000_0000_0000,
    ensures
        r == if digits_value(s@.subrange(from as int, to as int)) < cap {
            digits_value(s@.subrange(from as int, to as int))
        } else {
            cap as nat
        },
{
    let mut acc: u128 = 0;
    let mut i: usize = from;
    assert(s@.subrange(from as int, from as int).len() == 0);
    while i < to
        invariant
            from <= i <= to <= s.len(),
            all_digits(s@.subrange(from as int, to as int)),
            cap <= 0x1000_0000_0000_0000_0000_0000,
            acc <= cap,
            acc == if digits_value(s@.subrange(from as int, i as int)) < cap {
                digits_value(s@.subrange(from as int, i as int))
            } else {
                cap as nat
            },
        decreases to - i,
    {
        let c = s[i];
        proof {
            let next = s@.subrange(from as int, i + 1);
            assert(next.drop_last() == s@.subrange(from as int, i as int));
            assert(next.last() == c);
            assert(s@.subrange(from as int, to as int)[i - from] == c);
        }
        let d: u128 = (c as u32 - '0' as u32) as u128;
        let next: u128 = acc * 10 + d;
        acc = if next < cap {
            next
        } else {
            cap
        };
        i += 1;
    }
    acc
}

/// Ten to the power `n`, for `n` below ten.
fn small_pow10(n: u128) -> (r: u128)
    requires
        n < 10,
    ensures
        r == pow10(n as nat),
        1 <= r <= 1_000_000_000,
{
    let mut r: u128 = 1;
    let mut i: u128 = 0;
    proof {
        reveal_with_fuel(pow10, 10);
    }
    while i < n
        invariant
            i <= n < 10,
            r == pow10(i as nat),
            r * pow10((9 - i) as nat) == 1_000_000_000,
        decreases n - i,
    {
        proof {
            let rest = pow10((9 - i - 1) as nat);
            assert(pow10((9 - i) as nat) == 10 * rest);
            assert(r * (10 * rest) == (r * 10) * rest) by (nonlinear_arith);
            lemma_pow10_monotone(0, (9 - i - 1) as nat);
            assert(r * 10 <= (r * 10) * rest) by (nonlinear_arith)
                requires
                    rest >= 1,
            ;
        }
        r = r * 10;
        i += 1;
    }
    proof {
        lemma_pow10_monotone(0, (9 - n) as nat);
        assert(r <= r * pow10((9 - n) as nat)) by (nonlinear_arith)
            requires
                pow10((9 - n) as nat) >= 1,
        ;
    }
    r
}

/// Decides whether the digits `d`, with `lower` of them counted as below
/// the point, spell a value of at most `bound`.
fn digits_at_most(d: &[char], lower: usize, bound: u32) -> (r: bool)
    requires
        lower <= d.len(),
        all_digits(d@),
    ensures
        r == (digits_value(d@) <= bound * pow10(lower as nat)),
{
    let at = d.len() - lower;
    proof {
        assert(all_digits(d@.subrange(0, at as int))) by {
            assert forall|k: int| 0 <= k < at implies is_digit(
                #[trigger] d@.subrange(0, at as int)[k],
            ) by {
                assert(d@.subrange(0, at as int)[k] == d@[k]);
            }
        }
        assert(all_digits(d@.skip(at as int))) by {
            assert forall|k: int| 0 <= k < lower implies is_digit(
                #[trigger] d@.skip(at as int)[k],
            ) by {
                assert(d@.skip(at as int)[k] == d@[at + k]);
            }
        }
        lemma_digits_split(d@, at as int);
        lemma_digits_bound(d@.skip(at as int));
        lemma_digits_zero(d@.skip(at as int));
        lemma_scaled_le(
            digits_value(d@.take(at as int)),
            digits_value(d@.skip(at as int)),
            pow10(lower as nat),
            bound as nat,
        );
        assert forall|k: int| 0 <= k < lower implies d@.skip(at as int)[k] == d@[at + k] by {}
    }
    let hi = capped_value(d, 0, at, bound as u128 + 1);
    let low_zero = all_zero(d, at, d.len());
    proof {
        if low_zero {
            assert forall|k: int| 0 <= k < lower implies d@.skip(at as int)[k] == '0' by {
                assert(d@.skip(at as int)[k] == d@[at + k]);
            }
        } else {
            let k = choose|k: int| at <= k < d.len() && d@[k] != '0';
            assert(d@.skip(at as int)[k - at] == d@[k]);
        }
    }
    hi < bound as u128 || (hi == bound as u128 && low_zero)
}

/// The natural number that `s` spells, if it is an optional `+` and at
/// least one digit, and the number is at most `max`.
pub open spec fn unsigned_value(s: Seq<char>, max: nat) -> Option<nat> {
    let d = if s.len() > 0 && s[0] == '+' {
        s.drop_first()
    } else {
        s
    };
    if d.len() > 0 && all_digits(d) && digits_value(d) <= max {
        Some(digits_value(d))
    } else {
        None
    }
}

/// Reads `token` as an unsigned decimal integer of at most `max`.
fn parse_unsigned(token: &[char], max: u32) -> (r: Option<u32>)
    ensures
        match unsigned_value(token@, max as nat) {
            Some(v) => r == Some(v as u32),
            None => r is None,
        },
{
    let n = token.len();
    let start: usize = if n > 0 && token[0] == '+' {
        1
    } else {
        0
    };
    let end = skip_digits(token, start);
    let ghost d = token@.skip(start as int);
    proof {
        assert(token@.subrange(start as int, n as int) == d);
        assert(token@.skip(0) == token@);
        assert(token@.skip(1) == token@.drop_first());
        if end == n {
            assert forall|k: int| 0 <= k < d.len() implies is_digit(#[trigger] d[k]) by {
                assert(d[k] == token@[start + k]);
            }
        } else {
            assert(d[end - start] == token@[end as int]);
        }
    }
    if start == n || end != n {
        return None;
    }
    let value = capped_value(token, start, n, max as u128 + 1);
    if value <= max as u128 {
        Some(value as u32)
    } else {
        None
    }
}

/// Reads `token` as a `u32` in decimal.
pub fn parse_u32(token: &[char]) -> (r: Option<u32>)
    ensures
        match unsigned_value(token@, u32::MAX as nat) {
            Some(v) => r == Some(v as u32),
            None => r is None,
        },
{
    parse_unsigned(token, u32::MAX)
}

/// Reads `token` as a `u8` in decimal.
pub fn parse_u8(token: &[char]) -> (r: Option<u8>)
    ensures
        match unsigned_value(token@, u8::MAX as nat) {
            Some(v) => r == Some(v as u8),
            None => r is None,
        },
{
    match parse_unsigned(token, 255) {
        Some(v) => Some(v as u8),
        None => None,
    }
}

/// The literal that stands for a number that was not given.
pub open spec fn zero_literal() -> Seq<char> {
    seq!['0', '.', '0']
}

/// The literal `0.0` is a number, and lies in every range from zero up.
pub proof fn lemma_zero_literal()
    ensures
        is_number(zero_literal()),
        forall|bound: nat| in_range(zero_literal(), bound),
{
    let s = zero_literal();
    assert(unsigned(s) == s);
    lemma_digit_run(s, 1);
    let after = s.skip(1).drop_first();
    assert(after == seq!['0']);
    lemma_digit_run(after, 1);
    assert(after.skip(1).len() == 0);
    let p = parts_of(s).unwrap();
    assert(p.whole == seq!['0']);
    assert(p.fraction == seq!['0']);
    let d = p.whole + p.fraction;
    assert(d == seq!['0', '0']);
    assert(d.drop_last() == seq!['0']);
    assert(d.drop_last().drop_last().len() == 0);
    reveal_with_fuel(digits_value, 3);
    assert(p.mantissa() == 0);
}

/// A number literal, kept as written: a decimal literal, an infinity or a
/// NaN. Two numbers are equal when they are written alike.
#[derive(Debug, PartialEq, Eq)]
pub struct Number {
    text: Vec<char>,
}

impl View for Number {
    type V = Seq<char>;

    /// The literal's characters.
    closed spec fn view(&self) -> Seq<char> {
        self.text@
    }
}

impl Number {
    /// Every `Number` holds a well-formed literal.
    #[verifier::type_invariant]
    spec fn well_formed(self) -> bool {
        is_number(self.text@)
    }

    /// Accepts `token` if it is a number literal.
    pub fn from_chars(token: &[char]) -> (r: Option<Number>)
        ensures
            r is Some <==> is_number(token@),
            r matches Some(n) ==> n@ == token@,
    {
        if scan(token).is_some() || special(token) {
            let text = copy_range(token, 0, token.len());
            assert(text@ == token@);
            Some(Number { text })
        } else {
            None
        }
    }

    /// Accepts `token` if it is a number literal.
    pub fn parse(token: &str) -> (r: Option<Number>)
        ensures
            r is Some <==> is_number(token@),
            r matches Some(n) ==> n@ == token@,
    {
        let chars = to_chars(token);
        Number::from_chars(chars.as_slice())
    }

    /// The literal `0.0`.
    pub fn zero() -> (r: Number)
        ensures
            r@ == zero_literal(),
    {
        let mut text: Vec<char> = Vec::new();
        text.push('0');
        text.push('.');
        text.push('0');
        proof {
            lemma_zero_literal();
            assert(text@ == zero_literal());
        }
        Number { text }
    }

    /// Tests whether the value lies in `[0, bound]`. The test is exact: it
    /// is made on the value as written, before any rounding to a float.
    pub fn in_range(&self, bound: u32) -> (r: bool)
        ensures
            r == in_range(self@, bound as nat),
    {
        proof {
            use_type_invariant(self);
        }
        let s = self.text.as_slice();
        let l = match scan(s) {
            Some(l) => l,
            None => {
                // An infinity or a NaN.
                return false;
            },
        };
        let whole = l.whole_end - l.whole_start;
        let fraction = l.fraction_end - l.fraction_start;
        let mut digits = copy_range(s, l.whole_start, l.whole_end);
        let mut rest = copy_range(s, l.fraction_start, l.fraction_end);
        digits.append(&mut rest);
        let ghost p = parts_of(s@).unwrap();
        proof {
            assert(digits@ == p.whole + p.fraction);
            assert(all_digits(digits@)) by {
                assert forall|k: int| 0 <= k < digits@.len() implies is_digit(
                    #[trigger] digits@[k],
                ) by {
                    if k < whole {
                        assert(digits@[k] == p.whole[k]);
                    } else {
                        assert(digits@[k] == p.fraction[k - whole]);
                    }
                }
            }
            lemma_digits_zero(digits@);
            lemma_digits_bound(digits@);
        }
        if all_zero(digits.as_slice(), 0, digits.len()) {
            // Zero, whatever its sign and exponent.
            return true;
        }
        if l.negative {
            return false;
        }
        // The exponent moves the point by `power` places, to the left if it
        // is negative, else to the right. A larger exponent than any text has
        // digits counts as the cap.
        assert(s@.subrange(l.exponent_start as int, s@.len() as int) == s@.skip(
            l.exponent_start as int,
        ));
        let power = capped_value(s, l.exponent_start, s.len(), 0x8_0000_0000_0000_0000);
        if l.exponent_negative {
            if power >= whole as u128 {
                // The point stands before every digit: the value is below one.
                proof {
                    lemma_pow10_monotone(digits@.len(), (-p.scale()) as nat);
                    let high = pow10((-p.scale()) as nat);
                    assert(bound >= 1 ==> bound * high >= high) by (nonlinear_arith);
                    assert(bound == 0 ==> bound * high == 0) by (nonlinear_arith);
                }
                return bound >= 1;
            }
            digits_at_most(digits.as_slice(), fraction + power as usize, bound)
        } else if power <= fraction as u128 {
            let lower = fraction - power as usize;
            proof {
                if lower == 0 {
                    assert(digits_value(digits@) * pow10(0) == digits_value(digits@) * 1);
                    assert(bound * pow10(0) == bound * 1);
                }
            }
            digits_at_most(digits.as_slice(), lower, bound)
        } else if power - fraction as u128 >= 10 {
            // At least ten zeros follow the digits: the value is above any bound.
            proof {
                lemma_pow10_monotone(10, p.scale() as nat);
                reveal_with_fuel(pow10, 11);
                let m = digits_value(digits@);
                let high = pow10(p.scale() as nat);
                assert(m * high >= high) by (nonlinear_arith)
                    requires
                        m >= 1,
                ;
            }
            false
        } else {
            // Fewer than ten zeros follow the digits.
            let scale = power - fraction as u128;
            let high = small_pow10(scale);
            let low = capped_value(digits.as_slice(), 0, digits.len(), bound as u128 + 1);
            proof {
                assert(digits@.subrange(0, digits@.len() as int) == digits@);
                let m = digits_value(digits@);
                if m > bound {
                    assert(m * high > bound) by (nonlinear_arith)
                        requires
                            m > bound,
                            high >= 1,
                    ;
                    assert(low * high > bound) by (nonlinear_arith)
                        requires
                            low > bound,
                            high >= 1,
                    ;
                }
                assert(low * high <= 0x1_0000_0000 * 1_000_000_000) by (nonlinear_arith)
                    requires
                        low <= 0x1_0000_0000,
                        high <= 1_000_000_000,
                ;
            }
            low * high <= bound as u128
        }
    }

    /// The literal as a string.
    pub fn text(&self) -> (r: String)
        ensures
            r@ == self@,
    {
        to_text(self.text.as_slice())
    }
}

} // verus!
