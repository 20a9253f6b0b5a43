//! JSON values as the gateway reads and writes them.
//!
//! A number is an exact decimal: a sign, a mantissa and a power of ten. A
//! number written as a plain integer has exponent zero; every digit behind
//! the point lowers the exponent by one (`0.7` is `7 * 10^-1`, `2.0` is
//! `20 * 10^-1`). An object is a list of fields in the order they were given;
//! a lookup finds the first field of a name.

use vstd::prelude::*;
use crate::text::{
    all_digits, chars_of, decimal, digit_char, digits_number, digits_value, first_index,
    lemma_all_digits_of_parts, lemma_first_index_is, push_decimal, push_range, range_eq,
    string_of,
};

verus! {

/// Ten to the power `n`.
pub open spec fn pow10(n: nat) -> nat
    decreases n,
{
    if n == 0 {
        1
    } else {
        10 * pow10((n - 1) as nat)
    }
}

/// Powers of ten are positive and grow with the exponent.
pub proof fn lemma_pow10_monotonic(a: nat, b: nat)
    requires
        a <= b,
    ensures
        1 <= pow10(a) <= pow10(b),
    decreases b,
{
    if a == 0 && b == 0 {
    } else if a == b {
        lemma_pow10_monotonic((a - 1) as nat, (b - 1) as nat);
    } else {
        lemma_pow10_monotonic(a, (b - 1) as nat);
    }
}

/// The power of a sum of exponents is the product of the powers.
pub proof fn lemma_pow10_adds(a: nat, b: nat)
    ensures
        pow10(a + b) == pow10(a) * pow10(b),
    decreases a,
{
    if a == 0 {
        assert(pow10(0) * pow10(b) == pow10(b)) by (nonlinear_arith)
            requires
                pow10(0) == 1,
        ;
    } else {
        lemma_pow10_adds((a - 1) as nat, b);
        assert((a - 1) as nat + b == (a + b - 1) as nat);
        assert(10 * (pow10((a - 1) as nat) * pow10(b)) == (10 * pow10((a - 1) as nat)) * pow10(b))
            by (nonlinear_arith);
    }
}

/// A JSON number: `mantissa * 10^exponent`, negated where `negative` is set.
#[derive(Clone, Copy, Debug, PartialEq, Eq, Structural)]
pub struct JsonNumber {
    pub negative: bool,
    pub mantissa: u64,
    pub exponent: i32,
}

/// `a * 10^ea < b * 10^eb`, decided on integers by scaling both sides to the
/// smaller exponent.
pub open spec fn scaled_less(a: int, ea: int, b: int, eb: int) -> bool {
    let lo = if ea <= eb {
        ea
    } else {
        eb
    };
    a * pow10((ea - lo) as nat) < b * pow10((eb - lo) as nat)
}

impl JsonNumber {
    /// The mantissa with the number's sign.
    pub open spec fn signed(self) -> int {
        if self.negative {
            -(self.mantissa as int)
        } else {
            self.mantissa as int
        }
    }

    /// `self < other` as rational numbers.
    pub open spec fn less_than(self, other: JsonNumber) -> bool {
        scaled_less(self.signed(), self.exponent as int, other.signed(), other.exponent as int)
    }

    /// The value as an unsigned integer, where the number was written as one.
    pub open spec fn unsigned_value(self) -> Option<u64> {
        if !self.negative && self.exponent == 0 {
            Some(self.mantissa)
        } else {
            None
        }
    }

    /// The non-negative integer `n`.
    pub fn from_u64(n: u64) -> (number: JsonNumber)
        ensures
            number == (JsonNumber { negative: false, mantissa: n, exponent: 0 }),
    {
        JsonNumber { negative: false, mantissa: n, exponent: 0 }
    }

    /// The decimal `mantissa * 10^exponent`, negated where `negative` is set.
    pub fn decimal(negative: bool, mantissa: u64, exponent: i32) -> (number: JsonNumber)
        ensures
            number == (JsonNumber { negative, mantissa, exponent }),
    {
        JsonNumber { negative, mantissa, exponent }
    }

    /// The value as an unsigned integer: `Some` exactly for a number written
    /// as a non-negative integer.
    pub fn as_u64(&self) -> (value: Option<u64>)
        ensures
            value == self.unsigned_value(),
    {
        if !self.negative && self.exponent == 0 {
            Some(self.mantissa)
        } else {
            None
        }
    }

    /// Whether `self < other` as rational numbers.
    pub fn lt(&self, other: &JsonNumber) -> (less: bool)
        ensures
            less == self.less_than(*other),
    {
        let ghost lo = if self.exponent <= other.exponent {
            self.exponent as int
        } else {
            other.exponent as int
        };
        let ghost pa = pow10((self.exponent - lo) as nat);
        let ghost pb = pow10((other.exponent - lo) as nat);
        proof {
            lemma_pow10_monotonic(0, (self.exponent - lo) as nat);
            lemma_pow10_monotonic(0, (other.exponent - lo) as nat);
        }
        let a = self.mantissa;
        let b = other.mantissa;
        if self.negative {
            if other.negative {
                let less = magnitude_less(b, other.exponent, a, self.exponent);
                proof {
                    assert((-(a as int)) * pa == -(a * pa)) by (nonlinear_arith);
                    assert((-(b as int)) * pb == -(b * pb)) by (nonlinear_arith);
                }
                less
            } else {
                proof {
                    assert((-(a as int)) * pa == -(a * pa)) by (nonlinear_arith);
                    assert(a > 0 ==> a * pa > 0) by (nonlinear_arith)
                        requires
                            pa >= 1,
                    ;
                    assert(b > 0 ==> b * pb > 0) by (nonlinear_arith)
                        requires
                            pb >= 1,
                    ;
                    assert(a == 0 ==> a * pa == 0) by (nonlinear_arith);
                    assert(b == 0 ==> b * pb == 0) by (nonlinear_arith);
                }
                a != 0 || b != 0
            }
        } else {
            if other.negative {
                proof {
                    assert((-(b as int)) * pb == -(b * pb)) by (nonlinear_arith);
                    assert(a * pa >= 0) by (nonlinear_arith)
                        requires
                            a >= 0,
                            pa >= 1,
                    ;
                    assert(b * pb >= 0) by (nonlinear_arith)
                        requires
                            b >= 0,
                            pb >= 1,
                    ;
                }
                false
            } else {
                magnitude_less(a, self.exponent, b, other.exponent)
            }
        }
    }
}

/// Two numbers compare as their mantissas do once both are scaled to any
/// exponent that is at most the exponent of each.
pub proof fn lemma_less_than_on_scale(a: JsonNumber, b: JsonNumber, scale: int)
    requires
        scale <= a.exponent,
        scale <= b.exponent,
    ensures
        a.less_than(b) <==> a.signed() * pow10((a.exponent - scale) as nat) < b.signed() * pow10(
            (b.exponent - scale) as nat,
        ),
{
    let lo = if a.exponent <= b.exponent {
        a.exponent as int
    } else {
        b.exponent as int
    };
    let pa = pow10((a.exponent - lo) as nat);
    let pb = pow10((b.exponent - lo) as nat);
    let shift = pow10((lo - scale) as nat);
    lemma_pow10_adds((a.exponent - lo) as nat, (lo - scale) as nat);
    lemma_pow10_adds((b.exponent - lo) as nat, (lo - scale) as nat);
    lemma_pow10_monotonic(0, (lo - scale) as nat);
    assert((a.exponent - lo) as nat + (lo - scale) as nat == (a.exponent - scale) as nat);
    assert((b.exponent - lo) as nat + (lo - scale) as nat == (b.exponent - scale) as nat);
    let x = a.signed();
    let y = b.signed();
    assert((x * pa < y * pb) <==> (x * (pa * shift) < y * (pb * shift))) by (nonlinear_arith)
        requires
            shift >= 1,
    ;
}

/// The order of numbers is transitive, and no number is less than itself.
pub proof fn lemma_less_than_orders(a: JsonNumber, b: JsonNumber, c: JsonNumber)
    ensures
        !a.less_than(a),
        a.less_than(b) && b.less_than(c) ==> a.less_than(c),
        a.less_than(b) && !c.less_than(b) ==> a.less_than(c),
        !b.less_than(a) && b.less_than(c) ==> a.less_than(c),
        !b.less_than(a) && !c.less_than(b) ==> !c.less_than(a),
        a.less_than(b) ==> !b.less_than(a),
{
    let scale = if a.exponent <= b.exponent && a.exponent <= c.exponent {
        a.exponent as int
    } else if b.exponent <= c.exponent {
        b.exponent as int
    } else {
        c.exponent as int
    };
    lemma_less_than_on_scale(a, a, scale);
    lemma_less_than_on_scale(a, b, scale);
    lemma_less_than_on_scale(b, a, scale);
    lemma_less_than_on_scale(b, c, scale);
    lemma_less_than_on_scale(c, b, scale);
    lemma_less_than_on_scale(a, c, scale);
    lemma_less_than_on_scale(c, a, scale);
}

/// The place of the first exponent mark, `e` or `E`, in `s`, or the length of
/// `s` where it has none.
pub open spec fn exponent_mark(s: Seq<char>) -> int
    decreases s.len(),
{
    if s.len() == 0 || s[0] == 'e' || s[0] == 'E' {
        0
    } else {
        1 + exponent_mark(s.drop_first())
    }
}

/// A place that holds the first exponent mark, or the end where there is
/// none, is `exponent_mark`.
proof fn lemma_exponent_mark_is(s: Seq<char>, at: int)
    requires
        0 <= at <= s.len(),
        at < s.len() ==> s[at] == 'e' || s[at] == 'E',
        forall|k: int| 0 <= k < at ==> s[k] != 'e' && s[k] != 'E',
    ensures
        exponent_mark(s) == at,
    decreases s.len(),
{
    if s.len() == 0 || s[0] == 'e' || s[0] == 'E' {
    } else {
        assert forall|k: int| 0 <= k < at - 1 implies s.drop_first()[k] != 'e' && s.drop_first()[k]
            != 'E' by {
            assert(s.drop_first()[k] == s[k + 1]);
        }
        lemma_exponent_mark_is(s.drop_first(), at - 1);
    }
}

/// The exponent that the text behind an exponent mark denotes: one or more
/// digits, with or without a sign before them.
pub open spec fn exponent_value(s: Seq<char>) -> Option<int> {
    let signed = s.len() > 0 && (s[0] == '-' || s[0] == '+');
    let digits = if signed {
        s.drop_first()
    } else {
        s
    };
    if digits.len() > 0 && all_digits(digits) {
        Some(
            if s[0] == '-' {
                -(digits_value(digits) as int)
            } else {
                digits_value(digits) as int
            },
        )
    } else {
        None
    }
}

/// The exponent of a number whose literal writes the exponent `written` and
/// has `places` digits behind the point: the written one less the places,
/// where that fits.
pub open spec fn scaled_exponent(written: Option<int>, places: int) -> Option<i32> {
    match written {
        Some(e) => if i32::MIN <= e - places <= i32::MAX {
            Some((e - places) as i32)
        } else {
            None
        },
        None => None,
    }
}

/// The mantissa that the digits before and behind the point denote together,
/// where they are digits and the number fits.
pub open spec fn mantissa_value(whole: Seq<char>, fraction: Seq<char>) -> Option<u64> {
    if all_digits(whole) && all_digits(fraction) && digits_value(whole + fraction) <= u64::MAX {
        Some(digits_value(whole + fraction) as u64)
    } else {
        None
    }
}

/// The number that a decimal literal without its sign denotes: one or more
/// digits, an optional fraction of a point and one or more digits, and an
/// optional exponent of a mark, an optional sign and one or more digits. The
/// mantissa is what the digits before and behind the point denote together,
/// and has to fit; the exponent is the written one less the number of digits
/// behind the point, and has to fit.
pub open spec fn unsigned_literal(body: Seq<char>, negative: bool) -> Option<JsonNumber> {
    let mark = exponent_mark(body);
    let significand = body.take(mark);
    let written = if mark < body.len() {
        exponent_value(body.skip(mark + 1))
    } else {
        Some(0int)
    };
    let point = first_index(significand, '.');
    let whole = significand.take(point);
    let fraction = if point < significand.len() {
        significand.skip(point + 1)
    } else {
        Seq::empty()
    };
    let mantissa = mantissa_value(whole, fraction);
    let exponent = scaled_exponent(written, fraction.len() as int);
    if whole.len() > 0 && (point < significand.len() ==> fraction.len() > 0) && mantissa is Some
        && exponent is Some {
        Some(JsonNumber { negative, mantissa: mantissa->Some_0, exponent: exponent->Some_0 })
    } else {
        None
    }
}

/// The number that a decimal literal denotes: an optional `-`, and what
/// `unsigned_literal` reads behind it.
pub open spec fn decimal_literal(s: Seq<char>) -> Option<JsonNumber> {
    if s.len() > 0 && s[0] == '-' {
        unsigned_literal(s.drop_first(), true)
    } else {
        unsigned_literal(s, false)
    }
}

/// The mantissa of the digits `v[start..point]` and `v[fraction_from..mark]`.
fn read_mantissa(v: &Vec<char>, start: usize, point: usize, fraction_from: usize, mark: usize) -> (mantissa:
    Option<u64>)
    requires
        start <= point <= fraction_from <= mark <= v.len(),
    ensures
        mantissa == mantissa_value(
            v@.subrange(start as int, point as int),
            v@.subrange(fraction_from as int, mark as int),
        ),
{
    let ghost whole = v@.subrange(start as int, point as int);
    let ghost fraction = v@.subrange(fraction_from as int, mark as int);
    let mut digits: Vec<char> = Vec::new();
    push_range(&mut digits, v, start, point);
    push_range(&mut digits, v, fraction_from, mark);
    proof {
        assert(digits@ =~= whole + fraction);
        assert(digits@.subrange(0, digits.len() as int) =~= digits@);
        lemma_all_digits_of_parts(whole, fraction);
    }
    match digits_number(&digits, 0, digits.len(), 0xffff_ffff_ffff_ffff) {
        Some(m) => Some(m as u64),
        None => None,
    }
}

/// The exponent of a number whose literal writes its exponent in
/// `v[from..to]` and has `places` digits behind the point.
fn read_exponent(v: &Vec<char>, from: usize, to: usize, places: usize) -> (exponent: Option<i32>)
    requires
        from <= to <= v.len(),
    ensures
        exponent == scaled_exponent(
            exponent_value(v@.subrange(from as int, to as int)),
            places as int,
        ),
{
    let ghost tail = v@.subrange(from as int, to as int);
    let signed = from < to && (v[from] == '-' || v[from] == '+');
    let down = from < to && v[from] == '-';
    let digits_from: usize = if signed {
        from + 1
    } else {
        from
    };
    proof {
        if signed {
            assert(tail.drop_first() =~= v@.subrange(digits_from as int, to as int));
        }
    }
    if digits_from == to {
        return None;
    }
    let most: u128 = if down {
        if places > 0x8000_0000 {
            return None;
        }
        (0x8000_0000 - places) as u128
    } else {
        places as u128 + 0x7fff_ffff
    };
    match digits_number(v, digits_from, to, most) {
        Some(e) => {
            let scaled: i128 = if down {
                -(e as i128) - places as i128
            } else {
                e as i128 - places as i128
            };
            if scaled < -0x8000_0000 || scaled > 0x7fff_ffff {
                None
            } else {
                Some(scaled as i32)
            }
        },
        None => None,
    }
}

/// The places of the exponent mark and of the point in the literal that
/// begins at `start`.
fn literal_marks(v: &Vec<char>, start: usize) -> (marks: (usize, usize))
    requires
        start <= v.len(),
    ensures
        start <= marks.1 <= marks.0 <= v.len(),
        marks.0 - start == exponent_mark(v@.skip(start as int)),
        marks.1 - start == first_index(v@.skip(start as int).take(marks.0 - start), '.'),
{
    let n = v.len();
    let ghost body = v@.skip(start as int);
    let mut mark: usize = start;
    while mark < n && v[mark] != 'e' && v[mark] != 'E'
        invariant
            start <= mark <= n,
            n == v.len(),
            body == v@.skip(start as int),
            forall|k: int| 0 <= k < mark - start ==> body[k] != 'e' && body[k] != 'E',
        decreases n - mark,
    {
        mark += 1;
    }
    proof {
        lemma_exponent_mark_is(body, mark - start);
    }
    let ghost significand = body.take(mark - start);
    let mut point: usize = start;
    while point < mark && v[point] != '.'
        invariant
            start <= point <= mark <= n,
            n == v.len(),
            significand == v@.skip(start as int).take(mark - start),
            forall|k: int| 0 <= k < point - start ==> significand[k] != '.',
        decreases mark - point,
    {
        point += 1;
    }
    proof {
        lemma_first_index_is(significand, '.', point - start);
    }
    (mark, point)
}

/// Reads the literal that begins at `start`, behind its sign.
fn read_literal(v: &Vec<char>, start: usize, negative: bool) -> (number: Option<JsonNumber>)
    requires
        start <= v.len(),
    ensures
        number == unsigned_literal(v@.skip(start as int), negative),
{
    let n = v.len();
    let (mark, point) = literal_marks(v, start);
    let fraction_from: usize = if point < mark {
        point + 1
    } else {
        mark
    };
    let ghost body = v@.skip(start as int);
    let ghost significand = body.take(mark - start);
    proof {
        assert(significand.take(point - start) =~= v@.subrange(start as int, point as int));
        if point < mark {
            assert(significand.skip(point - start + 1) =~= v@.subrange(
                fraction_from as int,
                mark as int,
            ));
        } else {
            assert(Seq::<char>::empty() =~= v@.subrange(fraction_from as int, mark as int));
        }
        if mark < n {
            assert(body.skip(mark - start + 1) =~= v@.subrange(mark + 1, n as int));
        }
    }
    if point == start {
        return None;
    }
    if point < mark && fraction_from == mark {
        return None;
    }
    let mantissa = match read_mantissa(v, start, point, fraction_from, mark) {
        Some(m) => m,
        None => {
            return None;
        },
    };
    let places = mark - fraction_from;
    let exponent = if mark < n {
        read_exponent(v, mark + 1, n, places)
    } else {
        if places > 0x8000_0000 {
            None
        } else {
            Some((-(places as i64)) as i32)
        }
    };
    match exponent {
        Some(e) => Some(JsonNumber { negative, mantissa, exponent: e }),
        None => None,
    }
}

impl JsonNumber {
    /// Reads a decimal literal: see `decimal_literal`.
    pub fn parse(text: &str) -> (number: Option<JsonNumber>)
        ensures
            number == decimal_literal(text@),
    {
        let v = chars_of(text);
        if v.len() > 0 && v[0] == '-' {
            proof {
                assert(v@.drop_first() =~= v@.skip(1));
            }
            read_literal(&v, 1, true)
        } else {
            proof {
                assert(v@ =~= v@.skip(0));
            }
            read_literal(&v, 0, false)
        }
    }
}

/// Ten to the power `n`, for an exponent whose power fits.
fn power_of_ten(n: u32) -> (p: u128)
    requires
        n <= 19,
    ensures
        p == pow10(n as nat),
        p <= 10_000_000_000_000_000_000,
{
    proof {
        assert(pow10(19) == 10_000_000_000_000_000_000) by {
            reveal_with_fuel(pow10, 20);
        }
    }
    let mut p: u128 = 1;
    let mut i: u32 = 0;
    while i < n
        invariant
            i <= n <= 19,
            p == pow10(i as nat),
            p <= pow10(19),
            pow10(19) == 10_000_000_000_000_000_000,
        decreases n - i,
    {
        proof {
            lemma_pow10_monotonic((i + 1) as nat, 19);
        }
        p = p * 10;
        i += 1;
    }
    p
}

/// Whether `a * 10^ea < b * 10^eb`.
fn magnitude_less(a: u64, ea: i32, b: u64, eb: i32) -> (less: bool)
    ensures
        less == scaled_less(a as int, ea as int, b as int, eb as int),
{
    proof {
        assert(pow10(0) == 1);
        assert(pow10(20) == 100_000_000_000_000_000_000) by {
            reveal_with_fuel(pow10, 21);
        }
        assert(a * pow10(0) == a) by (nonlinear_arith)
            requires
                pow10(0) == 1,
        ;
        assert(b * pow10(0) == b) by (nonlinear_arith)
            requires
                pow10(0) == 1,
        ;
    }
    if ea >= eb {
        let d: i64 = ea as i64 - eb as i64;
        let ghost p = pow10(d as nat);
        if a == 0 {
            proof {
                assert(0 * p == 0) by (nonlinear_arith);
            }
            0 < b
        } else if d >= 20 {
            proof {
                lemma_pow10_monotonic(20, d as nat);
                assert(a * p >= p) by (nonlinear_arith)
                    requires
                        a >= 1,
                        p >= 0,
                ;
            }
            false
        } else {
            let q = power_of_ten(d as u32);
            proof {
                assert(a * q <= 0xffff_ffff_ffff_ffff * 10_000_000_000_000_000_000)
                    by (nonlinear_arith)
                    requires
                        0 <= a <= 0xffff_ffff_ffff_ffff,
                        0 <= q <= 10_000_000_000_000_000_000,
                ;
            }
            (a as u128) * q < (b as u128)
        }
    } else {
        let d: i64 = eb as i64 - ea as i64;
        let ghost p = pow10(d as nat);
        if b == 0 {
            proof {
                assert(0 * p == 0) by (nonlinear_arith);
            }
            false
        } else if d >= 20 {
            proof {
                lemma_pow10_monotonic(20, d as nat);
                assert(b * p >= p) by (nonlinear_arith)
                    requires
                        b >= 1,
                        p >= 0,
                ;
            }
            true
        } else {
            let q = power_of_ten(d as u32);
            proof {
                assert(b * q <= 0xffff_ffff_ffff_ffff * 10_000_000_000_000_000_000)
                    by (nonlinear_arith)
                    requires
                        0 <= b <= 0xffff_ffff_ffff_ffff,
                        0 <= q <= 10_000_000_000_000_000_000,
                ;
            }
            (a as u128) < (b as u128) * q
        }
    }
}

/// A JSON value.
#[derive(Debug)]
pub enum Json {
    Null,
    Bool(bool),
    Number(JsonNumber),
    String(String),
    Array(Vec<Json>),
    Object(Vec<(String, Json)>),
}

/// What a JSON value holds: its strings as texts, its lists as sequences.
#[verifier::ext_equal]
pub enum JsonView {
    Null,
    Bool(bool),
    Number(JsonNumber),
    String(Seq<char>),
    Array(Seq<JsonView>),
    Object(Seq<(Seq<char>, JsonView)>),
}

/// The value of the first field of `fields` named `key`.
pub open spec fn lookup(fields: Seq<(Seq<char>, JsonView)>, key: Seq<char>) -> Option<JsonView>
    decreases fields.len(),
{
    if fields.len() == 0 {
        None
    } else if fields[0].0 == key {
        Some(fields[0].1)
    } else {
        lookup(fields.drop_first(), key)
    }
}

/// `fields` without the fields named `key`.
pub open spec fn without_key(fields: Seq<(Seq<char>, JsonView)>, key: Seq<char>) -> Seq<
    (Seq<char>, JsonView),
>
    decreases fields.len(),
{
    if fields.len() == 0 {
        fields
    } else if fields.last().0 == key {
        without_key(fields.drop_last(), key)
    } else {
        without_key(fields.drop_last(), key).push(fields.last())
    }
}

impl JsonView {
    /// The value of the field `key`, where this is an object that has one.
    pub open spec fn get(self, key: Seq<char>) -> Option<JsonView> {
        match self {
            JsonView::Object(fields) => lookup(fields, key),
            _ => None,
        }
    }

    /// Whether the field `key` is there and holds the boolean `b`.
    pub open spec fn field_is_bool(self, key: Seq<char>, b: bool) -> bool {
        self.get(key) == Some(JsonView::Bool(b))
    }
}

/// What the value `j` holds.
pub open spec fn json_view(j: Json) -> JsonView
    decreases j,
{
    match j {
        Json::Null => JsonView::Null,
        Json::Bool(b) => JsonView::Bool(b),
        Json::Number(n) => JsonView::Number(n),
        Json::String(s) => JsonView::String(s@),
        Json::Array(items) => JsonView::Array(item_views(items@)),
        Json::Object(fields) => JsonView::Object(field_views(fields@)),
    }
}

/// The views of the items of a list.
pub open spec fn item_views(items: Seq<Json>) -> Seq<JsonView>
    decreases items,
{
    if items.len() == 0 {
        Seq::empty()
    } else {
        item_views(items.drop_last()).push(json_view(items.last()))
    }
}

/// The views of the fields of an object.
pub open spec fn field_views(fields: Seq<(String, Json)>) -> Seq<(Seq<char>, JsonView)>
    decreases fields,
{
    if fields.len() == 0 {
        Seq::empty()
    } else {
        field_views(fields.drop_last()).push((fields.last().0@, json_view(fields.last().1)))
    }
}

impl View for Json {
    type V = JsonView;

    open spec fn view(&self) -> JsonView {
        json_view(*self)
    }
}

/// The views of a list's items stand at the items' places.
pub proof fn lemma_item_views(items: Seq<Json>)
    ensures
        item_views(items).len() == items.len(),
        forall|i: int| 0 <= i < items.len() ==> (#[trigger] item_views(items)[i]) == items[i]@,
    decreases items.len(),
{
    if items.len() > 0 {
        lemma_item_views(items.drop_last());
    }
}

/// The views of an object's fields stand at the fields' places.
pub proof fn lemma_field_views(fields: Seq<(String, Json)>)
    ensures
        field_views(fields).len() == fields.len(),
        forall|i: int|
            0 <= i < fields.len() ==> (#[trigger] field_views(fields)[i]) == (
                fields[i].0@,
                fields[i].1@,
            ),
    decreases fields.len(),
{
    if fields.len() > 0 {
        lemma_field_views(fields.drop_last());
    }
}

impl Clone for Json {
    fn clone(&self) -> (copy: Json)
        ensures
            copy@ == self@,
        decreases self,
    {
        match self {
            Json::Null => Json::Null,
            Json::Bool(b) => Json::Bool(*b),
            Json::Number(n) => Json::Number(*n),
            Json::String(s) => Json::String(s.clone()),
            Json::Array(items) => {
                let mut out: Vec<Json> = Vec::new();
                let mut i: usize = 0;
                while i < items.len()
                    invariant
                        i <= items.len(),
                        self is Array,
                        self->Array_0 == *items,
                        out@.len() == i,
                        forall|k: int| 0 <= k < i ==> out@[k]@ == items@[k]@,
                    decreases items.len() - i,
                {
                    let item = items[i].clone();
                    out.push(item);
                    i += 1;
                }
                proof {
                    lemma_item_views(out@);
                    lemma_item_views(items@);
                    assert(item_views(out@) =~= item_views(items@));
                }
                Json::Array(out)
            },
            Json::Object(fields) => {
                let mut out: Vec<(String, Json)> = Vec::new();
                let mut i: usize = 0;
                while i < fields.len()
                    invariant
                        i <= fields.len(),
                        self is Object,
                        self->Object_0 == *fields,
                        out@.len() == i,
                        forall|k: int|
                            0 <= k < i ==> out@[k].0@ == fields@[k].0@ && out@[k].1@
                                == fields@[k].1@,
                    decreases fields.len() - i,
                {
                    let name = fields[i].0.clone();
                    let value = fields[i].1.clone();
                    out.push((name, value));
                    i += 1;
                }
                proof {
                    lemma_field_views(out@);
                    lemma_field_views(fields@);
                    assert(field_views(out@) =~= field_views(fields@));
                }
                Json::Object(out)
            },
        }
    }
}

impl Json {
    /// The string value `s`.
    pub fn string(s: &str) -> (value: Json)
        ensures
            value@ == JsonView::String(s@),
    {
        Json::String(string_of(&chars_of(s)))
    }

    /// The non-negative integer `n`.
    pub fn unsigned(n: u64) -> (value: Json)
        ensures
            value@ == JsonView::Number(JsonNumber { negative: false, mantissa: n, exponent: 0 }),
    {
        Json::Number(JsonNumber::from_u64(n))
    }

    /// The value of the first field named `key`, where this is an object that
    /// has one.
    pub fn get(&self, key: &str) -> (found: Option<&Json>)
        ensures
            match found {
                Some(value) => self@.get(key@) == Some(value@),
                None => self@.get(key@) is None,
            },
    {
        match self {
            Json::Object(fields) => {
                let name = chars_of(key);
                let ghost all = field_views(fields@);
                proof {
                    lemma_field_views(fields@);
                    assert(all.skip(0) =~= all);
                }
                let mut i: usize = 0;
                while i < fields.len()
                    invariant
                        i <= fields.len(),
                        name@ == key@,
                        all == field_views(fields@),
                        all.len() == fields.len(),
                        forall|k: int|
                            0 <= k < fields.len() ==> (#[trigger] all[k]) == (
                                fields[k].0@,
                                fields[k].1@,
                            ),
                        self@ == JsonView::Object(all),
                        lookup(all.skip(i as int), key@) == lookup(all, key@),
                    decreases fields.len() - i,
                {
                    let field_name = chars_of(fields[i].0.as_str());
                    proof {
                        assert(all.skip(i as int).drop_first() =~= all.skip(i + 1));
                        assert(all.skip(i as int)[0] == all[i as int]);
                    }
                    if range_eq(&field_name, 0, field_name.len(), &name, 0, name.len()) {
                        proof {
                            assert(field_name@.subrange(0, field_name.len() as int)
                                =~= field_name@);
                            assert(name@.subrange(0, name.len() as int) =~= name@);
                        }
                        return Some(&fields[i].1);
                    }
                    proof {
                        assert(field_name@.subrange(0, field_name.len() as int) =~= field_name@);
                        assert(name@.subrange(0, name.len() as int) =~= name@);
                    }
                    i += 1;
                }
                None
            },
            _ => None,
        }
    }

    /// Whether a field named `key` is there.
    pub fn has(&self, key: &str) -> (present: bool)
        ensures
            present == (self@.get(key@) is Some),
    {
        self.get(key).is_some()
    }

    /// The boolean this value holds, where it is one.
    pub fn as_bool(&self) -> (value: Option<bool>)
        ensures
            value == (match self@ {
                JsonView::Bool(b) => Some(b),
                _ => None,
            }),
    {
        match self {
            Json::Bool(b) => Some(*b),
            _ => None,
        }
    }

    /// The number this value holds, where it is one.
    pub fn as_number(&self) -> (value: Option<JsonNumber>)
        ensures
            value == (match self@ {
                JsonView::Number(n) => Some(n),
                _ => None,
            }),
    {
        match self {
            Json::Number(n) => Some(*n),
            _ => None,
        }
    }

    /// The text this value holds, where it is a string.
    pub fn as_str(&self) -> (value: Option<&str>)
        ensures
            match value {
                Some(s) => self@ == JsonView::String(s@),
                None => !(self@ is String),
            },
    {
        match self {
            Json::String(s) => Some(s.as_str()),
            _ => None,
        }
    }

    /// Whether the field `key` is there and holds the boolean `b`.
    pub fn field_is_bool(&self, key: &str, b: bool) -> (holds: bool)
        ensures
            holds == self@.field_is_bool(key@, b),
    {
        match self.get(key) {
            Some(value) => match value.as_bool() {
                Some(x) => x == b,
                None => false,
            },
            None => false,
        }
    }
}

/// The position of the first field named `key`, or the number of fields where
/// there is none.
pub open spec fn position(fields: Seq<(Seq<char>, JsonView)>, key: Seq<char>) -> int
    decreases fields.len(),
{
    if fields.len() == 0 || fields[0].0 == key {
        0
    } else {
        1 + position(fields.drop_first(), key)
    }
}

/// A place that holds the first field named `key`, or the end where no field
/// has that name, is `position`; and `lookup` finds the value there.
proof fn lemma_position_is(fields: Seq<(Seq<char>, JsonView)>, key: Seq<char>, at: int)
    requires
        0 <= at <= fields.len(),
        at < fields.len() ==> fields[at].0 == key,
        forall|k: int| 0 <= k < at ==> fields[k].0 != key,
    ensures
        position(fields, key) == at,
        lookup(fields, key) == if at < fields.len() {
            Some(fields[at].1)
        } else {
            None
        },
    decreases fields.len(),
{
    if fields.len() == 0 || fields[0].0 == key {
    } else {
        assert forall|k: int| 0 <= k < at - 1 implies fields.drop_first()[k].0 != key by {
            assert(fields.drop_first()[k] == fields[k + 1]);
        }
        lemma_position_is(fields.drop_first(), key, at - 1);
    }
}

/// `fields` with `key` set to `value`: the first field of that name gets the
/// value; where there is none, the field is added at the end.
pub open spec fn with_key(
    fields: Seq<(Seq<char>, JsonView)>,
    key: Seq<char>,
    value: JsonView,
) -> Seq<(Seq<char>, JsonView)> {
    let p = position(fields, key);
    if p < fields.len() {
        fields.update(p, (key, value))
    } else {
        fields.push((key, value))
    }
}

/// The hexadecimal digit for a value below sixteen, in lower case.
pub open spec fn hex_char(d: nat) -> char {
    if d < 10 {
        digit_char(d)
    } else if d == 10 {
        'a'
    } else if d == 11 {
        'b'
    } else if d == 12 {
        'c'
    } else if d == 13 {
        'd'
    } else if d == 14 {
        'e'
    } else {
        'f'
    }
}

/// How one character stands inside a JSON string: the quote and the backslash
/// behind a backslash, a control character as `\u00` and two hexadecimal
/// digits, any other character as itself.
pub open spec fn escaped_char(c: char) -> Seq<char> {
    if c == '"' {
        seq!['\\', '"']
    } else if c == '\\' {
        seq!['\\', '\\']
    } else if (c as u32) < 0x20 {
        seq![
            '\\',
            'u',
            '0',
            '0',
            hex_char(((c as u32) / 16) as nat),
            hex_char(((c as u32) % 16) as nat),
        ]
    } else {
        seq![c]
    }
}

/// The characters of `s`, each as it stands inside a JSON string.
pub open spec fn escaped(s: Seq<char>) -> Seq<char>
    decreases s.len(),
{
    if s.len() == 0 {
        Seq::empty()
    } else {
        escaped(s.drop_last()) + escaped_char(s.last())
    }
}

/// `s` as a JSON string, between double quotes.
pub open spec fn quoted(s: Seq<char>) -> Seq<char> {
    seq!['"'] + escaped(s) + seq!['"']
}

/// The exponent part of a number: nothing for zero, else `e` and the exponent.
pub open spec fn exponent_text(e: int) -> Seq<char> {
    if e == 0 {
        Seq::empty()
    } else if e < 0 {
        seq!['e', '-'] + decimal((-e) as nat)
    } else {
        seq!['e'] + decimal(e as nat)
    }
}

/// A number as JSON text: the sign, the mantissa in decimal digits, and the
/// exponent part.
pub open spec fn number_text(n: JsonNumber) -> Seq<char> {
    (if n.negative {
        seq!['-']
    } else {
        Seq::empty()
    }) + decimal(n.mantissa as nat) + exponent_text(n.exponent as int)
}

/// The canonical text of a JSON value: no white space, the fields of an
/// object in the order they are held.
pub open spec fn json_text(v: JsonView) -> Seq<char>
    decreases v,
{
    match v {
        JsonView::Null => seq!['n', 'u', 'l', 'l'],
        JsonView::Bool(b) => if b {
            seq!['t', 'r', 'u', 'e']
        } else {
            seq!['f', 'a', 'l', 's', 'e']
        },
        JsonView::Number(n) => number_text(n),
        JsonView::String(s) => quoted(s),
        JsonView::Array(items) => seq!['['] + items_text(items) + seq![']'],
        JsonView::Object(fields) => seq!['{'] + fields_text(fields) + seq!['}'],
    }
}

/// The texts of the items of an array, with commas between them.
pub open spec fn items_text(items: Seq<JsonView>) -> Seq<char>
    decreases items,
{
    if items.len() == 0 {
        Seq::empty()
    } else if items.len() == 1 {
        json_text(items.last())
    } else {
        items_text(items.drop_last()) + seq![','] + json_text(items.last())
    }
}

/// The texts of the fields of an object, each a quoted name, a colon and the
/// value, with commas between them.
pub open spec fn fields_text(fields: Seq<(Seq<char>, JsonView)>) -> Seq<char>
    decreases fields,
{
    if fields.len() == 0 {
        Seq::empty()
    } else if fields.len() == 1 {
        quoted(fields.last().0) + seq![':'] + json_text(fields.last().1)
    } else {
        fields_text(fields.drop_last()) + seq![','] + quoted(fields.last().0) + seq![':']
            + json_text(fields.last().1)
    }
}

/// The first exponent mark of digits followed by `rest` stands behind the
/// digits, where `rest` is empty or begins with a mark; and the digits hold
/// no point.
proof fn lemma_marks_behind_digits(digits: Seq<char>, rest: Seq<char>)
    requires
        all_digits(digits),
        rest.len() == 0 || rest[0] == 'e',
    ensures
        exponent_mark(digits + rest) == digits.len(),
        first_index(digits, '.') == digits.len(),
{
    let all = digits + rest;
    assert forall|k: int| 0 <= k < digits.len() implies all[k] != 'e' && all[k] != 'E'
        && digits[k] != '.' by {
        assert(all[k] == digits[k]);
        assert(crate::text::is_digit(digits[k]));
    }
    if rest.len() > 0 {
        assert(all[digits.len() as int] == rest[0]);
    }
    lemma_exponent_mark_is(all, digits.len() as int);
    lemma_first_index_is(digits, '.', digits.len() as int);
}

/// What is written is read back: the text of a number, read as a literal, is
/// the number.
pub proof fn lemma_number_text_reads_back(n: JsonNumber)
    ensures
        decimal_literal(number_text(n)) == Some(n),
{
    let digits = decimal(n.mantissa as nat);
    let tail = exponent_text(n.exponent as int);
    let body = digits + tail;
    let text = number_text(n);
    crate::text::lemma_decimal_denotes(n.mantissa as nat);
    assert(crate::text::is_digit(digits[0]));
    if n.negative {
        assert(text =~= seq!['-'] + body);
        assert(text[0] == '-');
        assert(text.drop_first() =~= body);
    } else {
        assert(text =~= body);
        assert(text[0] == digits[0]);
    }
    let magnitude: nat = if n.exponent < 0 {
        (-(n.exponent as int)) as nat
    } else {
        n.exponent as nat
    };
    crate::text::lemma_decimal_denotes(magnitude);
    let exponent_digits = decimal(magnitude);
    if n.exponent != 0 {
        assert(tail[0] == 'e');
    }
    lemma_marks_behind_digits(digits, tail);
    assert(body.take(digits.len() as int) =~= digits);
    assert(digits.take(digits.len() as int) =~= digits);
    assert(digits + Seq::<char>::empty() =~= digits);
    if n.exponent != 0 {
        let written = body.skip(digits.len() as int + 1);
        if n.exponent < 0 {
            assert(written =~= seq!['-'] + exponent_digits);
            assert(written[0] == '-');
            assert(written.drop_first() =~= exponent_digits);
        } else {
            assert(written =~= exponent_digits);
            assert(crate::text::is_digit(exponent_digits[0]));
        }
    }
    assert(unsigned_literal(body, n.negative) == Some(n));
}

/// The hexadecimal digit for `d`.
fn hex_digit(d: u32) -> (c: char)
    requires
        d < 16,
    ensures
        c == hex_char(d as nat),
{
    if d < 10 {
        crate::text::digit(d as u8)
    } else if d == 10 {
        'a'
    } else if d == 11 {
        'b'
    } else if d == 12 {
        'c'
    } else if d == 13 {
        'd'
    } else if d == 14 {
        'e'
    } else {
        'f'
    }
}

/// Appends `s` as a JSON string.
pub fn push_quoted(out: &mut Vec<char>, s: &str)
    ensures
        final(out)@ == old(out)@ + quoted(s@),
{
    let ghost before = out@;
    let v = chars_of(s);
    out.push('"');
    let mut i: usize = 0;
    proof {
        assert(v@.take(0) =~= Seq::<char>::empty());
        assert(out@ =~= before + seq!['"'] + escaped(v@.take(0)));
    }
    while i < v.len()
        invariant
            i <= v.len(),
            out@ == before + seq!['"'] + escaped(v@.take(i as int)),
        decreases v.len() - i,
    {
        let c = v[i];
        let u: u32 = c as u32;
        let ghost prev = out@;
        if c == '"' {
            out.push('\\');
            out.push('"');
        } else if c == '\\' {
            out.push('\\');
            out.push('\\');
        } else if u < 0x20 {
            out.push('\\');
            out.push('u');
            out.push('0');
            out.push('0');
            out.push(hex_digit(u / 16));
            out.push(hex_digit(u % 16));
        } else {
            out.push(c);
        }
        proof {
            assert(out@ =~= prev + escaped_char(c));
            assert(v@.take(i + 1).drop_last() =~= v@.take(i as int));
            assert(v@.take(i + 1).last() == c);
            assert(out@ =~= before + seq!['"'] + escaped(v@.take(i + 1)));
        }
        i += 1;
    }
    out.push('"');
    proof {
        assert(v@.take(v.len() as int) =~= v@);
        assert(out@ =~= before + quoted(s@));
    }
}

/// Appends a number as JSON text.
pub fn push_number(out: &mut Vec<char>, n: &JsonNumber)
    ensures
        final(out)@ == old(out)@ + number_text(*n),
{
    let ghost before = out@;
    if n.negative {
        out.push('-');
    }
    push_decimal(out, n.mantissa);
    let e: i64 = n.exponent as i64;
    if e < 0 {
        out.push('e');
        out.push('-');
        push_decimal(out, (-e) as u64);
    } else if e > 0 {
        out.push('e');
        push_decimal(out, e as u64);
    }
    proof {
        assert(out@ =~= before + number_text(*n));
    }
}

impl Json {
    /// Appends the canonical text of this value.
    pub fn write(&self, out: &mut Vec<char>)
        ensures
            final(out)@ == old(out)@ + json_text(self@),
        decreases self,
    {
        let ghost before = out@;
        match self {
            Json::Null => {
                out.push('n');
                out.push('u');
                out.push('l');
                out.push('l');
                proof {
                    assert(out@ =~= before + json_text(self@));
                }
            },
            Json::Bool(b) => {
                if *b {
                    out.push('t');
                    out.push('r');
                    out.push('u');
                    out.push('e');
                } else {
                    out.push('f');
                    out.push('a');
                    out.push('l');
                    out.push('s');
                    out.push('e');
                }
                proof {
                    assert(out@ =~= before + json_text(self@));
                }
            },
            Json::Number(n) => {
                push_number(out, n);
            },
            Json::String(s) => {
                push_quoted(out, s.as_str());
            },
            Json::Array(items) => {
                let ghost views = item_views(items@);
                proof {
                    lemma_item_views(items@);
                    assert(views.take(0) =~= Seq::<JsonView>::empty());
                }
                out.push('[');
                let mut i: usize = 0;
                proof {
                    assert(out@ =~= before + seq!['['] + items_text(views.take(0)));
                }
                while i < items.len()
                    invariant
                        i <= items.len(),
                        self is Array,
                        self->Array_0 == *items,
                        views == item_views(items@),
                        views.len() == items.len(),
                        forall|k: int| 0 <= k < items.len() ==> (#[trigger] views[k]) == items[k]@,
                        out@ == before + seq!['['] + items_text(views.take(i as int)),
                    decreases items.len() - i,
                {
                    let ghost prev = out@;
                    if i > 0 {
                        out.push(',');
                    }
                    items[i].write(out);
                    proof {
                        let t = views.take(i + 1);
                        assert(t.drop_last() =~= views.take(i as int));
                        assert(t.last() == views[i as int]);
                        assert(out@ =~= before + seq!['['] + items_text(t));
                    }
                    i += 1;
                }
                out.push(']');
                proof {
                    assert(views.take(items.len() as int) =~= views);
                    assert(out@ =~= before + json_text(self@));
                }
            },
            Json::Object(fields) => {
                let ghost views = field_views(fields@);
                proof {
                    lemma_field_views(fields@);
                    assert(views.take(0) =~= Seq::<(Seq<char>, JsonView)>::empty());
                }
                out.push('{');
                let mut i: usize = 0;
                proof {
                    assert(out@ =~= before + seq!['{'] + fields_text(views.take(0)));
                }
                while i < fields.len()
                    invariant
                        i <= fields.len(),
                        self is Object,
                        self->Object_0 == *fields,
                        views == field_views(fields@),
                        views.len() == fields.len(),
                        forall|k: int|
                            0 <= k < fields.len() ==> (#[trigger] views[k]) == (
                                fields[k].0@,
                                fields[k].1@,
                            ),
                        out@ == before + seq!['{'] + fields_text(views.take(i as int)),
                    decreases fields.len() - i,
                {
                    if i > 0 {
                        out.push(',');
                    }
                    push_quoted(out, fields[i].0.as_str());
                    out.push(':');
                    fields[i].1.write(out);
                    proof {
                        let t = views.take(i + 1);
                        assert(t.drop_last() =~= views.take(i as int));
                        assert(t.last() == views[i as int]);
                        assert(out@ =~= before + seq!['{'] + fields_text(t));
                    }
                    i += 1;
                }
                out.push('}');
                proof {
                    assert(views.take(fields.len() as int) =~= views);
                    assert(out@ =~= before + json_text(self@));
                }
            },
        }
    }

    /// The canonical text of this value.
    pub fn to_text(&self) -> (text: String)
        ensures
            text@ == json_text(self@),
    {
        let mut out: Vec<char> = Vec::new();
        self.write(&mut out);
        string_of(&out)
    }

    /// This value without its fields named `key`; a value that is no object is
    /// returned as it is.
    pub fn without_field(&self, key: &str) -> (result: Json)
        ensures
            result@ == (match self@ {
                JsonView::Object(fields) => JsonView::Object(without_key(fields, key@)),
                other => other,
            }),
    {
        match self {
            Json::Object(fields) => {
                let name = chars_of(key);
                let ghost views = field_views(fields@);
                proof {
                    lemma_field_views(fields@);
                    assert(views.take(0) =~= Seq::<(Seq<char>, JsonView)>::empty());
                }
                let mut out: Vec<(String, Json)> = Vec::new();
                let mut i: usize = 0;
                while i < fields.len()
                    invariant
                        i <= fields.len(),
                        name@ == key@,
                        views == field_views(fields@),
                        views.len() == fields.len(),
                        forall|k: int|
                            0 <= k < fields.len() ==> (#[trigger] views[k]) == (
                                fields[k].0@,
                                fields[k].1@,
                            ),
                        field_views(out@) == without_key(views.take(i as int), key@),
                    decreases fields.len() - i,
                {
                    let field_name = chars_of(fields[i].0.as_str());
                    proof {
                        let t = views.take(i + 1);
                        assert(t.drop_last() =~= views.take(i as int));
                        assert(t.last() == views[i as int]);
                    }
                    if !crate::text::chars_eq(&field_name, &name) {
                        let ghost prev = out@;
                        out.push((fields[i].0.clone(), fields[i].1.clone()));
                        proof {
                            assert(out@.drop_last() =~= prev);
                        }
                    }
                    i += 1;
                }
                proof {
                    assert(views.take(fields.len() as int) =~= views);
                }
                Json::Object(out)
            },
            _ => self.clone(),
        }
    }

    /// This value with the field `key` set to `value`: the first field of that
    /// name gets the value, and where there is none the field is added at the
    /// end. A value that is no object is returned as it is.
    pub fn with_field(&self, key: &str, value: Json) -> (result: Json)
        ensures
            result@ == (match self@ {
                JsonView::Object(fields) => JsonView::Object(with_key(fields, key@, value@)),
                other => other,
            }),
    {
        match self {
            Json::Object(fields) => {
                let name = chars_of(key);
                let ghost views = field_views(fields@);
                proof {
                    lemma_field_views(fields@);
                    assert(views.take(0) =~= Seq::<(Seq<char>, JsonView)>::empty());
                }
                let mut at: usize = 0;
                let mut found = false;
                while at < fields.len() && !found
                    invariant
                        at <= fields.len(),
                        name@ == key@,
                        views.len() == fields.len(),
                        forall|k: int|
                            0 <= k < fields.len() ==> (#[trigger] views[k]) == (
                                fields[k].0@,
                                fields[k].1@,
                            ),
                        forall|k: int| 0 <= k < at ==> views[k].0 != key@,
                        found ==> at < fields.len() && views[at as int].0 == key@,
                    decreases fields.len() - at + (if found { 0int } else { 1int }),
                {
                    let field_name = chars_of(fields[at].0.as_str());
                    if crate::text::chars_eq(&field_name, &name) {
                        found = true;
                    } else {
                        at += 1;
                    }
                }
                proof {
                    lemma_position_is(views, key@, at as int);
                }
                let mut out: Vec<(String, Json)> = Vec::new();
                let mut i: usize = 0;
                while i < fields.len()
                    invariant
                        i <= fields.len(),
                        at <= fields.len(),
                        views == field_views(fields@),
                        views.len() == fields.len(),
                        forall|k: int|
                            0 <= k < fields.len() ==> (#[trigger] views[k]) == (
                                fields[k].0@,
                                fields[k].1@,
                            ),
                        out@.len() == i,
                        forall|k: int|
                            0 <= k < i ==> (#[trigger] out@[k]).0@ == views[k].0 && (k != at
                                ==> out@[k].1@ == views[k].1) && (k == at ==> out@[k].1@
                                == value@),
                    decreases fields.len() - i,
                {
                    if i == at {
                        out.push((fields[i].0.clone(), value.clone()));
                    } else {
                        out.push((fields[i].0.clone(), fields[i].1.clone()));
                    }
                    i += 1;
                }
                if at == fields.len() {
                    out.push((string_of(&name), value));
                }
                proof {
                    lemma_field_views(out@);
                    let got = field_views(out@);
                    let want = with_key(views, key@, value@);
                    assert(got.len() == want.len());
                    assert forall|k: int| 0 <= k < got.len() implies got[k] == want[k] by {
                        if k < fields.len() {
                            assert(out@[k].0@ == views[k].0);
                        }
                    }
                    assert(got =~= want);
                }
                Json::Object(out)
            },
            _ => self.clone(),
        }
    }
}

} // verus!
