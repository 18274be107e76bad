//! Numbers in decimal notation with an exponent, such as `-12.5e3`, read to a
//! fixed number of decimals. Texts for infinity and for no number are not read.
use crate::money;
use crate::text;
use vstd::prelude::*;

verus! {

/// A text without its sign.
pub open spec fn unsigned(s: Seq<char>) -> Seq<char> {
    if s.len() > 0 && (s[0] == '+' || s[0] == '-') {
        s.skip(1)
    } else {
        s
    }
}

pub open spec fn is_negative(s: Seq<char>) -> bool {
    s.len() > 0 && s[0] == '-'
}

/// Digits with at most one point among them, and at least one digit.
pub open spec fn is_mantissa(s: Seq<char>) -> bool {
    match text::split_pair(s, '.') {
        Some((whole, part)) => text::all_digits(whole) && text::all_digits(part) && s.len() > 1,
        None => text::all_digits(s) && s.len() > 0,
    }
}

pub open spec fn is_exponent(s: Seq<char>) -> bool {
    text::all_digits(unsigned(s)) && unsigned(s).len() > 0
}

/// The position of the first `e` of either case, or the length.
pub open spec fn exponent_mark(s: Seq<char>) -> int {
    let small = text::index_of_char(s, 'e');
    let large = text::index_of_char(s, 'E');
    if small < large {
        small
    } else {
        large
    }
}

/// A decimal number: a sign if any, a mantissa, an exponent if any.
pub open spec fn is_number(s: Seq<char>) -> bool {
    let body = unsigned(s);
    let k = exponent_mark(body);
    if k < body.len() {
        is_mantissa(body.take(k)) && is_exponent(body.skip(k + 1))
    } else {
        is_mantissa(body)
    }
}

pub open spec fn mantissa_of(s: Seq<char>) -> Seq<char> {
    unsigned(s).take(exponent_mark(unsigned(s)))
}

/// The exponent of a number, zero where none is written.
pub open spec fn exponent_of(s: Seq<char>) -> int {
    let body = unsigned(s);
    let k = exponent_mark(body);
    if k < body.len() {
        let e = body.skip(k + 1);
        if is_negative(e) {
            -text::digits_value(unsigned(e))
        } else {
            text::digits_value(unsigned(e))
        }
    } else {
        0
    }
}

/// The digits before the point of a mantissa.
pub open spec fn whole_part(mantissa: Seq<char>) -> Seq<char> {
    match text::split_pair(mantissa, '.') {
        Some((whole, part)) => whole,
        None => mantissa,
    }
}

/// The digits behind the point of a mantissa.
pub open spec fn fraction_part(mantissa: Seq<char>) -> Seq<char> {
    match text::split_pair(mantissa, '.') {
        Some((whole, part)) => part,
        None => seq![],
    }
}

/// All digits of a number, without its point.
pub open spec fn digits_of(s: Seq<char>) -> Seq<char> {
    whole_part(mantissa_of(s)) + fraction_part(mantissa_of(s))
}

/// How many digits stand before the point once the exponent has moved it.
pub open spec fn point_of(s: Seq<char>) -> int {
    whole_part(mantissa_of(s)).len() + exponent_of(s)
}

/// The value of the first `p` digits, with zeros for those that are missing.
pub open spec fn leading(digits: Seq<char>, p: int) -> int {
    if p <= 0 {
        0
    } else if p <= digits.len() {
        text::digits_value(digits.take(p))
    } else {
        text::digits_value(digits) * text::pow10((p - digits.len()) as nat)
    }
}

/// Whether the digit behind the first `p` rounds them up.
pub open spec fn rounds_up(digits: Seq<char>, p: int) -> bool {
    0 <= p < digits.len() && digits[p] >= '5'
}

/// The number of atoms nearest to a number; halves go away from zero.
pub open spec fn nearest_atoms(s: Seq<char>) -> int {
    let p = point_of(s) + 8;
    let magnitude = leading(digits_of(s), p) + (if rounds_up(digits_of(s), p) {
        1int
    } else {
        0int
    });
    if is_negative(s) {
        -magnitude
    } else {
        magnitude
    }
}

/// The amount that a text stands for, where it is a number whose atoms fit.
pub open spec fn atoms_in(s: Seq<char>) -> Option<i64> {
    if is_number(s) && money::fits_i64(nearest_atoms(s)) {
        Some(nearest_atoms(s) as i64)
    } else {
        None
    }
}

/// A number without its decimals.
pub open spec fn whole_number(s: Seq<char>) -> int {
    let magnitude = leading(digits_of(s), point_of(s));
    if is_negative(s) {
        -magnitude
    } else {
        magnitude
    }
}

/// The count that a text stands for: a number without its decimals, brought
/// into 64 bits.
pub open spec fn count_in(s: Seq<char>) -> Option<i64> {
    if is_number(s) {
        Some(money::saturate_i64(whole_number(s)) as i64)
    } else {
        None
    }
}

/// Where the point of a number stands. Far off is beyond any text's length.
enum Point {
    FarLeft,
    At(i128),
    FarRight,
}

const FAR: i128 = 1_000_000_000_000_000_000_000_000_000_000;

spec fn stands_at(point: Point, p: int) -> bool {
    match point {
        Point::FarLeft => p < -0x1_0000_0000_0000_0000,
        Point::At(x) => p == x && -FAR <= x <= 2 * FAR,
        Point::FarRight => p > 4 * 0x1_0000_0000_0000_0000,
    }
}

struct Parsed {
    digits: Vec<char>,
    point: Point,
}

fn skip_sign(chars: &[char]) -> (r: &[char])
    ensures
        r@ == unsigned(chars@),
{
    if chars.len() > 0 && (chars[0] == '+' || chars[0] == '-') {
        let r = vstd::slice::slice_subrange(chars, 1, chars.len());
        proof {
            assert(r@ =~= chars@.skip(1));
        }
        r
    } else {
        chars
    }
}

/// The digits of a mantissa, and how many of them stand before its point.
fn read_mantissa(chars: &[char]) -> (r: Option<(Vec<char>, usize)>)
    ensures
        match r {
            Some((digits, whole)) => {
                &&& is_mantissa(chars@)
                &&& digits@ == whole_part(chars@) + fraction_part(chars@)
                &&& whole == whole_part(chars@).len()
                &&& text::all_digits(digits@)
            },
            None => !is_mantissa(chars@),
        },
{
    let k = text::find_char(chars, '.');
    if k >= chars.len() {
        if chars.len() == 0 || !text::check_digits(chars) {
            return None;
        }
        let digits = vstd::slice::slice_to_vec(chars);
        proof {
            assert(digits@ =~= whole_part(chars@) + fraction_part(chars@));
        }
        return Some((digits, chars.len()));
    }
    let whole = vstd::slice::slice_subrange(chars, 0, k);
    let part = vstd::slice::slice_subrange(chars, k + 1, chars.len());
    proof {
        assert(whole@ =~= chars@.take(k as int));
        assert(part@ =~= chars@.skip(k + 1));
    }
    if chars.len() <= 1 || !text::check_digits(whole) || !text::check_digits(part) {
        return None;
    }
    let mut digits = vstd::slice::slice_to_vec(whole);
    let mut rest = vstd::slice::slice_to_vec(part);
    digits.append(&mut rest);
    proof {
        assert(digits@ =~= whole@ + part@);
        assert forall|i: int| 0 <= i < digits@.len() implies text::is_digit(#[trigger] digits@[i]) by {
            if i < k {
                assert(digits@[i] == whole@[i]);
            } else {
                assert(digits@[i] == part@[i - k]);
            }
        }
    }
    Some((digits, k))
}

fn moved_point(whole: usize, negative: bool, exponent: &[char]) -> (r: Point)
    requires
        text::all_digits(exponent@),
    ensures
        stands_at(
            r,
            whole + (if negative {
                -text::digits_value(exponent@)
            } else {
                text::digits_value(exponent@)
            }),
        ),
{
    proof {
        text::lemma_digits_value_bounds(exponent@);
    }
    match text::digits_to_i128(exponent) {
        Some(e) => if e > FAR {
            if negative {
                Point::FarLeft
            } else {
                Point::FarRight
            }
        } else if negative {
            Point::At(whole as i128 - e)
        } else {
            Point::At(whole as i128 + e)
        },
        None => if negative {
            Point::FarLeft
        } else {
            Point::FarRight
        },
    }
}

fn parse(chars: &[char]) -> (r: Option<Parsed>)
    ensures
        match r {
            Some(n) => {
                &&& is_number(chars@)
                &&& n.digits@ == digits_of(chars@)
                &&& text::all_digits(n.digits@)
                &&& stands_at(n.point, point_of(chars@))
            },
            None => !is_number(chars@),
        },
{
    let body = skip_sign(chars);
    let small = text::find_char(body, 'e');
    let large = text::find_char(body, 'E');
    let k: usize = if small < large {
        small
    } else {
        large
    };
    let mantissa = vstd::slice::slice_subrange(body, 0, k);
    proof {
        assert(mantissa@ =~= mantissa_of(chars@));
    }
    if k >= body.len() {
        proof {
            assert(mantissa@ =~= body@);
        }
        let (digits, whole) = read_mantissa(mantissa)?;
        return Some(Parsed { digits, point: Point::At(whole as i128) });
    }
    let (digits, whole) = read_mantissa(mantissa)?;
    let exponent = vstd::slice::slice_subrange(body, k + 1, body.len());
    proof {
        assert(exponent@ =~= body@.skip(k + 1));
    }
    let power = skip_sign(exponent);
    if power.len() == 0 || !text::check_digits(power) {
        return None;
    }
    let negative = exponent.len() > 0 && exponent[0] == '-';
    Some(Parsed { digits, point: moved_point(whole, negative, power) })
}

proof fn lemma_pow10_grows(k: nat)
    ensures
        text::pow10(k) > k,
    decreases k,
{
    if k > 0 {
        lemma_pow10_grows((k - 1) as nat);
    }
}

proof fn lemma_pow10_sum(a: nat, b: nat)
    ensures
        text::pow10(a + b) == text::pow10(a) * text::pow10(b),
    decreases a,
{
    if a == 0 {
        assert(1 * text::pow10(b) == text::pow10(b));
    } else {
        lemma_pow10_sum((a - 1) as nat, b);
        let x = text::pow10((a - 1) as nat);
        let y = text::pow10(b);
        assert(10 * (x * y) == (10 * x) * y) by (nonlinear_arith);
    }
}

/// Digits followed by so many zeros, where the value stays in range.
fn with_zeros(value: i128, zeros: i128) -> (r: Option<i128>)
    requires
        0 <= value,
        0 <= zeros,
    ensures
        match r {
            Some(v) => v == value * text::pow10(zeros as nat) && v >= 0,
            None => value * text::pow10(zeros as nat) > u64::MAX,
        },
{
    if value == 0 {
        return Some(0);
    }
    let mut v = value;
    let mut done: i128 = 0;
    proof {
        assert(value * 1 == value);
    }
    while done < zeros
        invariant
            0 < value,
            0 <= done <= zeros,
            v == value * text::pow10(done as nat),
            v >= value,
        decreases zeros - done,
    {
        proof {
            let x = text::pow10(done as nat) as int;
            assert(text::pow10((done + 1) as nat) == 10 * x);
            assert(value * (10 * x) == 10 * (value * x)) by (nonlinear_arith);
        }
        if v > 0xffff_ffff_ffff_ffff {
            proof {
                let rest = (zeros - done) as nat;
                lemma_pow10_sum(done as nat, rest);
                text::lemma_pow10_positive(rest);
                let x = text::pow10(done as nat);
                let y = text::pow10(rest);
                assert(done as nat + rest == zeros as nat);
                assert(value * (x * y) >= value * x) by (nonlinear_arith)
                    requires
                        value > 0,
                        y >= 1,
                        value * x >= 0,
                ;
            }
            return None;
        }
        v = v * 10;
        done = done + 1;
    }
    Some(v)
}

proof fn lemma_far_right(digits: Seq<char>, p: int)
    requires
        text::all_digits(digits),
        digits.len() <= 2 * 0x1_0000_0000_0000_0000,
        p > 4 * 0x1_0000_0000_0000_0000,
        text::digits_value(digits) > 0,
    ensures
        leading(digits, p) > u64::MAX,
{
    let k = (p - digits.len()) as nat;
    lemma_pow10_grows(k);
    let v = text::digits_value(digits);
    let y = text::pow10(k);
    assert(v * y >= y) by (nonlinear_arith)
        requires
            v >= 1,
            y >= 0,
    ;
}

/// The value of the digits before the point, where the point is moved `places`
/// to the right.
fn read_leading(n: &Parsed, places: u8, Ghost(point): Ghost<int>) -> (r: Option<i128>)
    requires
        text::all_digits(n.digits@),
        stands_at(n.point, point),
    ensures
        match r {
            Some(v) => v == leading(n.digits@, point + places) && v >= 0,
            None => leading(n.digits@, point + places) > u64::MAX,
        },
{
    let total = n.digits.len();
    proof {
        text::lemma_digits_value_bounds(n.digits@);
    }
    match n.point {
        Point::FarLeft => Some(0),
        Point::FarRight => match text::digits_to_i128(n.digits.as_slice()) {
            Some(v) => if v == 0 {
                proof {
                    let k = (point + places - n.digits@.len()) as nat;
                    assert(0 * text::pow10(k) == 0);
                }
                Some(0)
            } else {
                proof {
                    lemma_far_right(n.digits@, point + places);
                }
                None
            },
            None => {
                proof {
                    lemma_far_right(n.digits@, point + places);
                }
                None
            },
        },
        Point::At(x) => {
            let p = x + places as i128;
            if p <= 0 {
                Some(0)
            } else if p <= total as i128 {
                let head = vstd::slice::slice_subrange(n.digits.as_slice(), 0, p as usize);
                proof {
                    assert(head@ =~= n.digits@.take(p as int));
                    assert forall|i: int| 0 <= i < head@.len() implies text::is_digit(
                        #[trigger] head@[i],
                    ) by {
                        assert(head@[i] == n.digits@[i]);
                    }
                    text::lemma_digits_value_bounds(head@);
                }
                text::digits_to_i128(head)
            } else {
                let zeros = p - total as i128;
                match text::digits_to_i128(n.digits.as_slice()) {
                    Some(v) => with_zeros(v, zeros),
                    None => {
                        proof {
                            let v = text::digits_value(n.digits@);
                            let y = text::pow10(zeros as nat);
                            text::lemma_pow10_positive(zeros as nat);
                            assert(v * y >= v) by (nonlinear_arith)
                                requires
                                    v >= 0,
                                    y >= 1,
                            ;
                        }
                        None
                    },
                }
            }
        },
    }
}

fn check_rounds_up(n: &Parsed, places: u8, Ghost(point): Ghost<int>) -> (r: bool)
    requires
        stands_at(n.point, point),
    ensures
        r == rounds_up(n.digits@, point + places),
{
    let total = n.digits.len();
    match n.point {
        Point::FarLeft => false,
        Point::FarRight => false,
        Point::At(x) => {
            let p = x + places as i128;
            if p < 0 || p >= total as i128 {
                false
            } else {
                n.digits[p as usize] >= '5'
            }
        },
    }
}

/// Whether a text is a number.
pub fn check_number(chars: &[char]) -> (r: bool)
    ensures
        r == is_number(chars@),
{
    parse(chars).is_some()
}

/// The amount that a text stands for, rounded to the atom.
pub fn parse_atoms(s: &str) -> (r: Option<i64>)
    ensures
        r == atoms_in(s@),
{
    let chars = text::to_chars(s);
    let n = parse(chars.as_slice())?;
    let ghost point = point_of(s@);
    let whole = read_leading(&n, 8, Ghost(point))?;
    let up = check_rounds_up(&n, 8, Ghost(point));
    if whole > 0xffff_ffff_ffff_ffff {
        return None;
    }
    let magnitude: i128 = if up {
        whole + 1
    } else {
        whole
    };
    let negative = chars.len() > 0 && chars[0] == '-';
    let atoms = if negative {
        -magnitude
    } else {
        magnitude
    };
    if atoms > i64::MAX as i128 || atoms < i64::MIN as i128 {
        None
    } else {
        Some(atoms as i64)
    }
}

/// The count that a text stands for.
pub fn parse_count(chars: &[char]) -> (r: Option<i64>)
    ensures
        r == count_in(chars@),
{
    let n = parse(chars)?;
    let negative = chars.len() > 0 && chars[0] == '-';
    let ghost point = point_of(chars@);
    let magnitude: i128 = match read_leading(&n, 0, Ghost(point)) {
        Some(v) => v,
        None => 0x1_0000_0000_0000_0000,
    };
    Some(
        if negative {
            if magnitude > 0x8000_0000_0000_0000 {
                i64::MIN
            } else {
                (-magnitude) as i64
            }
        } else if magnitude > 0x7fff_ffff_ffff_ffff {
            i64::MAX
        } else {
            magnitude as i64
        },
    )
}

proof fn lemma_digits_joined(a: Seq<char>, b: Seq<char>)
    ensures
        text::digits_value(a + b) == text::digits_value(a) * text::pow10(b.len())
            + text::digits_value(b),
    decreases b.len(),
{
    if b.len() == 0 {
        assert(a + b =~= a);
        assert(text::digits_value(a) * 1 == text::digits_value(a));
    } else {
        let d = b.drop_last();
        lemma_digits_joined(a, d);
        assert((a + b).drop_last() =~= a + d);
        assert((a + b).last() == b.last());
        let v = text::digits_value(a);
        let y = text::pow10(d.len());
        assert((v * y) * 10 == v * (10 * y)) by (nonlinear_arith);
    }
}

/// What is written as an integer is read as that count.
pub proof fn law_integers_are_read_alike(s: Seq<char>)
    requires
        text::i64_value(s) is Some,
    ensures
        count_in(s) == text::i64_value(s),
{
    let body = unsigned(s);
    assert(text::all_digits(body));
    assert forall|i: int| 0 <= i < body.len() implies body[i] != 'e' && body[i] != 'E' && body[i]
        != '.' by {
        assert(text::is_digit(body[i]));
    }
    text::lemma_index_of_char_is(body, 'e', body.len() as int);
    text::lemma_index_of_char_is(body, 'E', body.len() as int);
    text::lemma_index_of_char_is(body, '.', body.len() as int);
    assert(mantissa_of(s) =~= body);
    assert(digits_of(s) =~= body);
    assert(body.take(body.len() as int) =~= body);
}

/// What is written as an amount is read as that amount.
pub proof fn law_plain_amounts_are_read_alike(s: Seq<char>)
    requires
        text::trimmed(s) == s,
        money::amount_value(s) is Ok,
    ensures
        atoms_in(s) == Some((money::amount_value(s)->Ok_0).0),
{
    let body = unsigned(s);
    let k = text::index_of_char(body, '.');
    text::lemma_index_of_char(body, '.');
    let whole = body.take(k);
    let frac: Seq<char> = if k < body.len() {
        body.skip(k + 1)
    } else {
        seq![]
    };
    assert(text::all_digits(whole));
    assert(text::all_digits(frac));
    assert forall|i: int| 0 <= i < body.len() implies body[i] != 'e' && body[i] != 'E' by {
        if i < k {
            assert(body[i] == whole[i]);
        } else if i > k {
            assert(body[i] == frac[i - k - 1]);
        }
    }
    text::lemma_index_of_char_is(body, 'e', body.len() as int);
    text::lemma_index_of_char_is(body, 'E', body.len() as int);
    assert(mantissa_of(s) =~= body);
    if k < body.len() {
        money::lemma_digit_bytes(frac);
    } else {
        assert(whole =~= body);
    }
    assert(whole_part(body) == whole);
    assert(fraction_part(body) =~= frac);
    let digits = whole + frac;
    assert(digits_of(s) =~= digits);
    assert(is_number(s));
    lemma_digits_joined(whole, frac);
    let rest = (8 - frac.len()) as nat;
    lemma_pow10_sum(frac.len(), rest);
    assert(text::pow10(8) == 100_000_000) by {
        reveal_with_fuel(text::pow10, 9);
    }
    let w = text::digits_value(whole);
    let f = text::digits_value(frac);
    let x = text::pow10(frac.len());
    let y = text::pow10(rest);
    assert((w * x + f) * y == w * (x * y) + f * y) by (nonlinear_arith);
    let p = point_of(s) + 8;
    assert(p - digits.len() == rest);
    assert(leading(digits, p) == w * 100_000_000 + f * y) by {
        if rest == 0 {
            assert(digits.take(p) =~= digits);
            assert((w * x + f) * 1 == w * x + f);
        }
    }
    if k >= body.len() {
        assert(f == 0);
        assert(0 * y == 0);
    }
}

/// An exponent moves the point of a number by as many places, to the right where
/// it is positive and to the left where it is negative, and leaves its digits
/// and its sign alone.
pub proof fn law_exponent_moves_the_point(s: Seq<char>, n: nat)
    requires
        is_mantissa(unsigned(s)),
        unsigned(s).len() > 0,
    ensures
        ({
            let up = s + seq!['e'] + text::nat_text(n);
            let down = s + seq!['e', '-'] + text::nat_text(n);
            &&& is_number(s) && is_number(up) && is_number(down)
            &&& digits_of(up) == digits_of(s) && digits_of(down) == digits_of(s)
            &&& is_negative(up) == is_negative(s) && is_negative(down) == is_negative(s)
            &&& point_of(up) == point_of(s) + n
            &&& point_of(down) == point_of(s) - n
        }),
{
    let body = unsigned(s);
    let m = body.len() as int;
    let tail = text::nat_text(n);
    let up = s + seq!['e'] + tail;
    let down = s + seq!['e', '-'] + tail;
    text::lemma_nat_text(n);
    assert(text::is_digit(tail[0]));
    lemma_mantissa_without_mark(body);
    assert(unsigned(up) =~= body + (seq!['e'] + tail));
    assert(unsigned(down) =~= body + (seq!['e', '-'] + tail));
    text::lemma_index_of_char_is(body, 'e', m);
    text::lemma_index_of_char_is(body, 'E', m);
    text::lemma_index_of_char_is(unsigned(up), 'e', m);
    text::lemma_index_of_char_is(unsigned(down), 'e', m);
    text::lemma_index_of_char(unsigned(up), 'E');
    text::lemma_index_of_char(unsigned(down), 'E');
    lemma_no_capital_before(body, seq!['e'] + tail);
    lemma_no_capital_before(body, seq!['e', '-'] + tail);
    assert(unsigned(up).take(m) =~= body);
    assert(unsigned(down).take(m) =~= body);
    assert(body.take(m) =~= body);
    assert(unsigned(up).skip(m + 1) =~= tail);
    assert(unsigned(down).skip(m + 1) =~= seq!['-'] + tail);
    assert((seq!['-'] + tail).skip(1) =~= tail);
}

proof fn lemma_mantissa_without_mark(s: Seq<char>)
    requires
        is_mantissa(s),
    ensures
        forall|i: int| 0 <= i < s.len() ==> (#[trigger] s[i]) != 'e' && s[i] != 'E',
{
    match text::split_pair(s, '.') {
        Some((whole, part)) => {
            let k = text::index_of_char(s, '.');
            text::lemma_index_of_char(s, '.');
            assert forall|i: int| 0 <= i < s.len() implies (#[trigger] s[i]) != 'e' && s[i]
                != 'E' by {
                if i < k {
                    assert(text::is_digit(whole[i]));
                } else if i > k {
                    assert(text::is_digit(part[i - k - 1]));
                }
            }
        },
        None => {
            assert forall|i: int| 0 <= i < s.len() implies (#[trigger] s[i]) != 'e' && s[i]
                != 'E' by {
                assert(text::is_digit(s[i]));
            }
        },
    }
}

proof fn lemma_no_capital_before(body: Seq<char>, tail: Seq<char>)
    requires
        forall|i: int| 0 <= i < body.len() ==> (#[trigger] body[i]) != 'E',
        tail.len() > 0,
        tail[0] != 'E',
    ensures
        text::index_of_char(body + tail, 'E') > body.len(),
{
    let s = body + tail;
    let k = text::index_of_char(s, 'E');
    text::lemma_index_of_char(s, 'E');
    if k < body.len() {
        assert(s[k] == body[k]);
    } else if k == body.len() {
        assert(s[k] == tail[0]);
    }
}

} // verus!
