//! Fixed-point money: amounts in atoms of 1e-8 and account balances.
use crate::text;
use vstd::prelude::*;

verus! {

/// Atoms per whole unit of any asset.
pub const AMOUNT_SCALE: i64 = 100_000_000;

/// An amount of an asset in atoms.
#[derive(Clone, Copy, Debug, PartialEq, Eq, PartialOrd, Ord, Structural)]
pub struct AmountAtoms(pub i64);

/// Why an amount was refused.
#[derive(Clone, Copy, Debug, PartialEq, Eq, Structural)]
pub enum AmountError {
    Empty,
    MissingDigits,
    MultiplePoints,
    InvalidWhole,
    TooManyDecimals,
    InvalidFraction,
    Overflow,
}

impl AmountError {
    pub open spec fn text(self) -> Seq<char> {
        match self {
            AmountError::Empty => "empty amount"@,
            AmountError::MissingDigits => "missing amount digits"@,
            AmountError::MultiplePoints => "amount has multiple decimal points"@,
            AmountError::InvalidWhole => "invalid whole amount digits"@,
            AmountError::TooManyDecimals => "amount has more than 8 decimal places"@,
            AmountError::InvalidFraction => "invalid fractional amount digits"@,
            AmountError::Overflow => "amount overflows i64 atoms"@,
        }
    }

    pub fn message(self) -> (r: &'static str)
        ensures
            r@ == self.text(),
    {
        match self {
            AmountError::Empty => "empty amount",
            AmountError::MissingDigits => "missing amount digits",
            AmountError::MultiplePoints => "amount has multiple decimal points",
            AmountError::InvalidWhole => "invalid whole amount digits",
            AmountError::TooManyDecimals => "amount has more than 8 decimal places",
            AmountError::InvalidFraction => "invalid fractional amount digits",
            AmountError::Overflow => "amount overflows i64 atoms",
        }
    }
}

/// Whether a mathematical integer is representable in 64 signed bits.
pub open spec fn fits_i64(v: int) -> bool {
    i64::MIN <= v <= i64::MAX
}

/// `v` moved to the nearest `i64`.
pub open spec fn saturate_i64(v: int) -> i64 {
    if v > i64::MAX {
        i64::MAX
    } else if v < i64::MIN {
        i64::MIN
    } else {
        v as i64
    }
}

pub fn saturating_sum(a: i64, b: i64) -> (r: i64)
    ensures
        r == saturate_i64(a + b),
{
    let v = a as i128 + b as i128;
    if v > i64::MAX as i128 {
        i64::MAX
    } else if v < i64::MIN as i128 {
        i64::MIN
    } else {
        v as i64
    }
}

pub fn saturating_difference(a: i64, b: i64) -> (r: i64)
    ensures
        r == saturate_i64(a - b),
{
    let v = a as i128 - b as i128;
    if v > i64::MAX as i128 {
        i64::MAX
    } else if v < i64::MIN as i128 {
        i64::MIN
    } else {
        v as i64
    }
}

/// Whether a mathematical integer is representable in 128 signed bits.
pub open spec fn fits_i128(v: int) -> bool {
    i128::MIN <= v <= i128::MAX
}

/// Division that rounds toward zero.
pub open spec fn trunc_div(a: int, b: int) -> int
    recommends
        b != 0,
{
    if a == 0 {
        0
    } else if a > 0 && b > 0 {
        a / b
    } else if a < 0 && b < 0 {
        (-a) / (-b)
    } else if a < 0 {
        -((-a) / b)
    } else {
        -(a / (-b))
    }
}

/// Whether `a / b` can be taken in 128-bit arithmetic.
pub open spec fn ratio_fits(a: int, b: int) -> bool {
    b != 0 && fits_i128(a) && fits_i128(trunc_div(a, b))
}

/// `a / b`, rounded toward zero.
pub fn divide(a: i128, b: i128) -> (r: i128)
    requires
        ratio_fits(a as int, b as int),
    ensures
        r == trunc_div(a as int, b as int),
{
    match a.checked_div(b) {
        Some(v) => v,
        None => 0,
    }
}

/// A quotient times its divisor is less than the divisor away from what was
/// divided, and never further from zero.
pub proof fn law_division_rounds_toward_zero(a: int, b: int)
    requires
        b > 0,
    ensures
        -b < trunc_div(a, b) * b - a < b,
        a >= 0 ==> 0 <= trunc_div(a, b) && 0 <= trunc_div(a, b) * b <= a,
        a <= 0 ==> trunc_div(a, b) <= 0 && a <= trunc_div(a, b) * b <= 0,
        trunc_div(-a, b) == -trunc_div(a, b),
        trunc_div(a, -b) == -trunc_div(a, b),
{
    let m = if a < 0 {
        -a
    } else {
        a
    };
    let q = m / b;
    vstd::arithmetic::div_mod::lemma_fundamental_div_mod(m, b);
    assert(0 <= m % b < b);
    assert(q >= 0) by (nonlinear_arith)
        requires
            q * b + m % b == m,
            m >= 0,
            0 <= m % b < b,
            b > 0,
    ;
    assert(b * q == q * b) by (nonlinear_arith);
    assert(-q * b == -(q * b)) by (nonlinear_arith);
    assert(q * b >= 0) by (nonlinear_arith)
        requires
            q >= 0,
            b > 0,
    ;
}

/// Rounding toward zero never grows the magnitude.
pub proof fn lemma_trunc_div_bounds(a: int, b: int)
    requires
        b > 0,
    ensures
        a >= 0 ==> 0 <= trunc_div(a, b) <= a,
        a <= 0 ==> a <= trunc_div(a, b) <= 0,
{
    if a > 0 {
        assert(0 <= a / b <= a) by (nonlinear_arith)
            requires
                a > 0,
                b > 0,
        ;
    } else if a < 0 {
        let m = -a;
        assert(0 <= m / b <= m) by (nonlinear_arith)
            requires
                m > 0,
                b > 0,
        ;
    }
}

/// The amount in decimal notation: no trailing zeros in the fraction and no
/// point where the amount is whole.
pub open spec fn amount_text(atoms: int) -> Seq<char> {
    let magnitude: int = if atoms < 0 {
        -atoms
    } else {
        atoms
    };
    let whole = text::nat_text((magnitude / AMOUNT_SCALE as int) as nat);
    let frac = (magnitude % AMOUNT_SCALE as int) as nat;
    let body = if frac == 0 {
        whole
    } else {
        whole.push('.') + text::strip_zeros(text::fixed_digits(frac, 8))
    };
    if atoms < 0 {
        seq!['-'] + body
    } else {
        body
    }
}

/// The value of an unsigned decimal with `whole` before the point and, where
/// there is a point, `frac` after it.
pub open spec fn decimal_value(
    whole: Seq<char>,
    frac: Option<Seq<char>>,
    negative: bool,
) -> Result<AmountAtoms, AmountError> {
    let scaled = text::digits_value(whole) * AMOUNT_SCALE;
    if !text::all_digits(whole) {
        Err(AmountError::InvalidWhole)
    } else if scaled > i128::MAX {
        Err(AmountError::Overflow)
    } else if frac is Some && vstd::utf8::encode_utf8(frac->0).len() > 8 {
        Err(AmountError::TooManyDecimals)
    } else if frac is Some && !text::all_digits(frac->0) {
        Err(AmountError::InvalidFraction)
    } else {
        let part = match frac {
            Some(f) => text::digits_value(f) * text::pow10((8 - f.len()) as nat),
            None => 0,
        };
        let total = if negative {
            -(scaled + part)
        } else {
            scaled + part
        };
        if fits_i64(total) {
            Ok(AmountAtoms(total as i64))
        } else {
            Err(AmountError::Overflow)
        }
    }
}

/// The amount written in `input`: optional sign, digits, and at most one
/// point with up to eight digits behind it; surrounding white space is ignored.
pub open spec fn amount_value(input: Seq<char>) -> Result<AmountAtoms, AmountError> {
    let s = text::trimmed(input);
    if s.len() == 0 {
        Err(AmountError::Empty)
    } else {
        let body = if s[0] == '-' || s[0] == '+' {
            s.skip(1)
        } else {
            s
        };
        let point = text::index_of_char(body, '.');
        let whole = body.take(point);
        let frac = if point < body.len() {
            Some(body.skip(point + 1))
        } else {
            None
        };
        if body.len() == 0 {
            Err(AmountError::MissingDigits)
        } else if frac is Some && text::index_of_char(frac->0, '.') < (frac->0).len() {
            Err(AmountError::MultiplePoints)
        } else if whole.len() == 0 && (frac is None || (frac->0).len() == 0) {
            Err(AmountError::MissingDigits)
        } else {
            decimal_value(whole, frac, s[0] == '-')
        }
    }
}

/// The product of two fixed-point amounts, rounded half up at the scale
/// (toward positive infinity on an exact half).
pub open spec fn scaled_product(a: int, b: int) -> int {
    (a * b + AMOUNT_SCALE as int / 2) / (AMOUNT_SCALE as int)
}

/// The product of two amounts, brought back to the scale.
pub fn scale_product(a: i64, b: i64) -> (r: i128)
    ensures
        r == scaled_product(a as int, b as int),
{
    proof {
        lemma_i64_product(a as int, b as int);
    }
    let product = a as i128 * b as i128 + 50_000_000;
    // Floor division: `/` truncates, so shift a negative numerator first.
    if product >= 0 {
        product / 100_000_000
    } else {
        -((-product + 99_999_999) / 100_000_000)
    }
}

/// Renders a number of atoms in decimal notation.
pub fn render_decimal(atoms: i128) -> (r: String)
    requires
        atoms > i128::MIN,
    ensures
        r@ == amount_text(atoms as int),
{
    let negative = atoms < 0;
    let magnitude: i128 = if negative {
        -atoms
    } else {
        atoms
    };
    let whole = magnitude / 100_000_000;
    let frac = magnitude % 100_000_000;
    let mut out = String::new();
    if negative {
        out.push('-');
    }
    let ghost sign = out@;
    text::append_nat(&mut out, whole as u128);
    if frac != 0 {
        out.push('.');
        let ghost head = out@;
        let mut digits = String::new();
        text::append_fixed(&mut digits, frac as u64, 8);
        let chars = text::to_chars(digits.as_str());
        let mut keep: usize = chars.len();
        proof {
            assert(chars@ =~= text::fixed_digits(frac as nat, 8));
            assert(chars@.take(keep as int) =~= chars@);
        }
        while keep > 0 && chars[keep - 1] == '0'
            invariant
                0 <= keep <= chars@.len(),
                text::strip_zeros(chars@) == text::strip_zeros(chars@.take(keep as int)),
            decreases keep,
        {
            proof {
                assert(chars@.take(keep as int).drop_last() =~= chars@.take(keep - 1));
            }
            keep = keep - 1;
        }
        let mut i: usize = 0;
        while i < keep
            invariant
                0 <= i <= keep <= chars@.len(),
                out@ == head + chars@.take(i as int),
            decreases keep - i,
        {
            out.push(chars[i]);
            i = i + 1;
            proof {
                assert(out@ =~= head + chars@.take(i as int));
            }
        }
    }
    proof {
        assert(out@ =~= amount_text(atoms as int));
    }
    out
}

pub proof fn lemma_digit_bytes(s: Seq<char>)
    requires
        text::all_digits(s),
    ensures
        vstd::utf8::encode_utf8(s).len() == s.len(),
{
    assert(vstd::utf8::is_ascii_chars(s)) by {
        assert forall|i: int| 0 <= i < s.len() implies '\0' <= #[trigger] s[i] <= '\u{7f}' by {
            assert(text::is_digit(s[i]));
        }
    }
    vstd::utf8::is_ascii_chars_encode_utf8(s);
}

/// Parsing the rendering of an amount gives the amount back; the rendering has
/// no white space around it.
pub proof fn law_decimal_round_trip(atoms: i64)
    ensures
        text::trimmed(amount_text(atoms as int)) == amount_text(atoms as int),
        amount_value(amount_text(atoms as int)) == Ok::<AmountAtoms, AmountError>(
            AmountAtoms(atoms),
        ),
{
    let magnitude: int = if atoms < 0 {
        -(atoms as int)
    } else {
        atoms as int
    };
    let scale = AMOUNT_SCALE as int;
    let wn = (magnitude / scale) as nat;
    let whole = text::nat_text(wn);
    let fnat = (magnitude % scale) as nat;
    let text = amount_text(atoms as int);
    text::lemma_nat_text(wn);
    assert(text::pow10(8) == 100_000_000) by {
        reveal_with_fuel(text::pow10, 9);
    }
    text::lemma_fixed_digits(fnat, 8);
    let padded = text::fixed_digits(fnat, 8);
    let frac = text::strip_zeros(padded);
    text::lemma_strip_zeros(padded);
    let body = if fnat == 0 {
        whole
    } else {
        whole.push('.') + frac
    };
    assert(text::is_digit(whole[0]));
    assert(body[0] == whole[0]);
    if fnat != 0 {
        assert(frac.len() > 0) by {
            if frac.len() == 0 {
                assert(text::digits_value(frac) == 0);
                assert(0 * text::pow10(8) == 0);
            }
        }
        assert(body.last() == frac.last());
        assert(text::is_digit(frac[frac.len() - 1]));
    } else {
        assert(text::is_digit(whole[whole.len() - 1]));
    }
    assert(!text::is_space(body.last()));
    assert(text.last() == body.last());
    text::lemma_trimmed_without_space(text);
    let stripped = if text[0] == '-' || text[0] == '+' {
        text.skip(1)
    } else {
        text
    };
    assert(stripped =~= body);
    if fnat == 0 {
        assert forall|i: int| 0 <= i < body.len() implies body[i] != '.' by {
            assert(text::is_digit(whole[i]));
        }
        text::lemma_index_of_char_is(body, '.', body.len() as int);
        assert(body.take(body.len() as int) =~= whole);
    } else {
        assert forall|i: int| 0 <= i < whole.len() implies body[i] != '.' by {
            assert(text::is_digit(whole[i]));
            assert(body[i] == whole[i]);
        }
        assert(body[whole.len() as int] == '.');
        text::lemma_index_of_char_is(body, '.', whole.len() as int);
        assert(body.take(whole.len() as int) =~= whole);
        assert(body.skip(whole.len() as int + 1) =~= frac);
        assert forall|i: int| 0 <= i < frac.len() implies frac[i] != '.' by {
            assert(text::is_digit(frac[i]));
        }
        text::lemma_index_of_char_is(frac, '.', frac.len() as int);
        lemma_digit_bytes(frac);
    }
    assert(wn * scale + fnat == magnitude);
}

impl AmountAtoms {
    /// No amount at all.
    pub fn zero() -> (r: AmountAtoms)
        ensures
            r == AmountAtoms(0),
    {
        AmountAtoms(0)
    }

    pub fn from_atoms(atoms: i64) -> (r: AmountAtoms)
        ensures
            r == AmountAtoms(atoms),
    {
        AmountAtoms(atoms)
    }

    pub fn atoms(self) -> (r: i64)
        ensures
            r == self.0,
    {
        self.0
    }

    /// Reads an amount from decimal text.
    pub fn from_decimal_str(input: &str) -> (r: Result<AmountAtoms, AmountError>)
        ensures
            r == amount_value(input@),
    {
        let all = text::to_chars(input);
        let (lo, hi) = text::trim_bounds(all.as_slice());
        let chars = vstd::slice::slice_subrange(all.as_slice(), lo, hi);
        let n = chars.len();
        if n == 0 {
            return Err(AmountError::Empty);
        }
        let negative = chars[0] == '-';
        let start: usize = if negative || chars[0] == '+' {
            1
        } else {
            0
        };
        let body = vstd::slice::slice_subrange(chars, start, n);
        proof {
            if start == 0 {
                assert(body@ =~= chars@);
            } else {
                assert(body@ =~= chars@.skip(1));
            }
        }
        if body.len() == 0 {
            return Err(AmountError::MissingDigits);
        }
        let point = text::find_char(body, '.');
        let whole = vstd::slice::slice_subrange(body, 0, point);
        proof {
            assert(whole@ =~= body@.take(point as int));
        }
        if point < body.len() {
            let frac = vstd::slice::slice_subrange(body, point + 1, body.len());
            proof {
                assert(frac@ =~= body@.skip(point + 1));
            }
            if text::find_char(frac, '.') < frac.len() {
                return Err(AmountError::MultiplePoints);
            }
            if whole.len() == 0 && frac.len() == 0 {
                return Err(AmountError::MissingDigits);
            }
            Self::from_parts(whole, Some(frac), negative)
        } else {
            if whole.len() == 0 {
                return Err(AmountError::MissingDigits);
            }
            Self::from_parts(whole, None, negative)
        }
    }

    fn from_parts(whole: &[char], frac: Option<&[char]>, negative: bool) -> (r: Result<
        AmountAtoms,
        AmountError,
    >)
        ensures
            r == decimal_value(
                whole@,
                match frac {
                    Some(f) => Some(f@),
                    None => None,
                },
                negative,
            ),
    {
        if !text::check_digits(whole) {
            return Err(AmountError::InvalidWhole);
        }
        let units = match text::digits_to_i128(whole) {
            Some(v) => v,
            None => {
                return Err(AmountError::Overflow);
            },
        };
        proof {
            text::lemma_digits_value_bounds(whole@);
        }
        if units > i128::MAX / 100_000_000 {
            return Err(AmountError::Overflow);
        }
        let mut atoms: i128 = units * 100_000_000;
        if let Some(frac) = frac {
            let frac_text = text::from_chars(frac);
            if frac_text.as_str().as_bytes().len() > 8 {
                return Err(AmountError::TooManyDecimals);
            }
            if !text::check_digits(frac) {
                return Err(AmountError::InvalidFraction);
            }
            let part = Self::fraction_atoms(frac);
            if atoms > i128::MAX - part {
                return Err(AmountError::Overflow);
            }
            atoms = atoms + part;
        }
        if negative {
            atoms = -atoms;
        }
        if atoms > i64::MAX as i128 || atoms < i64::MIN as i128 {
            return Err(AmountError::Overflow);
        }
        Ok(AmountAtoms(atoms as i64))
    }

    /// The atoms that at most eight fractional digits stand for.
    fn fraction_atoms(frac: &[char]) -> (r: i128)
        requires
            text::all_digits(frac@),
            vstd::utf8::encode_utf8(frac@).len() <= 8,
        ensures
            frac@.len() <= 8,
            r == text::digits_value(frac@) * text::pow10((8 - frac@.len()) as nat),
            0 <= r < 100_000_000,
    {
        proof {
            lemma_digit_bytes(frac@);
            assert(text::pow10(0) == 1);
        }
        let mut value: i128 = 0;
        let mut i: usize = 0;
        while i < frac.len()
            invariant
                0 <= i <= frac@.len() <= 8,
                text::all_digits(frac@),
                value == text::digits_value(frac@.take(i as int)),
                0 <= value < text::pow10(i as nat),
                text::pow10(i as nat) <= 100_000_000,
            decreases frac@.len() - i,
        {
            proof {
                assert(text::is_digit(frac@[i as int]));
                assert(frac@.take(i + 1).drop_last() =~= frac@.take(i as int));
                reveal_with_fuel(text::pow10, 9);
            }
            value = value * 10 + (frac[i] as u32 - 48) as i128;
            i = i + 1;
        }
        proof {
            assert(frac@.take(i as int) =~= frac@);
        }
        let mut k: usize = frac.len();
        proof {
            assert(value * text::pow10(0) == value);
        }
        while k < 8
            invariant
                frac@.len() <= k <= 8,
                value == text::digits_value(frac@) * text::pow10((k - frac@.len()) as nat),
                0 <= value < text::pow10(k as nat),
                text::pow10(k as nat) <= 100_000_000,
            decreases 8 - k,
        {
            proof {
                let e = (k - frac@.len()) as nat;
                assert(text::pow10((e + 1) as nat) == 10 * text::pow10(e));
                assert(text::digits_value(frac@) * text::pow10(e) * 10 == text::digits_value(frac@) * (10 * text::pow10(
                    e,
                ))) by (nonlinear_arith);
                reveal_with_fuel(text::pow10, 9);
            }
            value = value * 10;
            k = k + 1;
        }
        value
    }

    /// Renders the amount in decimal notation.
    pub fn to_decimal_string(self) -> (r: String)
        ensures
            r@ == amount_text(self.0 as int),
    {
        render_decimal(self.0 as i128)
    }

    /// The cost of `quantity` at this price, rounded half up at the scale.
    pub fn checked_mul_scaled(self, quantity: AmountAtoms) -> (r: Result<AmountAtoms, AmountError>)
        ensures
            r == (if fits_i64(scaled_product(self.0 as int, quantity.0 as int)) {
                Ok(AmountAtoms(scaled_product(self.0 as int, quantity.0 as int) as i64))
            } else {
                Err(AmountError::Overflow)
            }),
    {
        let rounded = scale_product(self.0, quantity.0);
        if rounded > i64::MAX as i128 || rounded < i64::MIN as i128 {
            Err(AmountError::Overflow)
        } else {
            Ok(AmountAtoms(rounded as i64))
        }
    }

    pub fn checked_add(self, other: AmountAtoms) -> (r: Result<AmountAtoms, AmountError>)
        ensures
            r == (if fits_i64(self.0 + other.0) {
                Ok(AmountAtoms((self.0 + other.0) as i64))
            } else {
                Err(AmountError::Overflow)
            }),
    {
        match self.0.checked_add(other.0) {
            Some(v) => Ok(AmountAtoms(v)),
            None => Err(AmountError::Overflow),
        }
    }

    pub fn checked_sub(self, other: AmountAtoms) -> (r: Result<AmountAtoms, AmountError>)
        ensures
            r == (if fits_i64(self.0 - other.0) {
                Ok(AmountAtoms((self.0 - other.0) as i64))
            } else {
                Err(AmountError::Overflow)
            }),
    {
        match self.0.checked_sub(other.0) {
            Some(v) => Ok(AmountAtoms(v)),
            None => Err(AmountError::Overflow),
        }
    }
}

impl Default for AmountAtoms {
    fn default() -> (r: AmountAtoms)
        ensures
            r == AmountAtoms(0),
    {
        AmountAtoms(0)
    }
}

/// Two 64-bit factors never leave the 128-bit range, with room to spare.
pub proof fn lemma_i64_product(a: int, b: int)
    requires
        fits_i64(a),
        fits_i64(b),
    ensures
        -0x4000_0000_0000_0000_0000_0000_0000_0000 <= a * b
            <= 0x4000_0000_0000_0000_0000_0000_0000_0000,
{
    assert(-0x4000_0000_0000_0000_0000_0000_0000_0000 <= a * b
        <= 0x4000_0000_0000_0000_0000_0000_0000_0000) by (nonlinear_arith)
        requires
            -0x8000_0000_0000_0000 <= a <= 0x7fff_ffff_ffff_ffff,
            -0x8000_0000_0000_0000 <= b <= 0x7fff_ffff_ffff_ffff,
    ;
}

/// What an account holds of one asset, and how much of it is set aside.
#[derive(Clone, Copy, Debug, PartialEq, Eq, Structural)]
pub struct AccountBalance {
    pub balance_atoms: i64,
    pub frozen_atoms: i64,
}

impl AccountBalance {
    /// What may be spent.
    pub open spec fn spendable(self) -> int {
        self.balance_atoms - self.frozen_atoms
    }

    pub fn from_atoms(balance_atoms: i64, frozen_atoms: i64) -> (r: AccountBalance)
        ensures
            r.balance_atoms == balance_atoms,
            r.frozen_atoms == frozen_atoms,
    {
        AccountBalance { balance_atoms, frozen_atoms }
    }

    pub fn available_atoms(self) -> (r: i64)
        requires
            fits_i64(self.spendable()),
        ensures
            r == self.spendable(),
    {
        self.balance_atoms - self.frozen_atoms
    }

    /// The account after `amount` has been set aside.
    pub open spec fn with_frozen(self, amount: int) -> AccountBalance {
        AccountBalance {
            balance_atoms: self.balance_atoms,
            frozen_atoms: (self.frozen_atoms + amount) as i64,
        }
    }

    /// The account after `amount` has been given back; nothing happens where it
    /// is not positive.
    pub open spec fn with_released(self, amount: int) -> AccountBalance {
        AccountBalance {
            balance_atoms: self.balance_atoms,
            frozen_atoms: if amount <= 0 {
                self.frozen_atoms
            } else {
                saturate_i64(self.frozen_atoms - amount)
            },
        }
    }

    /// Sets aside `amount_atoms` where the spendable part covers it; amounts
    /// that are not positive are granted without any effect.
    pub fn try_freeze_atoms(&mut self, amount_atoms: i64) -> (r: bool)
        requires
            amount_atoms > 0 ==> fits_i64(old(self).spendable()),
        ensures
            r == (amount_atoms <= 0 || old(self).spendable() >= amount_atoms),
            *final(self) == (if r && amount_atoms > 0 {
                old(self).with_frozen(amount_atoms as int)
            } else {
                *old(self)
            }),
    {
        if amount_atoms <= 0 {
            return true;
        }
        if self.available_atoms() >= amount_atoms {
            self.frozen_atoms = self.frozen_atoms + amount_atoms;
            true
        } else {
            false
        }
    }

    /// Gives back `amount_atoms` of what is set aside.
    pub fn release_atoms(&mut self, amount_atoms: i64)
        ensures
            *final(self) == old(self).with_released(amount_atoms as int),
    {
        if amount_atoms <= 0 {
            return;
        }
        self.frozen_atoms = saturating_difference(self.frozen_atoms, amount_atoms);
    }

    /// Moves the balance, never below zero, and then gives back what is set aside.
    pub fn apply_atoms_delta(&mut self, balance_delta_atoms: i64, frozen_release_atoms: i64)
        ensures
            final(self).balance_atoms == (if saturate_i64(
                old(self).balance_atoms + balance_delta_atoms,
            ) < 0 {
                0
            } else {
                saturate_i64(old(self).balance_atoms + balance_delta_atoms)
            }),
            final(self).frozen_atoms == old(self).with_released(
                frozen_release_atoms as int,
            ).frozen_atoms,
    {
        let moved = saturating_sum(self.balance_atoms, balance_delta_atoms);
        self.balance_atoms = if moved < 0 {
            0
        } else {
            moved
        };
        self.release_atoms(frozen_release_atoms);
    }
}

/// Setting aside an amount that the spendable part covers and giving it back
/// leaves the account as it was; in between exactly that amount is missing
/// from the spendable part and the spendable part is not negative.
pub proof fn law_freeze_then_release(account: AccountBalance, amount: i64)
    requires
        amount > 0,
        account.spendable() >= amount,
    ensures
        account.with_frozen(amount as int).with_released(amount as int) == account,
        account.with_frozen(amount as int).spendable() == account.spendable() - amount,
        account.with_frozen(amount as int).spendable() >= 0,
{
}

impl Default for AccountBalance {
    fn default() -> (r: AccountBalance)
        ensures
            r.balance_atoms == 0,
            r.frozen_atoms == 0,
    {
        AccountBalance { balance_atoms: 0, frozen_atoms: 0 }
    }
}

/// The product of two amounts is a whole number of atoms, the nearest one to
/// the exact product, and the upper one where two are equally near.
pub proof fn law_product_is_the_nearest_amount(a: int, b: int)
    ensures
        scaled_product(a, b) * 100_000_000 - 50_000_000 <= a * b < scaled_product(a, b)
            * 100_000_000 + 50_000_000,
        scaled_product(a, b) == scaled_product(b, a),
        a * b >= 0 ==> scaled_product(a, b) >= 0,
        scaled_product(a, 100_000_000) == a,
{
    assert(a * b == b * a) by (nonlinear_arith);
}

/// What is set aside can only be given back up to the amount, never moves the
/// balance, and an amount that is not positive changes nothing.
pub proof fn law_setting_aside_never_moves_the_balance(b: AccountBalance, amount: i64)
    requires
        b.frozen_atoms >= 0,
    ensures
        b.with_released(amount as int).balance_atoms == b.balance_atoms,
        b.with_frozen(amount as int).balance_atoms == b.balance_atoms,
        amount > 0 ==> b.with_released(amount as int).frozen_atoms == b.frozen_atoms - amount,
        amount <= 0 ==> b.with_released(amount as int) == b,
        b.spendable() + b.frozen_atoms == b.balance_atoms,
{
}

/// The text of an amount starts with a minus sign where it is negative and with
/// a digit otherwise; a point stands in it exactly where it is not whole.
pub proof fn law_amount_text_shows_sign_and_point(atoms: i64)
    ensures
        ({
            let t = amount_text(atoms as int);
            &&& t.len() > 0
            &&& atoms < 0 <==> t[0] == '-'
            &&& atoms >= 0 ==> text::is_digit(t[0])
            &&& atoms as int % 100_000_000 == 0 ==> !t.contains('.')
            &&& atoms as int % 100_000_000 != 0 ==> t.contains('.')
        }),
{
    let magnitude: int = if atoms < 0 {
        -(atoms as int)
    } else {
        atoms as int
    };
    let whole = text::nat_text((magnitude / AMOUNT_SCALE as int) as nat);
    let frac = (magnitude % AMOUNT_SCALE as int) as nat;
    let t = amount_text(atoms as int);
    text::lemma_nat_text((magnitude / AMOUNT_SCALE as int) as nat);
    assert(text::is_digit(whole[0]));
    text::lemma_digits_lack(whole, '.');
    let sign: int = if atoms < 0 {
        1
    } else {
        0
    };
    assert(frac == 0 <==> atoms as int % 100_000_000 == 0);
    if frac == 0 {
        assert forall|i: int| 0 <= i < t.len() implies t[i] != '.' by {
            if i >= sign {
                assert(t[i] == whole[i - sign]);
            }
        }
    } else {
        assert(t[sign + whole.len()] == '.');
    }
}

} // verus!
