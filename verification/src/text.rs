//! Text building blocks: decimal rendering and parsing of integers, trimming
//! and comparison of strings, all stated over sequences of characters.
use vstd::prelude::*;
use vstd::utf8::*;

verus! {

/// `String::push` appends one character to the end of the string.
pub assume_specification[ String::push ](s: &mut String, c: char)
    ensures
        final(s)@ == old(s)@.push(c),
;

/// The characters of a borrowed text, where there is one.
pub open spec fn opt_str(s: Option<&str>) -> Option<Seq<char>> {
    match s {
        Some(t) => Some(t@),
        None => None,
    }
}

/// The characters of an owned text, where there is one.
pub open spec fn opt_string(s: Option<String>) -> Option<Seq<char>> {
    match s {
        Some(t) => Some(t@),
        None => None,
    }
}

/// The texts of a list.
pub open spec fn text_views(s: Seq<String>) -> Seq<Seq<char>> {
    s.map_values(|t: String| t@)
}

pub open spec fn text_or(v: Option<Seq<char>>, default: Seq<char>) -> Seq<char> {
    match v {
        Some(s) => s,
        None => default,
    }
}

/// The character that writes the decimal digit `d`.
pub open spec fn digit_char(d: int) -> char {
    (48 + d) as char
}

pub open spec fn is_digit(c: char) -> bool {
    '0' <= c <= '9'
}

pub open spec fn digit_value(c: char) -> int {
    c as int - 48
}

pub open spec fn all_digits(s: Seq<char>) -> bool {
    forall|i: int| 0 <= i < s.len() ==> is_digit(#[trigger] s[i])
}

/// The number a run of decimal digits stands for, most significant first.
pub open spec fn digits_value(s: Seq<char>) -> int
    decreases s.len(),
{
    if s.len() == 0 {
        0
    } else {
        digits_value(s.drop_last()) * 10 + digit_value(s.last())
    }
}

/// The shortest decimal rendering of a natural number.
pub open spec fn nat_text(n: nat) -> Seq<char>
    decreases n,
{
    if n < 10 {
        seq![digit_char(n as int)]
    } else {
        nat_text(n / 10).push(digit_char((n % 10) as int))
    }
}

/// The decimal rendering of an integer, with a minus sign where negative.
pub open spec fn int_text(i: int) -> Seq<char> {
    if i < 0 {
        seq!['-'] + nat_text((-i) as nat)
    } else {
        nat_text(i as nat)
    }
}

/// The last `k` decimal digits of `n`, padded with leading zeros.
pub open spec fn fixed_digits(n: nat, k: nat) -> Seq<char>
    decreases k,
{
    if k == 0 {
        seq![]
    } else {
        fixed_digits(n / 10, (k - 1) as nat).push(digit_char((n % 10) as int))
    }
}

pub open spec fn pow10(k: nat) -> int
    decreases k,
{
    if k == 0 {
        1
    } else {
        10 * pow10((k - 1) as nat)
    }
}

/// `s` without its trailing `'0'` characters.
pub open spec fn strip_zeros(s: Seq<char>) -> Seq<char>
    decreases s.len(),
{
    if s.len() > 0 && s.last() == '0' {
        strip_zeros(s.drop_last())
    } else {
        s
    }
}

/// The characters with the Unicode `White_Space` property.
pub open spec fn is_space(c: char) -> bool {
    ||| 0x09 <= c as int <= 0x0d
    ||| c as int == 0x20
    ||| c as int == 0x85
    ||| c as int == 0xa0
    ||| c as int == 0x1680
    ||| 0x2000 <= c as int <= 0x200a
    ||| c as int == 0x2028
    ||| c as int == 0x2029
    ||| c as int == 0x202f
    ||| c as int == 0x205f
    ||| c as int == 0x3000
}

pub open spec fn trim_start(s: Seq<char>) -> Seq<char>
    decreases s.len(),
{
    if s.len() > 0 && is_space(s[0]) {
        trim_start(s.drop_first())
    } else {
        s
    }
}

pub open spec fn trim_end(s: Seq<char>) -> Seq<char>
    decreases s.len(),
{
    if s.len() > 0 && is_space(s.last()) {
        trim_end(s.drop_last())
    } else {
        s
    }
}

/// `s` without leading and trailing white space.
pub open spec fn trimmed(s: Seq<char>) -> Seq<char> {
    trim_end(trim_start(s))
}

/// The first position of `c` in `s`, or the length of `s` where there is none.
pub open spec fn index_of_char(s: Seq<char>, c: char) -> int
    decreases s.len(),
{
    if s.len() == 0 || s[0] == c {
        0
    } else {
        1 + index_of_char(s.drop_first(), c)
    }
}

/// The signed number written in `s`: an optional sign and at least one digit,
/// nothing else.
pub open spec fn signed_value(s: Seq<char>) -> Option<int> {
    let body = if s.len() > 0 && (s[0] == '-' || s[0] == '+') {
        s.skip(1)
    } else {
        s
    };
    if body.len() == 0 || !all_digits(body) {
        None
    } else if s[0] == '-' {
        Some(-digits_value(body))
    } else {
        Some(digits_value(body))
    }
}

/// The `i64` written in `s`, where it is one and fits.
pub open spec fn i64_value(s: Seq<char>) -> Option<i64> {
    match signed_value(s) {
        Some(v) => if i64::MIN <= v <= i64::MAX {
            Some(v as i64)
        } else {
            None
        },
        None => None,
    }
}

/// The unsigned number written in `s`: an optional plus sign and at least one
/// digit, nothing else.
pub open spec fn unsigned_value(s: Seq<char>) -> Option<int> {
    let body = if s.len() > 0 && s[0] == '+' {
        s.skip(1)
    } else {
        s
    };
    if body.len() == 0 || !all_digits(body) {
        None
    } else {
        Some(digits_value(body))
    }
}

/// The number written in `s`, where it is one and is at most `max`.
pub open spec fn bounded_value(s: Seq<char>, max: u64) -> Option<u64> {
    match unsigned_value(s) {
        Some(v) => if v <= max {
            Some(v as u64)
        } else {
            None
        },
        None => None,
    }
}

/// The pieces of `s` between occurrences of `c`.
pub open spec fn split_on(s: Seq<char>, c: char) -> Seq<Seq<char>>
    decreases s.len(),
{
    let k = index_of_char(s, c);
    if k < 0 || k >= s.len() {
        seq![s]
    } else {
        seq![s.take(k)] + split_on(s.skip(k + 1), c)
    }
}

pub proof fn lemma_index_of_char(s: Seq<char>, c: char)
    ensures
        0 <= index_of_char(s, c) <= s.len(),
        index_of_char(s, c) < s.len() ==> s[index_of_char(s, c)] == c,
        forall|i: int| 0 <= i < index_of_char(s, c) ==> s[i] != c,
    decreases s.len(),
{
    if s.len() == 0 || s[0] == c {
    } else {
        let rest = s.drop_first();
        lemma_index_of_char(rest, c);
        assert forall|i: int| 0 <= i < index_of_char(s, c) implies s[i] != c by {
            if i > 0 {
                assert(rest[i - 1] != c);
            }
        }
    }
}

/// The position of the first `c` is pinned by what `lemma_index_of_char` says of it.
pub proof fn lemma_index_of_char_is(s: Seq<char>, c: char, k: int)
    requires
        0 <= k <= s.len(),
        k < s.len() ==> s[k] == c,
        forall|i: int| 0 <= i < k ==> s[i] != c,
    ensures
        index_of_char(s, c) == k,
{
    lemma_index_of_char(s, c);
    let j = index_of_char(s, c);
    if j < k {
        assert(s[j] != c);
    }
    if k < j {
        assert(s[k] != c);
    }
}

pub proof fn lemma_digits_value_bounds(s: Seq<char>)
    requires
        all_digits(s),
    ensures
        digits_value(s) >= 0,
    decreases s.len(),
{
    if s.len() > 0 {
        assert(all_digits(s.drop_last()));
        lemma_digits_value_bounds(s.drop_last());
        assert(is_digit(s[s.len() - 1]));
    }
}

/// A longer run of digits never stands for a smaller number.
pub proof fn lemma_digits_value_prefix(s: Seq<char>, k: int)
    requires
        all_digits(s),
        0 <= k <= s.len(),
    ensures
        digits_value(s.take(k)) <= digits_value(s),
    decreases s.len() - k,
{
    if k == s.len() {
        assert(s.take(k) =~= s);
    } else {
        lemma_digits_value_prefix(s, k + 1);
        assert(s.take(k + 1).drop_last() =~= s.take(k));
        assert(all_digits(s.take(k)));
        lemma_digits_value_bounds(s.take(k));
        assert(is_digit(s[k]));
    }
}

pub proof fn lemma_nat_text(n: nat)
    ensures
        nat_text(n).len() > 0,
        all_digits(nat_text(n)),
        digits_value(nat_text(n)) == n,
    decreases n,
{
    if n < 10 {
        let s = nat_text(n);
        assert(s.drop_last() =~= seq![]);
        assert(s.last() == digit_char(n as int));
        assert(digits_value(s.drop_last()) == 0);
    } else {
        lemma_nat_text(n / 10);
        let s = nat_text(n);
        assert(s.drop_last() =~= nat_text(n / 10));
        assert forall|i: int| 0 <= i < s.len() implies is_digit(#[trigger] s[i]) by {
            if i < s.len() - 1 {
                assert(s[i] == nat_text(n / 10)[i]);
            }
        }
    }
}

/// A number is read back from its rendering.
pub proof fn lemma_int_text(i: i64)
    ensures
        i64_value(int_text(i as int)) == Some(i),
        int_text(i as int).len() > 0,
{
    let magnitude: nat = if i < 0 {
        (-(i as int)) as nat
    } else {
        i as nat
    };
    lemma_nat_text(magnitude);
    let digits = nat_text(magnitude);
    let s = int_text(i as int);
    assert(is_digit(digits[0]));
    if i < 0 {
        assert(s.skip(1) =~= digits);
    }
}

/// An unsigned number is read back from its rendering.
pub proof fn lemma_bounded_text(n: u64, max: u64)
    requires
        n <= max,
    ensures
        bounded_value(nat_text(n as nat), max) == Some(n),
{
    lemma_nat_text(n as nat);
    assert(is_digit(nat_text(n as nat)[0]));
}

/// A text of digits holds no other character.
pub proof fn lemma_digits_lack(s: Seq<char>, c: char)
    requires
        all_digits(s),
        !is_digit(c),
    ensures
        forall|i: int| 0 <= i < s.len() ==> s[i] != c,
{
    assert forall|i: int| 0 <= i < s.len() implies s[i] != c by {
        assert(is_digit(s[i]));
    }
}

pub proof fn lemma_pow10_positive(k: nat)
    ensures
        pow10(k) >= 1,
    decreases k,
{
    if k > 0 {
        lemma_pow10_positive((k - 1) as nat);
    }
}

pub proof fn lemma_fixed_digits(n: nat, k: nat)
    requires
        n < pow10(k),
    ensures
        fixed_digits(n, k).len() == k,
        all_digits(fixed_digits(n, k)),
        digits_value(fixed_digits(n, k)) == n,
    decreases k,
{
    if k > 0 {
        let s = fixed_digits(n, k);
        assert(pow10(k) == 10 * pow10((k - 1) as nat));
        assert(n / 10 < pow10((k - 1) as nat));
        lemma_fixed_digits(n / 10, (k - 1) as nat);
        assert(s.drop_last() =~= fixed_digits(n / 10, (k - 1) as nat));
        assert forall|i: int| 0 <= i < s.len() implies is_digit(#[trigger] s[i]) by {
            if i < s.len() - 1 {
                assert(s[i] == fixed_digits(n / 10, (k - 1) as nat)[i]);
            }
        }
    }
}

/// Dropping trailing zeros from a fraction scales its digits down by as many tens.
pub proof fn lemma_strip_zeros(s: Seq<char>)
    requires
        all_digits(s),
    ensures
        strip_zeros(s).len() <= s.len(),
        all_digits(strip_zeros(s)),
        digits_value(s) == digits_value(strip_zeros(s)) * pow10(
            (s.len() - strip_zeros(s).len()) as nat,
        ),
    decreases s.len(),
{
    if s.len() > 0 && s.last() == '0' {
        let d = s.drop_last();
        assert(all_digits(d));
        lemma_strip_zeros(d);
        let t = strip_zeros(d);
        let k = (d.len() - t.len()) as nat;
        assert(pow10((k + 1) as nat) == 10 * pow10(k));
        assert(digits_value(t) * pow10(k) * 10 == digits_value(t) * (10 * pow10(k)))
            by (nonlinear_arith);
    } else {
        assert(pow10(0) == 1);
    }
}

pub proof fn lemma_trimmed_without_space(s: Seq<char>)
    requires
        s.len() > 0,
        !is_space(s[0]),
        !is_space(s.last()),
    ensures
        trimmed(s) == s,
{
}

/// Whether two strings hold the same characters.
pub fn str_eq(a: &str, b: &str) -> (r: bool)
    ensures
        r == (a@ == b@),
{
    let x = a.as_bytes();
    let y = b.as_bytes();
    proof {
        encode_utf8_decode_utf8(a@);
        encode_utf8_decode_utf8(b@);
    }
    if x.len() != y.len() {
        return false;
    }
    let mut i: usize = 0;
    while i < x.len()
        invariant
            x@ == encode_utf8(a@),
            y@ == encode_utf8(b@),
            x@.len() == y@.len(),
            0 <= i <= x@.len(),
            forall|j: int| 0 <= j < i ==> x@[j] == y@[j],
        decreases x@.len() - i,
    {
        if x[i] != y[i] {
            return false;
        }
        i = i + 1;
    }
    proof {
        assert(x@ =~= y@);
    }
    true
}

/// A copy of `s`.
pub fn owned(s: &str) -> (r: String)
    ensures
        r@ == s@,
{
    let mut out = String::new();
    out.append(s);
    proof {
        assert(out@ =~= s@);
    }
    out
}

/// The characters of a string, in order.
pub fn to_chars(s: &str) -> (r: Vec<char>)
    ensures
        r@ == s@,
{
    let mut out: Vec<char> = Vec::new();
    for c in it: s.chars()
        invariant
            out@ == it.seq().take(it.index()),
            it.seq() == s@,
    {
        out.push(c);
    }
    proof {
        assert(out@ =~= s@);
    }
    out
}

/// A string made of the given characters.
pub fn from_chars(chars: &[char]) -> (r: String)
    ensures
        r@ == chars@,
{
    let mut out = String::new();
    let mut i: usize = 0;
    while i < chars.len()
        invariant
            0 <= i <= chars@.len(),
            out@ == chars@.take(i as int),
        decreases chars@.len() - i,
    {
        out.push(chars[i]);
        i = i + 1;
        proof {
            assert(out@ =~= chars@.take(i as int));
        }
    }
    proof {
        assert(out@ =~= chars@);
    }
    out
}

fn space(c: char) -> (r: bool)
    ensures
        r == is_space(c),
{
    let u = c as u32;
    (0x09 <= u && u <= 0x0d) || u == 0x20 || u == 0x85 || u == 0xa0 || u == 0x1680 || (0x2000 <= u
        && u <= 0x200a) || u == 0x2028 || u == 0x2029 || u == 0x202f || u == 0x205f || u == 0x3000
}

/// Where `chars` starts once leading white space is left out.
pub fn skip_space(chars: &[char]) -> (r: usize)
    ensures
        r <= chars@.len(),
        chars@.skip(r as int) == trim_start(chars@),
{
    let mut lo: usize = 0;
    proof {
        assert(chars@.skip(0) =~= chars@);
    }
    while lo < chars.len() && space(chars[lo])
        invariant
            0 <= lo <= chars@.len(),
            trim_start(chars@) == trim_start(chars@.skip(lo as int)),
        decreases chars@.len() - lo,
    {
        proof {
            assert(chars@.skip(lo as int).drop_first() =~= chars@.skip(lo + 1));
        }
        lo = lo + 1;
    }
    lo
}

/// The bounds of `chars` once leading and trailing white space is left out.
pub fn trim_bounds(chars: &[char]) -> (r: (usize, usize))
    ensures
        r.0 <= r.1 <= chars@.len(),
        chars@.subrange(r.0 as int, r.1 as int) == trimmed(chars@),
{
    let lo = skip_space(chars);
    let mut hi: usize = chars.len();
    proof {
        assert(trim_start(chars@) == chars@.skip(lo as int));
        assert(chars@.subrange(lo as int, hi as int) =~= chars@.skip(lo as int));
    }
    while hi > lo && space(chars[hi - 1])
        invariant
            lo <= hi <= chars@.len(),
            trim_end(chars@.skip(lo as int)) == trim_end(chars@.subrange(lo as int, hi as int)),
        decreases hi - lo,
    {
        proof {
            assert(chars@.subrange(lo as int, hi as int).drop_last() =~= chars@.subrange(
                lo as int,
                hi - 1,
            ));
        }
        hi = hi - 1;
    }
    (lo, hi)
}

/// `input` without leading and trailing white space.
pub fn trim(input: &str) -> (r: String)
    ensures
        r@ == trimmed(input@),
{
    let chars = to_chars(input);
    let (lo, hi) = trim_bounds(chars.as_slice());
    from_chars(vstd::slice::slice_subrange(chars.as_slice(), lo, hi))
}

/// Appends the decimal rendering of `n`.
pub fn append_nat(out: &mut String, n: u128)
    ensures
        final(out)@ == old(out)@ + nat_text(n as nat),
    decreases n,
{
    if n < 10 {
        out.push((48u8 + n as u8) as char);
        proof {
            assert(out@ =~= old(out)@ + nat_text(n as nat));
        }
    } else {
        append_nat(out, n / 10);
        out.push((48u8 + (n % 10) as u8) as char);
        proof {
            assert(out@ =~= old(out)@ + nat_text(n as nat));
        }
    }
}

/// Appends the decimal rendering of `i`.
pub fn append_int(out: &mut String, i: i64)
    ensures
        final(out)@ == old(out)@ + int_text(i as int),
{
    if i < 0 {
        out.push('-');
        append_nat(out, (-(i as i128)) as u128);
        proof {
            assert(out@ =~= old(out)@ + int_text(i as int));
        }
    } else {
        append_nat(out, i as u128);
    }
}

/// Appends the last `k` decimal digits of `n`, zero-padded.
pub fn append_fixed(out: &mut String, n: u64, k: u8)
    ensures
        final(out)@ == old(out)@ + fixed_digits(n as nat, k as nat),
    decreases k,
{
    if k > 0 {
        append_fixed(out, n / 10, k - 1);
        out.push((48u8 + (n % 10) as u8) as char);
    }
    proof {
        assert(out@ =~= old(out)@ + fixed_digits(n as nat, k as nat));
    }
}

/// Whether every character is a decimal digit.
pub fn check_digits(chars: &[char]) -> (r: bool)
    ensures
        r == all_digits(chars@),
{
    let mut i: usize = 0;
    while i < chars.len()
        invariant
            0 <= i <= chars@.len(),
            forall|j: int| 0 <= j < i ==> is_digit(#[trigger] chars@[j]),
        decreases chars@.len() - i,
    {
        let c = chars[i];
        if !('0' <= c && c <= '9') {
            proof {
                assert(!is_digit(chars@[i as int]));
            }
            return false;
        }
        i = i + 1;
    }
    true
}

/// The value of a run of digits, or `None` where it does not fit.
pub fn digits_to_i128(chars: &[char]) -> (r: Option<i128>)
    requires
        all_digits(chars@),
    ensures
        match r {
            Some(v) => v == digits_value(chars@),
            None => digits_value(chars@) > i128::MAX,
        },
{
    let mut acc: i128 = 0;
    let mut i: usize = 0;
    while i < chars.len()
        invariant
            0 <= i <= chars@.len(),
            all_digits(chars@),
            acc == digits_value(chars@.take(i as int)),
            acc >= 0,
        decreases chars@.len() - i,
    {
        let d = chars[i] as u32 - 48;
        proof {
            assert(is_digit(chars@[i as int]));
            assert(chars@.take(i + 1).drop_last() =~= chars@.take(i as int));
            lemma_digits_value_prefix(chars@, i + 1);
        }
        if acc > (i128::MAX - d as i128) / 10 {
            return None;
        }
        acc = acc * 10 + d as i128;
        i = i + 1;
    }
    proof {
        assert(chars@.take(i as int) =~= chars@);
    }
    Some(acc)
}

/// The `i64` written in `s`.
pub fn parse_i64(s: &str) -> (r: Option<i64>)
    ensures
        r == i64_value(s@),
{
    let chars = to_chars(s);
    parse_i64_chars(chars.as_slice())
}

/// The `i64` written in `chars`.
pub fn parse_i64_chars(chars: &[char]) -> (r: Option<i64>)
    ensures
        r == i64_value(chars@),
{
    let n = chars.len();
    let signed = n > 0 && (chars[0] == '-' || chars[0] == '+');
    let start: usize = if signed {
        1
    } else {
        0
    };
    let body = vstd::slice::slice_subrange(chars, start, n);
    proof {
        if signed {
            assert(body@ =~= chars@.skip(1));
        } else {
            assert(body@ =~= chars@);
        }
    }
    if body.len() == 0 || !check_digits(body) {
        return None;
    }
    let value = match digits_to_i128(body) {
        Some(v) => v,
        None => {
            return None;
        },
    };
    proof {
        lemma_digits_value_bounds(body@);
    }
    let value = if chars[0] == '-' {
        -value
    } else {
        value
    };
    if value > i64::MAX as i128 || value < i64::MIN as i128 {
        None
    } else {
        Some(value as i64)
    }
}

/// The number written in `chars`, where it is at most `max`.
pub fn parse_bounded_chars(chars: &[char], max: u64) -> (r: Option<u64>)
    ensures
        r == bounded_value(chars@, max),
        r is Some ==> r->0 <= max,
{
    let n = chars.len();
    let signed = n > 0 && chars[0] == '+';
    let start: usize = if signed {
        1
    } else {
        0
    };
    let body = vstd::slice::slice_subrange(chars, start, n);
    proof {
        if signed {
            assert(body@ =~= chars@.skip(1));
        } else {
            assert(body@ =~= chars@);
        }
    }
    if body.len() == 0 || !check_digits(body) {
        return None;
    }
    let value = match digits_to_i128(body) {
        Some(v) => v,
        None => {
            return None;
        },
    };
    proof {
        lemma_digits_value_bounds(body@);
    }
    if value > max as i128 {
        None
    } else {
        Some(value as u64)
    }
}

/// The first position of `c` in `chars`, or its length.
pub fn find_char(chars: &[char], c: char) -> (r: usize)
    ensures
        r == index_of_char(chars@, c),
        r <= chars@.len(),
{
    let mut i: usize = 0;
    while i < chars.len() && chars[i] != c
        invariant
            0 <= i <= chars@.len(),
            forall|j: int| 0 <= j < i ==> chars@[j] != c,
        decreases chars@.len() - i,
    {
        i = i + 1;
    }
    proof {
        lemma_index_of_char_is(chars@, c, i as int);
    }
    i
}

/// An ASCII capital as its small letter; any other character as it is.
pub open spec fn lower_char(c: char) -> char {
    if 'A' <= c <= 'Z' {
        (c as int + 32) as char
    } else {
        c
    }
}

pub open spec fn lower_text(s: Seq<char>) -> Seq<char> {
    s.map_values(|c: char| lower_char(c))
}

/// A text with its ASCII capitals made small.
pub fn to_lower(s: &str) -> (r: String)
    ensures
        r@ == lower_text(s@),
{
    let chars = to_chars(s);
    let mut out = String::new();
    let mut i: usize = 0;
    while i < chars.len()
        invariant
            i <= chars@.len(),
            chars@ == s@,
            out@ == lower_text(s@.take(i as int)),
        decreases chars@.len() - i,
    {
        let c = chars[i];
        let low = if 'A' <= c && c <= 'Z' {
            (c as u8 + 32) as char
        } else {
            c
        };
        out.push(low);
        proof {
            assert(low == lower_char(c));
            assert(out@ =~= lower_text(s@.take(i + 1)));
        }
        i = i + 1;
    }
    proof {
        assert(s@.take(i as int) =~= s@);
    }
    out
}

/// The text before and after the first `c`, where there is one.
pub open spec fn split_pair(s: Seq<char>, c: char) -> Option<(Seq<char>, Seq<char>)> {
    let k = index_of_char(s, c);
    if k < s.len() {
        Some((s.take(k), s.skip(k + 1)))
    } else {
        None
    }
}

/// Splits a text at its first `c`.
pub fn split_once(s: &str, c: char) -> (r: Option<(String, String)>)
    ensures
        (match r {
            Some((a, b)) => Some((a@, b@)),
            None => None,
        }) == split_pair(s@, c),
{
    let chars = to_chars(s);
    let k = find_char(chars.as_slice(), c);
    if k >= chars.len() {
        return None;
    }
    let head = vstd::slice::slice_subrange(chars.as_slice(), 0, k);
    let tail = vstd::slice::slice_subrange(chars.as_slice(), k + 1, chars.len());
    proof {
        assert(chars@.subrange(0, k as int) =~= chars@.take(k as int));
        assert(chars@.subrange(k + 1, chars@.len() as int) =~= chars@.skip(k + 1));
    }
    Some((from_chars(head), from_chars(tail)))
}

/// The text behind a prefix.
pub open spec fn behind(s: Seq<char>, prefix: Seq<char>) -> Option<Seq<char>> {
    if prefix.len() <= s.len() && s.take(prefix.len() as int) == prefix {
        Some(s.skip(prefix.len() as int))
    } else {
        None
    }
}

/// The text behind a prefix, where a text starts with it.
pub fn strip_prefix(s: &str, prefix: &str) -> (r: Option<String>)
    ensures
        opt_string(r) == behind(s@, prefix@),
{
    let chars = to_chars(s);
    let head = to_chars(prefix);
    let n = head.len();
    if n > chars.len() {
        return None;
    }
    let mut i: usize = 0;
    while i < n
        invariant
            i <= n,
            n == head@.len(),
            n <= chars@.len(),
            chars@ == s@,
            head@ == prefix@,
            forall|j: int| 0 <= j < i ==> chars@[j] == head@[j],
        decreases n - i,
    {
        if chars[i] != head[i] {
            proof {
                assert(chars@.take(n as int)[i as int] != head@[i as int]);
            }
            return None;
        }
        i = i + 1;
    }
    let rest = vstd::slice::slice_subrange(chars.as_slice(), n, chars.len());
    proof {
        assert(chars@.take(n as int) =~= head@);
        assert(rest@ =~= chars@.skip(n as int));
    }
    Some(from_chars(rest))
}

/// Whether a text holds another, in one piece.
pub open spec fn holds(s: Seq<char>, part: Seq<char>) -> bool {
    exists|i: int|
        0 <= i && i + part.len() <= s.len() && #[trigger] s.subrange(i, i + part.len()) == part
}

/// Whether a text holds another, in one piece.
pub fn contains(s: &str, part: &str) -> (r: bool)
    ensures
        r == holds(s@, part@),
{
    let chars = to_chars(s);
    let wanted = to_chars(part);
    let n = wanted.len();
    if n > chars.len() {
        return false;
    }
    let last: usize = chars.len() - n;
    let mut i: usize = 0;
    loop
        invariant
            i <= last,
            last == chars@.len() - n,
            last + n <= usize::MAX,
            n == wanted@.len(),
            chars@ == s@,
            wanted@ == part@,
            forall|j: int| 0 <= j < i ==> #[trigger] s@.subrange(j, j + n) != part@,
        decreases last - i,
    {
        let mut k: usize = 0;
        while k < n && chars[i + k] == wanted[k]
            invariant
                k <= n,
                i <= last,
                last == chars@.len() - n,
                n == wanted@.len(),
                last + n <= usize::MAX,
                forall|j: int| 0 <= j < k ==> chars@[i + j] == #[trigger] wanted@[j],
            decreases n - k,
        {
            k = k + 1;
        }
        if k == n {
            proof {
                assert(s@.subrange(i as int, i + n) =~= part@);
            }
            return true;
        }
        proof {
            assert(s@.subrange(i as int, i + n)[k as int] != part@[k as int]);
        }
        if i == last {
            return false;
        }
        i = i + 1;
    }
}

/// A text with every occurrence of a part replaced, from the front on.
pub open spec fn replaced(s: Seq<char>, part: Seq<char>, by: Seq<char>) -> Seq<char>
    decreases s.len(),
{
    if part.len() == 0 || s.len() < part.len() {
        s
    } else if s.take(part.len() as int) == part {
        by + replaced(s.skip(part.len() as int), part, by)
    } else {
        seq![s[0]] + replaced(s.skip(1), part, by)
    }
}

/// Whether a part stands at a place of a text.
fn stands_at(chars: &[char], part: &[char], at: usize) -> (r: bool)
    requires
        at + part@.len() <= chars@.len(),
    ensures
        r == (chars@.skip(at as int).take(part@.len() as int) == part@),
{
    let n = part.len();
    let m = chars.len();
    let ghost here = chars@.skip(at as int).take(n as int);
    let mut k: usize = 0;
    while k < n
        invariant
            k <= n,
            n == part@.len(),
            m == chars@.len(),
            at + n <= m,
            here == chars@.skip(at as int).take(n as int),
            forall|j: int| 0 <= j < k ==> here[j] == #[trigger] part@[j],
        decreases n - k,
    {
        if chars[at + k] != part[k] {
            assert(here[k as int] != part@[k as int]);
            return false;
        }
        k = k + 1;
    }
    assert(here =~= part@);
    true
}

/// Replaces every occurrence of a part of a text.
pub fn replace_all(s: &str, part: &str, by: &str) -> (r: String)
    ensures
        r@ == replaced(s@, part@, by@),
{
    let chars = to_chars(s);
    let wanted = to_chars(part);
    let n = wanted.len();
    let m = chars.len();
    let mut out = String::new();
    if n == 0 {
        return owned(s);
    }
    let mut i: usize = 0;
    proof {
        assert(s@.skip(0) =~= s@);
        assert(out@ + replaced(s@, part@, by@) =~= replaced(s@, part@, by@));
    }
    while i < m && n <= m - i
        invariant
            i <= m,
            m == chars@.len(),
            n == wanted@.len(),
            0 < n,
            chars@ == s@,
            wanted@ == part@,
            replaced(s@, part@, by@) == out@ + replaced(s@.skip(i as int), part@, by@),
        decreases m - i,
    {
        let ghost before = out@;
        let ghost rest = s@.skip(i as int);
        if stands_at(chars.as_slice(), wanted.as_slice(), i) {
            out.append(by);
            i = i + n;
            proof {
                assert(rest.skip(n as int) =~= s@.skip(i as int));
                assert(before + (by@ + replaced(s@.skip(i as int), part@, by@)) =~= out@ + replaced(
                    s@.skip(i as int),
                    part@,
                    by@,
                ));
            }
        } else {
            out.push(chars[i]);
            i = i + 1;
            proof {
                assert(rest.skip(1) =~= s@.skip(i as int));
                assert(before + (seq![rest[0]] + replaced(s@.skip(i as int), part@, by@)) =~= out@
                    + replaced(s@.skip(i as int), part@, by@));
            }
        }
    }
    let tail = vstd::slice::slice_subrange(chars.as_slice(), i, m);
    let rest = from_chars(tail);
    proof {
        assert(tail@ =~= s@.skip(i as int));
    }
    out.append(rest.as_str());
    out
}

/// Replacing goes from the front: up to the first place where the part stands
/// the text stays, there the other text is put in, and it goes on behind it. A
/// text without the part stays as it is.
pub proof fn law_first_place_is_replaced(s: Seq<char>, part: Seq<char>, by: Seq<char>, k: int)
    requires
        part.len() > 0,
        0 <= k <= s.len(),
        forall|i: int|
            0 <= i < k && i + part.len() <= s.len() ==> #[trigger] s.subrange(i, i + part.len())
                != part,
    ensures
        k + part.len() <= s.len() && s.subrange(k, k + part.len()) == part ==> replaced(s, part, by)
            == s.take(k) + by + replaced(s.skip(k + part.len()), part, by),
        k + part.len() > s.len() ==> replaced(s, part, by) == s,
    decreases s.len(),
{
    let n = part.len() as int;
    if s.len() < n {
    } else if k == 0 {
        assert(s.subrange(0, n) =~= s.take(n));
        assert(s.take(0) + by =~= by);
    } else {
        assert(s.subrange(0, 0 + n) != part);
        assert(s.subrange(0, n) =~= s.take(n));
        let t = s.skip(1);
        assert forall|i: int| 0 <= i < k - 1 && i + n <= t.len() implies #[trigger] t.subrange(
            i,
            i + n,
        ) != part by {
            assert(s.subrange(i + 1, i + 1 + n) != part);
            assert(t.subrange(i, i + n) =~= s.subrange(i + 1, i + 1 + n));
        }
        law_first_place_is_replaced(t, part, by, k - 1);
        if k + n <= s.len() && s.subrange(k, k + n) == part {
            assert(t.subrange(k - 1, k - 1 + n) =~= s.subrange(k, k + n));
            assert(t.skip(k - 1 + n) =~= s.skip(k + n));
            assert(seq![s[0]] + (t.take(k - 1) + by + replaced(t.skip(k - 1 + n), part, by))
                =~= s.take(k) + by + replaced(s.skip(k + n), part, by));
        }
        if k + n > s.len() {
            assert(seq![s[0]] + t =~= s);
        }
    }
}

/// Pieces written one after the other with a character between them.
pub open spec fn joined_by(pieces: Seq<Seq<char>>, c: char) -> Seq<char>
    decreases pieces.len(),
{
    if pieces.len() == 0 {
        seq![]
    } else if pieces.len() == 1 {
        pieces[0]
    } else {
        pieces[0] + seq![c] + joined_by(pieces.drop_first(), c)
    }
}

/// The pieces of a text hold no separator, and with one between each of them
/// they are the text.
pub proof fn law_pieces_are_what_lies_between(s: Seq<char>, c: char)
    ensures
        split_on(s, c).len() > 0,
        joined_by(split_on(s, c), c) == s,
        forall|i: int| 0 <= i < split_on(s, c).len() ==> !(#[trigger] split_on(s, c)[i]).contains(c),
    decreases s.len(),
{
    let k = index_of_char(s, c);
    lemma_index_of_char(s, c);
    let all = split_on(s, c);
    if k >= s.len() {
        assert(all =~= seq![s]);
    } else {
        let rest = split_on(s.skip(k + 1), c);
        law_pieces_are_what_lies_between(s.skip(k + 1), c);
        assert(all.drop_first() =~= rest);
        assert(s.take(k) + seq![c] + s.skip(k + 1) =~= s);
        assert forall|i: int| 0 <= i < all.len() implies !(#[trigger] all[i]).contains(c) by {
            if i > 0 {
                assert(all[i] == rest[i - 1]);
            }
        }
    }
}

proof fn lemma_trim_start(s: Seq<char>)
    ensures
        trim_start(s).len() <= s.len(),
        s.skip(s.len() - trim_start(s).len()) == trim_start(s),
        forall|i: int| 0 <= i < s.len() - trim_start(s).len() ==> is_space(#[trigger] s[i]),
        trim_start(s).len() > 0 ==> !is_space(trim_start(s)[0]),
    decreases s.len(),
{
    if s.len() > 0 && is_space(s[0]) {
        let d = s.drop_first();
        lemma_trim_start(d);
        let n = s.len() - trim_start(s).len();
        assert(s.skip(n) =~= d.skip(n - 1));
        assert forall|i: int| 0 <= i < n implies is_space(#[trigger] s[i]) by {
            if i > 0 {
                assert(s[i] == d[i - 1]);
            }
        }
    } else {
        assert(s.skip(0) =~= s);
    }
}

proof fn lemma_trim_end(s: Seq<char>)
    ensures
        trim_end(s).len() <= s.len(),
        s.take(trim_end(s).len() as int) == trim_end(s),
        forall|i: int| trim_end(s).len() <= i < s.len() ==> is_space(#[trigger] s[i]),
        trim_end(s).len() > 0 ==> !is_space(trim_end(s).last()),
    decreases s.len(),
{
    if s.len() > 0 && is_space(s.last()) {
        let d = s.drop_last();
        lemma_trim_end(d);
        let n = trim_end(s).len() as int;
        assert(s.take(n) =~= d.take(n));
        assert forall|i: int| n <= i < s.len() implies is_space(#[trigger] s[i]) by {
            if i < d.len() {
                assert(s[i] == d[i]);
            }
        }
    } else {
        assert(s.take(s.len() as int) =~= s);
    }
}

/// Trimming takes spaces off both ends and nothing else.
pub proof fn law_trim_takes_spaces_off_the_ends(s: Seq<char>)
    ensures
        ({
            let t = trimmed(s);
            let from = s.len() - trim_start(s).len();
            &&& 0 <= from && from + t.len() <= s.len()
            &&& s.subrange(from, from + t.len()) == t
            &&& forall|i: int|
                0 <= i < from || from + t.len() <= i < s.len() ==> is_space(#[trigger] s[i])
            &&& t.len() > 0 ==> !is_space(t[0]) && !is_space(t.last())
        }),
{
    let m = trim_start(s);
    let t = trimmed(s);
    let from = s.len() - m.len();
    lemma_trim_start(s);
    lemma_trim_end(m);
    assert(s.subrange(from, from + t.len()) =~= t);
    assert forall|i: int| 0 <= i < from || from + t.len() <= i < s.len() implies is_space(
        #[trigger] s[i],
    ) by {
        if i >= from {
            assert(s[i] == m[i - from]);
        }
    }
    if t.len() > 0 {
        assert(t[0] == m[0]);
    }
}

/// In lower case no capital is left, and every other character is as it was.
pub proof fn law_lower_case_changes_capitals_alone(s: Seq<char>, i: int)
    requires
        0 <= i < s.len(),
    ensures
        lower_text(s).len() == s.len(),
        !('A' <= lower_text(s)[i] <= 'Z'),
        !('A' <= s[i] <= 'Z') ==> lower_text(s)[i] == s[i],
        'A' <= s[i] <= 'Z' ==> lower_text(s)[i] as int - 'a' as int == s[i] as int - 'A' as int,
{
}

} // verus!
