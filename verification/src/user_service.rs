//! Who a caller is: signing keys, session tokens, passwords and API keys.
use crate::counter_shard;
use crate::counter_shard::owner_shard_for_user_id;
use crate::text;
use hmac::Mac;
use vstd::prelude::*;
use vstd::utf8::*;

verus! {

/// The signing key of local runs, known to everybody.
pub const DEV_JWT_SECRET: &'static str = "exchange_jwt_secret_change_in_prod";

/// The shortest signing key accepted, in bytes.
pub const MIN_JWT_SECRET_LEN: usize = 32;

/// How far a client's clock may be off, in seconds.
pub const API_SIGNATURE_WINDOW_SECS: i64 = 30;

/// How long a session lasts where nothing else is set: seven days.
pub const DEFAULT_ACCESS_TTL_SECS: i64 = 604_800;

/// The last second that a date can name.
pub const MAX_DATE_SECS: i64 = 8_210_266_876_799;

/// Why there is no usable signing key.
#[derive(Debug, Clone, Copy, PartialEq, Eq, Structural)]
pub enum SecretError {
    /// A key of this many bytes.
    TooShort(usize),
    MissingInProduction,
}

impl SecretError {
    pub open spec fn text(self) -> Seq<char> {
        match self {
            SecretError::TooShort(n) => "EXCHANGE_JWT_SECRET is too short ("@ + text::nat_text(
                n as nat,
            ) + " bytes, need >= 32)"@,
            SecretError::MissingInProduction =>
                "EXCHANGE_ENV=production requires EXCHANGE_JWT_SECRET (>= 32 bytes)"@,
        }
    }

    pub fn message(self) -> (r: String)
        ensures
            r@ == self.text(),
    {
        let mut out = String::new();
        match self {
            SecretError::TooShort(n) => {
                out.append("EXCHANGE_JWT_SECRET is too short (");
                text::append_nat(&mut out, n as u128);
                out.append(" bytes, need >= 32)");
            },
            SecretError::MissingInProduction => {
                out.append("EXCHANGE_ENV=production requires EXCHANGE_JWT_SECRET (>= 32 bytes)");
            },
        }
        proof {
            assert(out@ =~= self.text());
        }
        out
    }
}

fn bytes_of(s: &str) -> (r: Vec<u8>)
    ensures
        r@ == encode_utf8(s@),
{
    let bytes = s.as_bytes();
    let mut out: Vec<u8> = Vec::new();
    let mut i: usize = 0;
    while i < bytes.len()
        invariant
            i <= bytes@.len(),
            out@ == bytes@.take(i as int),
        decreases bytes@.len() - i,
    {
        out.push(bytes[i]);
        proof {
            assert(out@ =~= bytes@.take(i + 1));
        }
        i = i + 1;
    }
    proof {
        assert(bytes@.take(i as int) =~= bytes@);
    }
    out
}

/// The signing key: the one configured, where it is long enough; the public one
/// only where none is configured outside production.
pub open spec fn resolved_secret(configured: Option<Seq<char>>, profile: Option<Seq<char>>) -> Result<
    Seq<u8>,
    SecretError,
> {
    match configured {
        Some(s) => {
            let bytes = encode_utf8(s);
            if bytes.len() >= MIN_JWT_SECRET_LEN {
                Ok(bytes)
            } else {
                Err(SecretError::TooShort(bytes.len() as usize))
            }
        },
        None => if profile == Some("production"@) {
            Err(SecretError::MissingInProduction)
        } else {
            Ok(encode_utf8(DEV_JWT_SECRET@))
        },
    }
}

pub open spec fn bytes_result(r: Result<Vec<u8>, SecretError>) -> Result<Seq<u8>, SecretError> {
    match r {
        Ok(b) => Ok(b@),
        Err(e) => Err(e),
    }
}

pub fn resolve_jwt_secret(env_secret: Option<String>, env_profile: Option<String>) -> (r: Result<
    Vec<u8>,
    SecretError,
>)
    ensures
        bytes_result(r) == resolved_secret(text::opt_string(env_secret), text::opt_string(env_profile)),
{
    match env_secret {
        Some(s) => {
            let bytes = bytes_of(s.as_str());
            if bytes.len() >= MIN_JWT_SECRET_LEN {
                Ok(bytes)
            } else {
                Err(SecretError::TooShort(bytes.len()))
            }
        },
        None => {
            let production = match &env_profile {
                Some(p) => text::str_eq(p.as_str(), "production"),
                None => false,
            };
            if production {
                Err(SecretError::MissingInProduction)
            } else {
                Ok(bytes_of(DEV_JWT_SECRET))
            }
        },
    }
}

/// Production never signs with the public key: it signs with a configured key
/// of at least the shortest length, or not at all.
pub proof fn law_production_needs_its_own_key(configured: Option<Seq<char>>)
    ensures
        match resolved_secret(configured, Some("production"@)) {
            Ok(key) => configured is Some && key == encode_utf8(configured->0) && key.len()
                >= MIN_JWT_SECRET_LEN,
            Err(_) => configured is None || encode_utf8(configured->0).len() < MIN_JWT_SECRET_LEN,
        },
{
}

/// How long a session lasts, by setting; what is no positive number counts as
/// not set.
pub open spec fn access_ttl(setting: Option<Seq<char>>) -> i64 {
    match setting {
        Some(s) => match text::i64_value(s) {
            Some(v) if v > 0 => v,
            _ => DEFAULT_ACCESS_TTL_SECS,
        },
        None => DEFAULT_ACCESS_TTL_SECS,
    }
}

pub fn access_ttl_secs(setting: Option<&str>) -> (r: i64)
    ensures
        r == access_ttl(text::opt_str(setting)),
        r > 0,
{
    match setting {
        Some(s) => match text::parse_i64(s) {
            Some(v) => if v > 0 {
                v
            } else {
                DEFAULT_ACCESS_TTL_SECS
            },
            None => DEFAULT_ACCESS_TTL_SECS,
        },
        None => DEFAULT_ACCESS_TTL_SECS,
    }
}

/// Why a caller is turned away.
#[derive(Debug, Clone, Copy, PartialEq, Eq, Structural)]
pub enum AuthError {
    InvalidTimestamp,
    OutsideWindow,
    InvalidEncoding,
    SignatureMismatch,
    InvalidApiKey,
    SignedAuthRequired,
    NoSigningSecret,
    InvalidCredentials,
    InvalidToken,
    TokenNotMade,
    PasswordNotHashed,
}

impl AuthError {
    pub open spec fn text(self) -> Seq<char> {
        match self {
            AuthError::InvalidTimestamp => "invalid timestamp"@,
            AuthError::OutsideWindow => "timestamp outside allowed window"@,
            AuthError::InvalidEncoding => "invalid signature encoding"@,
            AuthError::SignatureMismatch => "signature mismatch"@,
            AuthError::InvalidApiKey => "Invalid API key"@,
            AuthError::SignedAuthRequired => "API key requires signed authentication"@,
            AuthError::NoSigningSecret => "API key has no signing secret"@,
            AuthError::InvalidCredentials => "Invalid email or password"@,
            AuthError::InvalidToken => "Invalid token"@,
            AuthError::TokenNotMade => "Token encode error"@,
            AuthError::PasswordNotHashed => "Hash error"@,
        }
    }

    pub fn message(self) -> (r: &'static str)
        ensures
            r@ == self.text(),
    {
        match self {
            AuthError::InvalidTimestamp => "invalid timestamp",
            AuthError::OutsideWindow => "timestamp outside allowed window",
            AuthError::InvalidEncoding => "invalid signature encoding",
            AuthError::SignatureMismatch => "signature mismatch",
            AuthError::InvalidApiKey => "Invalid API key",
            AuthError::SignedAuthRequired => "API key requires signed authentication",
            AuthError::NoSigningSecret => "API key has no signing secret",
            AuthError::InvalidCredentials => "Invalid email or password",
            AuthError::InvalidToken => "Invalid token",
            AuthError::TokenNotMade => "Token encode error",
            AuthError::PasswordNotHashed => "Hash error",
        }
    }
}

/// The HMAC-SHA256 of a message under a key.
pub uninterp spec fn hmac_sha256(key: Seq<u8>, message: Seq<u8>) -> Seq<u8>;

/// Calls `hmac::Hmac::<sha2::Sha256>`: a fresh state for the key, which may have
/// any length, fed with the message. The result is named, and is 32 bytes long.
#[verifier::external_body]
fn mac_bytes(key: &[u8], message: &[u8]) -> (r: Vec<u8>)
    ensures
        r@ == hmac_sha256(key@, message@),
        r@.len() == 32,
{
    let mut mac = hmac::Hmac::<sha2::Sha256>::new_from_slice(key).expect("any key length");
    mac.update(message);
    mac.finalize().into_bytes().to_vec()
}

/// Calls `hmac::Mac::verify_slice`, which takes the same time wherever the tags
/// differ: a tag is accepted exactly where it is the whole HMAC of the message,
/// which is 32 bytes long.
#[verifier::external_body]
fn mac_matches(key: &[u8], message: &[u8], tag: &[u8]) -> (r: bool)
    ensures
        r == (tag@ == hmac_sha256(key@, message@)),
        r ==> tag@.len() == 32,
{
    let mut mac = hmac::Hmac::<sha2::Sha256>::new_from_slice(key).expect("any key length");
    mac.update(message);
    mac.verify_slice(tag).is_ok()
}

/// The hexadecimal digit of a number below sixteen.
pub open spec fn hex_char(v: int) -> char {
    if v < 10 {
        (v + '0' as int) as char
    } else {
        (v - 10 + 'a' as int) as char
    }
}

/// Bytes in lower-case hexadecimal.
pub open spec fn hex_text(bytes: Seq<u8>) -> Seq<char>
    decreases bytes.len(),
{
    if bytes.len() == 0 {
        seq![]
    } else {
        let b = bytes.last() as int;
        hex_text(bytes.drop_last()).push(hex_char(b / 16)).push(hex_char(b % 16))
    }
}

fn hex_digit(v: u8) -> (r: char)
    requires
        v < 16,
    ensures
        r == hex_char(v as int),
{
    if v < 10 {
        (v + 48) as char
    } else {
        (v - 10 + 97) as char
    }
}

/// Bytes in lower-case hexadecimal.
pub fn encode_hex(bytes: &[u8]) -> (r: String)
    ensures
        r@ == hex_text(bytes@),
{
    let mut out = String::new();
    let mut i: usize = 0;
    proof {
        assert(bytes@.take(0) =~= seq![]);
        assert(out@ =~= seq![]);
    }
    while i < bytes.len()
        invariant
            i <= bytes@.len(),
            out@ == hex_text(bytes@.take(i as int)),
        decreases bytes@.len() - i,
    {
        proof {
            assert(bytes@.take(i + 1).drop_last() =~= bytes@.take(i as int));
            assert(bytes@.take(i + 1).last() == bytes@[i as int]);
        }
        out.push(hex_digit(bytes[i] / 16));
        out.push(hex_digit(bytes[i] % 16));
        i = i + 1;
    }
    proof {
        assert(bytes@.take(i as int) =~= bytes@);
    }
    out
}

/// The signature of a timestamp, in hexadecimal.
pub fn compute_api_signature(secret: &str, timestamp: &str) -> (r: String)
    ensures
        r@ == hex_text(hmac_sha256(encode_utf8(secret@), encode_utf8(timestamp@))),
        r@.len() == 64,
{
    let mac = mac_bytes(secret.as_bytes(), timestamp.as_bytes());
    proof {
        lemma_hex_is_ascii(mac@);
    }
    encode_hex(mac.as_slice())
}

/// The value of a hexadecimal digit.
pub open spec fn hex_value(b: u8) -> Option<int> {
    if '0' as int <= b <= '9' as int {
        Some(b - '0' as int)
    } else if 'a' as int <= b <= 'f' as int {
        Some(b - 'a' as int + 10)
    } else if 'A' as int <= b <= 'F' as int {
        Some(b - 'A' as int + 10)
    } else {
        None
    }
}

/// The byte that two characters stand for: two digits, or a plus sign and one.
pub open spec fn hex_pair(a: u8, b: u8) -> Option<u8> {
    match (hex_value(a), hex_value(b)) {
        (Some(x), Some(y)) => Some((16 * x + y) as u8),
        (None, Some(y)) => if a == '+' as u8 {
            Some(y as u8)
        } else {
            None
        },
        _ => None,
    }
}

/// The bytes that a hexadecimal text stands for.
pub open spec fn hex_bytes(s: Seq<u8>) -> Option<Seq<u8>>
    decreases s.len(),
{
    if s.len() == 0 {
        Some(seq![])
    } else if s.len() == 1 {
        None
    } else {
        let n = s.len() as int;
        match (hex_bytes(s.take(n - 2)), hex_pair(s[n - 2], s[n - 1])) {
            (Some(rest), Some(b)) => Some(rest.push(b)),
            _ => None,
        }
    }
}

pub open spec fn byte_option(r: Option<Vec<u8>>) -> Option<Seq<u8>> {
    match r {
        Some(v) => Some(v@),
        None => None,
    }
}

fn nibble(b: u8) -> (r: Option<u8>)
    ensures
        (match r {
            Some(v) => Some(v as int),
            None => None,
        }) == hex_value(b),
        r matches Some(v) ==> v < 16,
{
    if 48 <= b && b <= 57 {
        Some(b - 48)
    } else if 97 <= b && b <= 102 {
        Some(b - 97 + 10)
    } else if 65 <= b && b <= 70 {
        Some(b - 65 + 10)
    } else {
        None
    }
}

fn decode_pair(a: u8, b: u8) -> (r: Option<u8>)
    ensures
        r == hex_pair(a, b),
{
    let low = match nibble(b) {
        Some(v) => v,
        None => {
            return None;
        },
    };
    match nibble(a) {
        Some(high) => Some(high * 16 + low),
        None => if a == 43 {
            Some(low)
        } else {
            None
        },
    }
}

/// A text that stands for no bytes has no longer text that does.
proof fn lemma_hex_prefix(s: Seq<u8>, k: int)
    requires
        0 <= k <= s.len(),
        (s.len() - k) % 2 == 0,
        hex_bytes(s.take(k)) is None,
    ensures
        hex_bytes(s) is None,
    decreases s.len(),
{
    if k < s.len() {
        let n = s.len() as int;
        assert(s.take(n - 2).take(k) =~= s.take(k));
        lemma_hex_prefix(s.take(n - 2), k);
    } else {
        assert(s.take(k) =~= s);
    }
}

proof fn lemma_odd_hex(s: Seq<u8>)
    requires
        s.len() % 2 == 1,
    ensures
        hex_bytes(s) is None,
    decreases s.len(),
{
    if s.len() > 1 {
        lemma_odd_hex(s.take(s.len() - 2));
    }
}

pub fn decode_hex(s: &str) -> (r: Option<Vec<u8>>)
    ensures
        byte_option(r) == hex_bytes(encode_utf8(s@)),
{
    let bytes = s.as_bytes();
    if bytes.len() % 2 != 0 {
        proof {
            lemma_odd_hex(bytes@);
        }
        return None;
    }
    let mut out: Vec<u8> = Vec::new();
    let mut i: usize = 0;
    proof {
        assert(bytes@.take(0) =~= seq![]);
        assert(out@ =~= seq![]);
    }
    while i < bytes.len()
        invariant
            i <= bytes@.len(),
            i % 2 == 0,
            bytes@.len() % 2 == 0,
            bytes@ == encode_utf8(s@),
            hex_bytes(bytes@.take(i as int)) == Some(out@),
        decreases bytes@.len() - i,
    {
        proof {
            let part = bytes@.take(i + 2);
            assert(part.take(i as int) =~= bytes@.take(i as int));
            assert(part[i as int] == bytes@[i as int]);
            assert(part[i + 1] == bytes@[i + 1]);
        }
        match decode_pair(bytes[i], bytes[i + 1]) {
            Some(b) => {
                out.push(b);
            },
            None => {
                proof {
                    lemma_hex_prefix(bytes@, i + 2);
                }
                return None;
            },
        }
        i = i + 2;
    }
    proof {
        assert(bytes@.take(i as int) =~= bytes@);
    }
    Some(out)
}

/// Hexadecimal is read back as it was written.
pub proof fn law_hex_round_trip(bytes: Seq<u8>)
    ensures
        hex_bytes(encode_utf8(hex_text(bytes))) == Some(bytes),
    decreases bytes.len(),
{
    let s = hex_text(bytes);
    lemma_hex_is_ascii(bytes);
    vstd::utf8::is_ascii_chars_encode_utf8(s);
    let e = encode_utf8(s);
    if bytes.len() == 0 {
        assert(e =~= seq![]);
        assert(bytes =~= seq![]);
    } else {
        let d = bytes.drop_last();
        let b = bytes.last() as int;
        let n = s.len() as int;
        law_hex_round_trip(d);
        lemma_hex_is_ascii(d);
        vstd::utf8::is_ascii_chars_encode_utf8(hex_text(d));
        assert(s.take(n - 2) =~= hex_text(d));
        assert(e.take(n - 2) =~= encode_utf8(hex_text(d))) by {
            assert forall|i: int| 0 <= i < n - 2 implies e[i] == encode_utf8(hex_text(d))[i] by {
                assert(s[i] == hex_text(d)[i]);
            }
        }
        assert(e[n - 2] == hex_char(b / 16) as u8);
        assert(e[n - 1] == hex_char(b % 16) as u8);
        lemma_hex_char(b / 16);
        lemma_hex_char(b % 16);
        assert(d.push(bytes.last()) =~= bytes);
    }
}

proof fn lemma_hex_char(v: int)
    requires
        0 <= v < 16,
    ensures
        hex_value(hex_char(v) as u8) == Some(v),
        '\0' <= hex_char(v) <= '\u{7f}',
{
}

proof fn lemma_hex_is_ascii(bytes: Seq<u8>)
    ensures
        vstd::utf8::is_ascii_chars(hex_text(bytes)),
        hex_text(bytes).len() == 2 * bytes.len(),
    decreases bytes.len(),
{
    if bytes.len() > 0 {
        let d = bytes.drop_last();
        let b = bytes.last() as int;
        let s = hex_text(bytes);
        lemma_hex_is_ascii(d);
        lemma_hex_char(b / 16);
        lemma_hex_char(b % 16);
        assert forall|i: int| 0 <= i < s.len() implies '\0' <= #[trigger] s[i] <= '\u{7f}' by {
            if i < s.len() - 2 {
                assert(s[i] == hex_text(d)[i]);
            }
        }
    }
}

/// The bytes of a signature that came in time; nothing is said yet of whether
/// it is the right one.
pub open spec fn timely_signature(timestamp: Seq<char>, signature_hex: Seq<char>, now: i64) -> Result<
    Seq<u8>,
    AuthError,
> {
    match text::i64_value(timestamp) {
        None => Err(AuthError::InvalidTimestamp),
        Some(ts) => if now - ts > API_SIGNATURE_WINDOW_SECS || ts - now
            > API_SIGNATURE_WINDOW_SECS {
            Err(AuthError::OutsideWindow)
        } else {
            match hex_bytes(encode_utf8(signature_hex)) {
                Some(sig) => Ok(sig),
                None => Err(AuthError::InvalidEncoding),
            }
        },
    }
}

pub open spec fn signature_result(r: Result<Vec<u8>, AuthError>) -> Result<Seq<u8>, AuthError> {
    match r {
        Ok(v) => Ok(v@),
        Err(e) => Err(e),
    }
}

/// Checks that a signature came in time and reads its bytes.
pub fn read_signature(timestamp: &str, signature_hex: &str, now_unix: i64) -> (r: Result<
    Vec<u8>,
    AuthError,
>)
    ensures
        signature_result(r) == timely_signature(timestamp@, signature_hex@, now_unix),
{
    let ts = match text::parse_i64(timestamp) {
        Some(v) => v,
        None => {
            return Err(AuthError::InvalidTimestamp);
        },
    };
    let skew = now_unix as i128 - ts as i128;
    if skew > 30 || skew < -30 {
        return Err(AuthError::OutsideWindow);
    }
    match decode_hex(signature_hex) {
        Some(sig) => Ok(sig),
        None => Err(AuthError::InvalidEncoding),
    }
}

/// The verdict on a signature that came in time, by whether it is the right one.
pub fn signature_verdict(matches: bool) -> (r: Result<(), AuthError>)
    ensures
        r == (if matches {
            Ok(())
        } else {
            Err(AuthError::SignatureMismatch)
        }),
{
    if matches {
        Ok(())
    } else {
        Err(AuthError::SignatureMismatch)
    }
}

/// Whether a signed timestamp is accepted.
pub open spec fn signature_check(
    secret: Seq<char>,
    timestamp: Seq<char>,
    signature_hex: Seq<char>,
    now: i64,
) -> Result<(), AuthError> {
    match timely_signature(timestamp, signature_hex, now) {
        Err(e) => Err(e),
        Ok(sig) => if sig == hmac_sha256(encode_utf8(secret), encode_utf8(timestamp)) {
            Ok(())
        } else {
            Err(AuthError::SignatureMismatch)
        },
    }
}

/// Checks a signed timestamp.
pub fn check_api_signature(secret: &str, timestamp: &str, signature_hex: &str, now_unix: i64) -> (r:
    Result<(), AuthError>)
    ensures
        r == signature_check(secret@, timestamp@, signature_hex@, now_unix),
        r is Ok ==> encode_utf8(signature_hex@).len() == 64,
        signature_hex@.len() == 0 ==> r is Err,
{
    match read_signature(timestamp, signature_hex, now_unix) {
        Ok(sig) => {
            proof {
                lemma_hex_length(encode_utf8(signature_hex@));
                if signature_hex@.len() == 0 {
                    assert(encode_utf8(signature_hex@).len() == 0);
                }
            }
            signature_verdict(mac_matches(secret.as_bytes(), timestamp.as_bytes(), sig.as_slice()))
        },
        Err(e) => Err(e),
    }
}

/// A readable signature has two digits to the byte.
proof fn lemma_hex_length(s: Seq<u8>)
    ensures
        hex_bytes(s) matches Some(b) ==> s.len() == 2 * b.len(),
    decreases s.len(),
{
    if s.len() > 1 {
        lemma_hex_length(s.take(s.len() - 2));
    }
}

/// A signature is accepted exactly where the timestamp is a number within the
/// window of now and the signature reads as the bytes of the timestamp's HMAC.
/// One of odd length, or with a character that is neither a digit nor a plus
/// sign, reads as none.
pub proof fn law_only_the_right_signature_is_accepted(
    secret: Seq<char>,
    timestamp: Seq<char>,
    signature_hex: Seq<char>,
    now: i64,
)
    ensures
        signature_check(secret, timestamp, signature_hex, now) is Ok <==> {
            &&& text::i64_value(timestamp) matches Some(ts)
            &&& -API_SIGNATURE_WINDOW_SECS <= now - ts <= API_SIGNATURE_WINDOW_SECS
            &&& hex_bytes(encode_utf8(signature_hex)) == Some(
                hmac_sha256(encode_utf8(secret), encode_utf8(timestamp)),
            )
        },
        encode_utf8(signature_hex).len() % 2 == 1 ==> signature_check(
            secret,
            timestamp,
            signature_hex,
            now,
        ) is Err,
        (exists|i: int|
            0 <= i < encode_utf8(signature_hex).len() && !hex_byte(
                #[trigger] encode_utf8(signature_hex)[i],
            )) ==> signature_check(secret, timestamp, signature_hex, now) is Err,
{
    let s = encode_utf8(signature_hex);
    lemma_hex_length(s);
    lemma_hex_digits(s);
}

/// What may stand in a hexadecimal text: a digit, or the sign before one.
pub open spec fn hex_byte(b: u8) -> bool {
    hex_value(b) is Some || b == '+' as u8
}

proof fn lemma_hex_digits(s: Seq<u8>)
    ensures
        hex_bytes(s) is Some ==> forall|i: int|
            0 <= i < s.len() ==> hex_byte(#[trigger] s[i]),
    decreases s.len(),
{
    if s.len() > 1 {
        let n = s.len() as int;
        lemma_hex_digits(s.take(n - 2));
        assert forall|i: int| hex_bytes(s) is Some && 0 <= i < n implies hex_byte(
            #[trigger] s[i],
        ) by {
            assert(hex_bytes(s.take(n - 2)) is Some);
            assert(hex_pair(s[n - 2], s[n - 1]) is Some);
            if i < n - 2 {
                assert(s.take(n - 2)[i] == s[i]);
                assert(hex_byte(s.take(n - 2)[i]));
            }
        }
    }
}

/// A signature made with the same secret is accepted where the timestamp is a
/// number within the window, and nowhere else.
pub proof fn law_own_signature_is_accepted(secret: Seq<char>, timestamp: Seq<char>, now: i64)
    ensures
        ({
            let mine = hex_text(hmac_sha256(encode_utf8(secret), encode_utf8(timestamp)));
            signature_check(secret, timestamp, mine, now) == (match text::i64_value(timestamp) {
                None => Err::<(), AuthError>(AuthError::InvalidTimestamp),
                Some(ts) => if -API_SIGNATURE_WINDOW_SECS <= now - ts <= API_SIGNATURE_WINDOW_SECS {
                    Ok(())
                } else {
                    Err(AuthError::OutsideWindow)
                },
            })
        }),
{
    law_hex_round_trip(hmac_sha256(encode_utf8(secret), encode_utf8(timestamp)));
}

/// A stored API key: its user, and its signing secret where it has one.
#[derive(Debug)]
pub struct ApiKeyRow {
    pub user_id: i64,
    pub secret: Option<String>,
}

/// The user of a bare API key; a key with a secret is not accepted bare.
pub open spec fn bare_key_user(row: Option<ApiKeyRow>) -> Result<i64, AuthError> {
    match row {
        None => Err(AuthError::InvalidApiKey),
        Some(k) => match k.secret {
            Some(_) => Err(AuthError::SignedAuthRequired),
            None => Ok(k.user_id),
        },
    }
}

pub fn verify_api_key(row: &Option<ApiKeyRow>) -> (r: Result<i64, AuthError>)
    ensures
        r == bare_key_user(*row),
{
    match row {
        None => Err(AuthError::InvalidApiKey),
        Some(k) => match &k.secret {
            Some(_) => Err(AuthError::SignedAuthRequired),
            None => Ok(k.user_id),
        },
    }
}

/// The user of a signed API key.
pub open spec fn signed_key_user(
    row: Option<ApiKeyRow>,
    timestamp: Seq<char>,
    signature_hex: Seq<char>,
    now: i64,
) -> Result<i64, AuthError> {
    match row {
        None => Err(AuthError::InvalidApiKey),
        Some(k) => match k.secret {
            None => Err(AuthError::NoSigningSecret),
            Some(secret) => match signature_check(secret@, timestamp, signature_hex, now) {
                Ok(_) => Ok(k.user_id),
                Err(e) => Err(e),
            },
        },
    }
}

pub fn verify_api_key_signed(
    row: &Option<ApiKeyRow>,
    timestamp: &str,
    signature_hex: &str,
    now_unix: i64,
) -> (r: Result<i64, AuthError>)
    ensures
        r == signed_key_user(*row, timestamp@, signature_hex@, now_unix),
{
    match row {
        None => Err(AuthError::InvalidApiKey),
        Some(k) => match &k.secret {
            None => Err(AuthError::NoSigningSecret),
            Some(secret) => match check_api_signature(
                secret.as_str(),
                timestamp,
                signature_hex,
                now_unix,
            ) {
                Ok(_) => Ok(k.user_id),
                Err(e) => Err(e),
            },
        },
    }
}

/// Exactly one way of authentication is open for a key: bare where it has no
/// secret, signed where it has one.
pub proof fn law_secret_decides_the_way(
    row: ApiKeyRow,
    timestamp: Seq<char>,
    signature_hex: Seq<char>,
    now: i64,
)
    ensures
        bare_key_user(Some(row)) is Ok ==> signed_key_user(
            Some(row),
            timestamp,
            signature_hex,
            now,
        ) is Err,
        bare_key_user(Some(row)) is Ok <==> row.secret is None,
{
}

/// The error of a token that could not be made or read.
#[verifier::external_type_specification]
#[verifier::external_body]
pub struct ExTokenError(jsonwebtoken::errors::Error);

/// The error of a password hash.
#[verifier::external_type_specification]
#[verifier::external_body]
pub struct ExHashError(bcrypt::BcryptError);

/// A session token over its claims and the signing key, where one can be made.
pub uninterp spec fn token_text(sub: i64, email: Seq<char>, exp: u64, secret: Seq<u8>) -> Option<
    Seq<char>,
>;

/// What a token says under a key, whenever it is read: nothing where it is not
/// signed with that key.
pub uninterp spec fn token_claims(token: Seq<char>, secret: Seq<u8>) -> Option<
    (Option<i64>, Option<Seq<char>>, Option<u64>),
>;

/// Calls `jsonwebtoken::encode` with the default header and the three claims.
/// The result is named: it is a function of the claims and the key. Under the
/// same key it says what it was made of.
#[verifier::external_body]
fn encode_claims(sub: i64, email: &str, exp: u64, secret: &[u8]) -> (r: Result<
    String,
    jsonwebtoken::errors::Error,
>)
    ensures
        (match r {
            Ok(t) => Some(t@),
            Err(_) => None,
        }) == token_text(sub, email@, exp, secret@),
        r matches Ok(t) ==> token_claims(t@, secret@) == Some((Some(sub), Some(email@), Some(exp))),
{
    let mut claims = serde_json::Map::new();
    claims.insert("sub".to_owned(), sub.into());
    claims.insert("email".to_owned(), email.into());
    claims.insert("exp".to_owned(), exp.into());
    jsonwebtoken::encode(
        &jsonwebtoken::Header::default(),
        &serde_json::Value::Object(claims),
        &jsonwebtoken::EncodingKey::from_secret(secret),
    )
}

/// Calls `jsonwebtoken::decode` with the default validation, which checks the
/// signature and, by the clock, the expiry. Whether it succeeds depends on the
/// clock and is left open; what it reads does not, and is named.
#[verifier::external_body]
fn decode_claims(token: &str, secret: &[u8]) -> (r: Result<
    (Option<i64>, Option<String>, Option<u64>),
    jsonwebtoken::errors::Error,
>)
    ensures
        r matches Ok(c) ==> token_claims(token@, secret@) == Some(
            (c.0, text::opt_string(c.1), c.2),
        ),
{
    jsonwebtoken::decode::<serde_json::Value>(
        token,
        &jsonwebtoken::DecodingKey::from_secret(secret),
        &jsonwebtoken::Validation::default(),
    ).map(
        |d|
            (
                d.claims["sub"].as_i64(),
                d.claims["email"].as_str().map(|s| s.to_owned()),
                d.claims["exp"].as_u64(),
            ),
    )
}

/// What a password check against a stored hash says, where the hash is readable.
pub uninterp spec fn password_check(password: Seq<char>, hash: Seq<char>) -> Option<bool>;

/// Calls `bcrypt::hash` at the default cost. The salt is drawn at random, so the
/// result is not named; what it yields accepts the password.
#[verifier::external_body]
fn bcrypt_hash(password: &str) -> (r: Result<String, bcrypt::BcryptError>)
    ensures
        match r {
            Ok(h) => password_check(password@, h@) == Some(true),
            Err(_) => true,
        },
{
    bcrypt::hash(password, bcrypt::DEFAULT_COST)
}

/// Calls `bcrypt::verify`. The result is named: it is a function of the password
/// and the hash.
#[verifier::external_body]
fn bcrypt_verify(password: &str, hash: &str) -> (r: Result<bool, bcrypt::BcryptError>)
    ensures
        (match r {
            Ok(b) => Some(b),
            Err(_) => None,
        }) == password_check(password@, hash@),
{
    bcrypt::verify(password, hash)
}

/// What a session token says.
#[derive(Debug)]
pub struct Claims {
    /// The user.
    pub sub: i64,
    pub email: String,
    /// The second at which the token expires.
    pub exp: u64,
}

/// What a token read says, where all three claims are there.
pub open spec fn claims_in(sub: Option<i64>, email: Option<Seq<char>>, exp: Option<u64>) -> Result<
    (i64, Seq<char>, u64),
    AuthError,
> {
    match (sub, email, exp) {
        (Some(s), Some(e), Some(x)) => Ok((s, e, x)),
        _ => Err(AuthError::InvalidToken),
    }
}

pub open spec fn claims_result(r: Result<Claims, AuthError>) -> Result<
    (i64, Seq<char>, u64),
    AuthError,
> {
    match r {
        Ok(c) => Ok((c.sub, c.email@, c.exp)),
        Err(e) => Err(e),
    }
}

/// The claims of a token that was read.
pub fn assemble_claims(sub: Option<i64>, email: Option<String>, exp: Option<u64>) -> (r: Result<
    Claims,
    AuthError,
>)
    ensures
        claims_result(r) == claims_in(sub, text::opt_string(email), exp),
{
    match (sub, email, exp) {
        (Some(sub), Some(email), Some(exp)) => Ok(Claims { sub, email, exp }),
        _ => Err(AuthError::InvalidToken),
    }
}

/// Reads a session token: what it says, where it is signed with the key and
/// has not expired. Whether it has depends on the clock.
pub fn verify_token(token: &str, secret: &[u8]) -> (r: Result<Claims, AuthError>)
    ensures
        r is Err ==> r == Err::<Claims, AuthError>(AuthError::InvalidToken),
        r is Ok ==> (token_claims(token@, secret@) matches Some(c) && claims_result(r)
            == claims_in(c.0, c.1, c.2)),
{
    match decode_claims(token, secret) {
        Ok((sub, email, exp)) => assemble_claims(sub, email, exp),
        Err(_) => Err(AuthError::InvalidToken),
    }
}

/// The token made for a user, expiring a session's length from now.
pub open spec fn made_token(user_id: i64, email: Seq<char>, secret: Seq<u8>, now: i64, ttl: i64) -> Result<
    Seq<char>,
    AuthError,
> {
    match token_text(user_id, email, (now + ttl) as u64, secret) {
        Some(t) => Ok(t),
        None => Err(AuthError::TokenNotMade),
    }
}

pub open spec fn token_result(r: Result<String, AuthError>) -> Result<Seq<char>, AuthError> {
    match r {
        Ok(t) => Ok(t@),
        Err(e) => Err(e),
    }
}

/// The second at which a session that starts now expires.
pub fn session_expiry(now: i64, ttl_secs: i64) -> (r: u64)
    requires
        0 <= now,
        0 < ttl_secs,
        now + ttl_secs <= MAX_DATE_SECS,
    ensures
        r == now + ttl_secs,
{
    (now + ttl_secs) as u64
}

/// Makes a session token.
pub fn make_token(user_id: i64, email: &str, secret: &[u8], now: i64, ttl_secs: i64) -> (r: Result<
    String,
    AuthError,
>)
    requires
        0 <= now,
        0 < ttl_secs,
        now + ttl_secs <= MAX_DATE_SECS,
    ensures
        token_result(r) == made_token(user_id, email@, secret@, now, ttl_secs),
        r matches Ok(t) ==> token_claims(t@, secret@) == Some(
            (Some(user_id), Some(email@), Some((now + ttl_secs) as u64)),
        ),
{
    match encode_claims(user_id, email, session_expiry(now, ttl_secs), secret) {
        Ok(t) => Ok(t),
        Err(_) => Err(AuthError::TokenNotMade),
    }
}

/// Makes a new token for claims that were verified: same user, new expiry.
pub fn refresh_token(claims: &Claims, secret: &[u8], now: i64, ttl_secs: i64) -> (r: Result<
    String,
    AuthError,
>)
    requires
        0 <= now,
        0 < ttl_secs,
        now + ttl_secs <= MAX_DATE_SECS,
    ensures
        token_result(r) == made_token(claims.sub, claims.email@, secret@, now, ttl_secs),
{
    make_token(claims.sub, claims.email.as_str(), secret, now, ttl_secs)
}

/// What a caller gets on registering or logging in.
#[derive(Debug)]
pub struct AuthResponse {
    pub token: String,
    pub user_id: i64,
    pub counter_shard_id: u16,
}

/// The response to a user who was let in.
pub open spec fn welcome(user_id: i64, email: Seq<char>, secret: Seq<u8>, now: i64, ttl: i64) -> Result<
    (Seq<char>, i64, u16),
    AuthError,
> {
    match made_token(user_id, email, secret, now, ttl) {
        Ok(t) => Ok((t, user_id, counter_shard::owner_shard(user_id as int) as u16)),
        Err(e) => Err(e),
    }
}

pub open spec fn response_result(r: Result<AuthResponse, AuthError>) -> Result<
    (Seq<char>, i64, u16),
    AuthError,
> {
    match r {
        Ok(a) => Ok((a.token@, a.user_id, a.counter_shard_id)),
        Err(e) => Err(e),
    }
}

/// Lets a user in: a token and the shard that owns the user.
pub fn admit_user(user_id: i64, email: &str, secret: &[u8], now: i64, ttl_secs: i64) -> (r: Result<
    AuthResponse,
    AuthError,
>)
    requires
        0 <= now,
        0 < ttl_secs,
        now + ttl_secs <= MAX_DATE_SECS,
    ensures
        response_result(r) == welcome(user_id, email@, secret@, now, ttl_secs),
{
    match make_token(user_id, email, secret, now, ttl_secs) {
        Ok(token) => Ok(
            AuthResponse { token, user_id, counter_shard_id: owner_shard_for_user_id(user_id) },
        ),
        Err(e) => Err(e),
    }
}

/// Hashes a password for storing. The hash accepts the password.
pub fn hash_password(password: &str) -> (r: Result<String, AuthError>)
    ensures
        r matches Ok(h) ==> password_check(password@, h@) == Some(true),
        r is Err ==> r == Err::<String, AuthError>(AuthError::PasswordNotHashed),
{
    match bcrypt_hash(password) {
        Ok(h) => Ok(h),
        Err(_) => Err(AuthError::PasswordNotHashed),
    }
}

/// A stored user.
#[derive(Debug)]
pub struct StoredUser {
    pub id: i64,
    pub email: String,
    pub password_hash: String,
}

/// The verdict on a login by what the password check said.
pub fn login_verdict(check: Option<bool>) -> (r: Result<(), AuthError>)
    ensures
        r == (if check == Some(true) {
            Ok(())
        } else {
            Err(AuthError::InvalidCredentials)
        }),
{
    match check {
        Some(true) => Ok(()),
        _ => Err(AuthError::InvalidCredentials),
    }
}

/// Whether a password is that of a stored user.
pub open spec fn password_accepted(password: Seq<char>, hash: Seq<char>) -> bool {
    password_check(password, hash) == Some(true)
}

/// Tells whether a password is that of a stored user.
pub fn check_password(password: &str, hash: &str) -> (r: Result<(), AuthError>)
    ensures
        r == (if password_accepted(password@, hash@) {
            Ok::<(), AuthError>(())
        } else {
            Err::<(), AuthError>(AuthError::InvalidCredentials)
        }),
{
    let check = match bcrypt_verify(password, hash) {
        Ok(b) => Some(b),
        Err(_) => None,
    };
    login_verdict(check)
}

/// A request to register.
#[derive(Debug)]
pub struct RegisterRequest {
    pub email: String,
    pub password: String,
    pub full_name: Option<String>,
}

/// The row of a user who registers.
#[derive(Debug)]
pub struct NewUser {
    pub email: String,
    pub password_hash: String,
    pub full_name: Option<String>,
    pub registration_ip: Option<String>,
}

/// Whether a row is that of a user who registers so.
pub open spec fn row_of_registration(req: RegisterRequest, ip: Option<String>, row: NewUser) -> bool {
    &&& row.email@ == req.email@
    &&& password_accepted(req.password@, row.password_hash@)
    &&& text::opt_string(row.full_name) == text::opt_string(req.full_name)
    &&& text::opt_string(row.registration_ip) == text::opt_string(ip)
}

/// The row of a user who registers, by what hashing the password came to.
pub fn new_user(req: RegisterRequest, ip: Option<String>, hash: Result<String, AuthError>) -> (r:
    Result<NewUser, AuthError>)
    ensures
        match hash {
            Ok(h) => r matches Ok(u) && {
                &&& u.email@ == req.email@
                &&& u.password_hash@ == h@
                &&& text::opt_string(u.full_name) == text::opt_string(req.full_name)
                &&& text::opt_string(u.registration_ip) == text::opt_string(ip)
            },
            Err(e) => r == Err::<NewUser, AuthError>(e),
        },
{
    match hash {
        Ok(password_hash) => Ok(
            NewUser {
                email: req.email,
                password_hash,
                full_name: req.full_name,
                registration_ip: ip,
            },
        ),
        Err(e) => Err(e),
    }
}

/// Makes the row of a user who registers. The salt of a hash is drawn at
/// random; the hash accepts the password that was chosen.
pub fn register(req: RegisterRequest, ip: Option<String>) -> (r: Result<NewUser, AuthError>)
    ensures
        r matches Ok(u) ==> row_of_registration(req, ip, u),
        r matches Err(e) ==> e == AuthError::PasswordNotHashed,
{
    let hash = hash_password(req.password.as_str());
    new_user(req, ip, hash)
}

/// A request to log in.
#[derive(Debug)]
pub struct LoginRequest {
    pub email: String,
    pub password: String,
}

/// What a login with a password comes to, by the user stored under the address.
pub open spec fn login_outcome(
    found: Option<&StoredUser>,
    password: Seq<char>,
    secret: Seq<u8>,
    now: i64,
    ttl: i64,
) -> Result<(Seq<char>, i64, u16), AuthError> {
    match found {
        Some(u) if password_accepted(password, u.password_hash@) => welcome(
            u.id,
            u.email@,
            secret,
            now,
            ttl,
        ),
        _ => Err(AuthError::InvalidCredentials),
    }
}

/// Logs a user in: `found` is the user stored under the address. An unknown
/// user and a wrong password are told the same.
pub fn login(
    found: Option<&StoredUser>,
    req: &LoginRequest,
    secret: &[u8],
    now: i64,
    ttl_secs: i64,
) -> (r: Result<AuthResponse, AuthError>)
    requires
        0 <= now,
        0 < ttl_secs,
        now + ttl_secs <= MAX_DATE_SECS,
    ensures
        response_result(r) == login_outcome(found, req.password@, secret@, now, ttl_secs),
{
    match found {
        Some(u) => match check_password(req.password.as_str(), u.password_hash.as_str()) {
            Ok(_) => admit_user(u.id, u.email.as_str(), secret, now, ttl_secs),
            Err(e) => Err(e),
        },
        None => Err(AuthError::InvalidCredentials),
    }
}

/// The funds of a new user: asset and atoms.
pub fn signup_grants() -> (r: Vec<(&'static str, i64)>)
    ensures
        r@.len() == 2,
        r@[0].0@ == "USDT"@,
        r@[0].1 == 1_000_000_000_000,
        r@[1].0@ == "BTC"@,
        r@[1].1 == 100_000_000,
{
    let mut out: Vec<(&'static str, i64)> = Vec::new();
    out.push(("USDT", 1_000_000_000_000));
    out.push(("BTC", 100_000_000));
    out
}

/// A user who registered is let in with the password they chose, under the
/// address they gave.
pub proof fn law_registered_users_can_log_in(
    req: RegisterRequest,
    ip: Option<String>,
    row: NewUser,
    user: StoredUser,
    secret: Seq<u8>,
    now: i64,
    ttl: i64,
)
    requires
        row_of_registration(req, ip, row),
        user.email@ == row.email@,
        user.password_hash@ == row.password_hash@,
    ensures
        login_outcome(Some(&user), req.password@, secret, now, ttl) == welcome(
            user.id,
            req.email@,
            secret,
            now,
            ttl,
        ),
{
}

/// A session lasts as long as was set, where that is a positive number of
/// seconds, and a week otherwise.
pub proof fn law_session_lasts_as_set(seconds: i64, setting: Seq<char>)
    ensures
        seconds > 0 ==> access_ttl(Some(text::int_text(seconds as int))) == seconds,
        seconds <= 0 ==> access_ttl(Some(text::int_text(seconds as int))) == 7 * 24 * 3600,
        text::i64_value(setting) is None ==> access_ttl(Some(setting)) == 7 * 24 * 3600,
        access_ttl(None) == 7 * 24 * 3600,
{
    text::lemma_int_text(seconds);
}

/// A user is let in for the stored password and for no other; the answer names
/// that user.
pub proof fn law_login_needs_the_password(
    found: Option<&StoredUser>,
    password: Seq<char>,
    secret: Seq<u8>,
    now: i64,
    ttl: i64,
)
    ensures
        login_outcome(found, password, secret, now, ttl) is Ok ==> {
            &&& found matches Some(u)
            &&& password_check(password, u.password_hash@) == Some(true)
            &&& (login_outcome(found, password, secret, now, ttl)->Ok_0).1 == u.id
        },
        found is None ==> login_outcome(found, password, secret, now, ttl) == Err::<
            (Seq<char>, i64, u16),
            AuthError,
        >(AuthError::InvalidCredentials),
        found is Some && password_check(password, (found->0).password_hash@) != Some(true)
            ==> login_outcome(found, password, secret, now, ttl) == Err::<
            (Seq<char>, i64, u16),
            AuthError,
        >(AuthError::InvalidCredentials),
{
}

/// A request signed half a minute away from now, either side, is still timely;
/// a second further it is not.
pub proof fn law_window_is_half_a_minute(second: i64, signature: Seq<u8>, now: i64)
    ensures
        -30 <= now - second <= 30 ==> timely_signature(
            text::int_text(second as int),
            hex_text(signature),
            now,
        ) == Ok::<Seq<u8>, AuthError>(signature),
        !(-30 <= now - second <= 30) ==> timely_signature(
            text::int_text(second as int),
            hex_text(signature),
            now,
        ) == Err::<Seq<u8>, AuthError>(AuthError::OutsideWindow),
{
    text::lemma_int_text(second);
    law_hex_round_trip(signature);
}

/// A key without a signing secret is its owner's on sight; one with a secret is
/// its owner's only where the request is signed with it.
pub proof fn law_key_speaks_for_its_owner(
    row: ApiKeyRow,
    timestamp: Seq<char>,
    signature_hex: Seq<char>,
    now: i64,
)
    ensures
        row.secret is None ==> bare_key_user(Some(row)) == Ok::<i64, AuthError>(row.user_id),
        row.secret is Some ==> bare_key_user(Some(row)) is Err,
        signed_key_user(Some(row), timestamp, signature_hex, now) is Ok <==> row.secret is Some
            && signature_check((row.secret->0)@, timestamp, signature_hex, now) is Ok,
        signed_key_user(Some(row), timestamp, signature_hex, now) matches Ok(user) ==> user
            == row.user_id,
        bare_key_user(None) is Err,
        signed_key_user(None, timestamp, signature_hex, now) is Err,
{
}

} // verus!
