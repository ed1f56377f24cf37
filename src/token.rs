//! Signed, time-bound session tokens.
//!
//! A token is `P.S` where the payload `P` is the issue time and the expiry time
//! (seconds, each as 16 lowercase hex digits, most significant first) followed
//! by the subject's address, and `S` is the HMAC-SHA256 tag of `P` under the
//! issuer's secret, as 64 lowercase hex digits.

use hmac::Mac;
use vstd::prelude::*;
use crate::domain::{is_valid_email, Email};

verus! {

/// The HMAC-SHA256 tag of the UTF-8 bytes of `msg` under `key`.
pub uninterp spec fn hmac_sha256(key: Seq<u8>, msg: Seq<char>) -> Seq<u8>;

/// Relies on `hmac::Hmac<sha2::Sha256>` (hmac 0.12, sha2 0.10): the tag depends on
/// the key and the message alone and has 32 bytes; `new_from_slice` accepts a
/// key of any length.
#[verifier::external_body]
fn sign(key: &Vec<u8>, msg: &str) -> (r: Vec<u8>)
    ensures
        r@ == hmac_sha256(key@, msg@),
        r@.len() == 32,
{
    let mut mac = hmac::Hmac::<sha2::Sha256>::new_from_slice(key.as_slice()).expect(
        "HMAC takes keys of any length",
    );
    mac.update(msg.as_bytes());
    mac.finalize().into_bytes().to_vec()
}

/// Relies on `hmac::Mac::verify_slice` for `hmac::Hmac<sha2::Sha256>`: it
/// succeeds exactly when `tag` is the HMAC-SHA256 tag of `msg` under `key`,
/// comparing in constant time.
#[verifier::external_body]
fn tag_matches(key: &Vec<u8>, msg: &str, tag: &Vec<u8>) -> (r: bool)
    ensures
        r == (tag@ == hmac_sha256(key@, msg@)),
{
    let mut mac = hmac::Hmac::<sha2::Sha256>::new_from_slice(key.as_slice()).expect(
        "HMAC takes keys of any length",
    );
    mac.update(msg.as_bytes());
    mac.verify_slice(tag.as_slice()).is_ok()
}

/// Number of hex digits of each timestamp.
pub const STAMP_DIGITS: usize = 16;

/// Number of hex digits of the signature.
pub const SIGNATURE_DIGITS: usize = 64;

pub open spec fn hex_digits() -> Seq<char> {
    seq!['0', '1', '2', '3', '4', '5', '6', '7', '8', '9', 'a', 'b', 'c', 'd', 'e', 'f']
}

/// The value of a lowercase hex digit, or -1.
pub open spec fn digit_value(c: char) -> int {
    if '0' <= c && c <= '9' {
        c as int - '0' as int
    } else if 'a' <= c && c <= 'f' {
        c as int - 'a' as int + 10
    } else {
        -1
    }
}

pub open spec fn is_hex(s: Seq<char>) -> bool {
    forall|i: int| 0 <= i < s.len() ==> digit_value(#[trigger] s[i]) >= 0
}

/// The last `k` hex digits of `n`, most significant first.
pub open spec fn hex_of_nat(n: nat, k: nat) -> Seq<char>
    decreases k,
{
    if k == 0 {
        Seq::empty()
    } else {
        hex_of_nat(n / 16, (k - 1) as nat).push(hex_digits()[(n % 16) as int])
    }
}

/// The number that the hex digits of `s` spell.
pub open spec fn hex_value(s: Seq<char>) -> nat
    decreases s.len(),
{
    if s.len() == 0 {
        0
    } else {
        hex_value(s.drop_last()) * 16 + digit_value(s.last()) as nat
    }
}

/// Two hex digits per byte.
pub open spec fn hex_of_bytes(b: Seq<u8>) -> Seq<char>
    decreases b.len(),
{
    if b.len() == 0 {
        Seq::empty()
    } else {
        hex_of_bytes(b.drop_last()) + seq![
            hex_digits()[(b.last() / 16) as int],
            hex_digits()[(b.last() % 16) as int],
        ]
    }
}

/// The bytes that pairs of hex digits spell.
pub open spec fn bytes_of_hex(s: Seq<char>) -> Seq<u8>
    decreases s.len(),
{
    if s.len() < 2 {
        Seq::empty()
    } else {
        bytes_of_hex(s.subrange(0, s.len() - 2)).push(
            (digit_value(s[s.len() - 2]) * 16 + digit_value(s[s.len() - 1])) as u8,
        )
    }
}

pub open spec fn pow16(k: nat) -> nat
    decreases k,
{
    if k == 0 {
        1
    } else {
        16 * pow16((k - 1) as nat)
    }
}

proof fn lemma_digit_values()
    ensures
        forall|d: int| 0 <= d < 16 ==> digit_value(#[trigger] hex_digits()[d]) == d,
{
    assert forall|d: int| 0 <= d < 16 implies digit_value(#[trigger] hex_digits()[d]) == d by {
        assert(digit_value('a') == 10);
        assert(digit_value('f') == 15);
    }
}

proof fn lemma_pow16_stamp()
    ensures
        pow16(STAMP_DIGITS as nat) == 0x1_0000_0000_0000_0000,
{
    reveal_with_fuel(pow16, 17);
}

proof fn lemma_hex_of_nat(n: nat, k: nat)
    requires
        n < pow16(k),
    ensures
        hex_of_nat(n, k).len() == k,
        is_hex(hex_of_nat(n, k)),
        hex_value(hex_of_nat(n, k)) == n,
    decreases k,
{
    lemma_digit_values();
    if k > 0 {
        let p = pow16((k - 1) as nat);
        assert(n / 16 < p) by (nonlinear_arith)
            requires
                n < 16 * p,
        ;
        lemma_hex_of_nat(n / 16, (k - 1) as nat);
        let s = hex_of_nat(n, k);
        assert(s.drop_last() =~= hex_of_nat(n / 16, (k - 1) as nat));
        assert(digit_value(hex_digits()[(n % 16) as int]) == n % 16);
    }
}

proof fn lemma_hex_value_bound(s: Seq<char>)
    requires
        is_hex(s),
    ensures
        hex_value(s) < pow16(s.len()),
    decreases s.len(),
{
    if s.len() > 0 {
        let t = s.drop_last();
        assert(is_hex(t)) by {
            assert forall|i: int| 0 <= i < t.len() implies digit_value(#[trigger] t[i]) >= 0 by {
                assert(t[i] == s[i]);
            }
        }
        lemma_hex_value_bound(t);
        let v = hex_value(t);
        let p = pow16(t.len());
        let d = digit_value(s.last());
        assert(0 <= d < 16);
        assert(v * 16 + d < 16 * p) by (nonlinear_arith)
            requires
                v < p,
                0 <= d < 16,
        ;
    }
}

proof fn lemma_hex_of_bytes(b: Seq<u8>)
    ensures
        hex_of_bytes(b).len() == 2 * b.len(),
        is_hex(hex_of_bytes(b)),
        bytes_of_hex(hex_of_bytes(b)) == b,
    decreases b.len(),
{
    lemma_digit_values();
    if b.len() > 0 {
        let rest = b.drop_last();
        lemma_hex_of_bytes(rest);
        let s = hex_of_bytes(b);
        let x = b.last();
        assert(s.subrange(0, s.len() - 2) =~= hex_of_bytes(rest));
        assert(digit_value(s[s.len() - 2]) == x / 16);
        assert(digit_value(s[s.len() - 1]) == x % 16);
        assert(is_hex(s)) by {
            assert forall|i: int| 0 <= i < s.len() implies digit_value(#[trigger] s[i]) >= 0 by {
                if i < s.len() - 2 {
                    assert(s[i] == hex_of_bytes(rest)[i]);
                }
            }
        }
        assert(bytes_of_hex(s) =~= b);
    }
}

/// The payload that is signed.
pub open spec fn payload_of(subject: Seq<char>, issued_at: nat, expires_at: nat) -> Seq<char> {
    hex_of_nat(issued_at, STAMP_DIGITS as nat) + hex_of_nat(expires_at, STAMP_DIGITS as nat)
        + subject
}

/// The token issued for `subject` under `key`.
pub open spec fn token_of(key: Seq<u8>, subject: Seq<char>, issued_at: nat, expires_at: nat) -> Seq<
    char,
> {
    let p = payload_of(subject, issued_at, expires_at);
    p + seq!['.'] + hex_of_bytes(hmac_sha256(key, p))
}

/// Where the signature starts, as seen from the end of a token.
pub open spec fn tail_len() -> int {
    SIGNATURE_DIGITS as int + 1
}

/// `t` has the layout of a token: two stamps, a subject, `.` and a signature
/// of hex digits.
pub open spec fn is_well_formed(t: Seq<char>) -> bool {
    &&& t.len() >= 2 * STAMP_DIGITS + tail_len()
    &&& is_hex(t.subrange(0, 2 * STAMP_DIGITS as int))
    &&& t[t.len() - tail_len()] == '.'
    &&& is_hex(token_signature(t))
    &&& is_valid_email(token_subject(t))
}

pub open spec fn token_payload(t: Seq<char>) -> Seq<char> {
    t.subrange(0, t.len() - tail_len())
}

pub open spec fn token_signature(t: Seq<char>) -> Seq<char> {
    t.subrange(t.len() - SIGNATURE_DIGITS as int, t.len() as int)
}

pub open spec fn token_issued_at(t: Seq<char>) -> nat {
    hex_value(t.subrange(0, STAMP_DIGITS as int))
}

pub open spec fn token_expires_at(t: Seq<char>) -> nat {
    hex_value(t.subrange(STAMP_DIGITS as int, 2 * STAMP_DIGITS as int))
}

pub open spec fn token_subject(t: Seq<char>) -> Seq<char> {
    t.subrange(2 * STAMP_DIGITS as int, t.len() - tail_len())
}

/// The signature of `t` spells the tag of its payload under `key`.
pub open spec fn is_signed_by(t: Seq<char>, key: Seq<u8>) -> bool {
    bytes_of_hex(token_signature(t)) == hmac_sha256(key, token_payload(t))
}

/// Why a token is refused.
#[derive(Debug, Clone, Copy, PartialEq, Eq, Structural)]
pub enum TokenError {
    Malformed,
    BadSignature,
    Expired,
    UnexpectedError,
}

/// What `verify` answers for `t` at time `now`.
pub open spec fn verdict(key: Seq<u8>, t: Seq<char>, now: nat) -> Result<Seq<char>, TokenError> {
    if !is_well_formed(t) {
        Err(TokenError::Malformed)
    } else if !is_signed_by(t, key) {
        Err(TokenError::BadSignature)
    } else if now >= token_expires_at(t) {
        Err(TokenError::Expired)
    } else {
        Ok(token_subject(t))
    }
}

proof fn lemma_pow16_mono(a: nat, b: nat)
    requires
        a <= b,
    ensures
        pow16(a) <= pow16(b),
    decreases b,
{
    if a < b {
        lemma_pow16_mono(a, (b - 1) as nat);
    }
}

/// The one-character string of hex digit `d`.
pub(crate) fn hex_digit(d: u8) -> (r: &'static str)
    requires
        d < 16,
    ensures
        r@ == seq![hex_digits()[d as int]],
{
    let digits = "0123456789abcdef";
    proof {
        reveal_strlit("0123456789abcdef");
        assert(digits@ =~= hex_digits());
    }
    let r = digits.substring_char(d as usize, d as usize + 1);
    assert(r@ =~= seq![hex_digits()[d as int]]);
    r
}

fn hex_of_u64(n: u64, k: usize) -> (r: String)
    ensures
        r@ == hex_of_nat(n as nat, k as nat),
    decreases k,
{
    if k == 0 {
        String::new()
    } else {
        let mut s = hex_of_u64(n / 16, k - 1);
        s.append(hex_digit((n % 16) as u8));
        assert(s@ =~= hex_of_nat(n as nat, k as nat));
        s
    }
}

fn hex_of_byte_vec(b: &Vec<u8>) -> (r: String)
    ensures
        r@ == hex_of_bytes(b@),
{
    let mut s = String::new();
    let mut i: usize = 0;
    assert(b@.subrange(0, 0) =~= Seq::<u8>::empty());
    while i < b.len()
        invariant
            i <= b@.len(),
            s@ == hex_of_bytes(b@.subrange(0, i as int)),
        decreases b@.len() - i,
    {
        let x = b[i];
        s.append(hex_digit(x / 16));
        s.append(hex_digit(x % 16));
        proof {
            let next = b@.subrange(0, i + 1);
            assert(next.drop_last() =~= b@.subrange(0, i as int));
            assert(s@ =~= hex_of_bytes(next));
        }
        i = i + 1;
    }
    assert(b@.subrange(0, b@.len() as int) =~= b@);
    s
}

fn is_hex_char(c: char) -> (r: bool)
    ensures
        r == (digit_value(c) >= 0),
{
    ('0' <= c && c <= '9') || ('a' <= c && c <= 'f')
}

fn hex_char_value(c: char) -> (r: u64)
    requires
        digit_value(c) >= 0,
    ensures
        r == digit_value(c),
{
    if '0' <= c && c <= '9' {
        (c as u32 - '0' as u32) as u64
    } else {
        (c as u32 - 'a' as u32 + 10) as u64
    }
}

/// Reads `SIGNATURE_DIGITS` hex digits from `from` as bytes, or `None` where
/// one of them is no hex digit.
fn read_signature(t: &str, from: usize) -> (r: Option<Vec<u8>>)
    requires
        from + SIGNATURE_DIGITS <= t@.len(),
        from + SIGNATURE_DIGITS <= usize::MAX,
    ensures
        match r {
            Some(b) => is_hex(t@.subrange(from as int, from + SIGNATURE_DIGITS)) && b@ == bytes_of_hex(
                t@.subrange(from as int, from + SIGNATURE_DIGITS),
            ),
            None => !is_hex(t@.subrange(from as int, from + SIGNATURE_DIGITS)),
        },
{
    let ghost whole = t@.subrange(from as int, from + SIGNATURE_DIGITS);
    let mut bytes: Vec<u8> = Vec::new();
    let mut i: usize = 0;
    assert(whole.subrange(0, 0) =~= Seq::<char>::empty());
    while i < SIGNATURE_DIGITS
        invariant
            from + SIGNATURE_DIGITS <= t@.len(),
            from + SIGNATURE_DIGITS <= usize::MAX,
            whole == t@.subrange(from as int, from + SIGNATURE_DIGITS),
            i <= SIGNATURE_DIGITS,
            i % 2 == 0,
            forall|j: int| 0 <= j < i ==> digit_value(#[trigger] whole[j]) >= 0,
            bytes@ == bytes_of_hex(whole.subrange(0, i as int)),
        decreases SIGNATURE_DIGITS - i,
    {
        let hi = t.get_char(from + i);
        let lo = t.get_char(from + i + 1);
        assert(hi == whole[i as int] && lo == whole[i + 1]);
        if !is_hex_char(hi) || !is_hex_char(lo) {
            return None;
        }
        let value = hex_char_value(hi) * 16 + hex_char_value(lo);
        let ghost before = bytes@;
        bytes.push(value as u8);
        proof {
            let next = whole.subrange(0, i + 2);
            assert(next.subrange(0, next.len() - 2) =~= whole.subrange(0, i as int));
            assert(next[next.len() - 2] == hi && next[next.len() - 1] == lo);
            assert(bytes@ =~= bytes_of_hex(next));
        }
        i = i + 2;
    }
    assert(whole.subrange(0, SIGNATURE_DIGITS as int) =~= whole);
    Some(bytes)
}

/// Reads the timestamp of `STAMP_DIGITS` hex digits at `from`.
fn parse_stamp(t: &str, from: usize) -> (r: u64)
    requires
        from + STAMP_DIGITS <= t@.len(),
        from + STAMP_DIGITS <= usize::MAX,
        is_hex(t@.subrange(from as int, from + STAMP_DIGITS)),
    ensures
        r == hex_value(t@.subrange(from as int, from + STAMP_DIGITS)),
{
    let ghost whole = t@.subrange(from as int, from + STAMP_DIGITS);
    let mut v: u64 = 0;
    let mut i: usize = 0;
    assert(whole.subrange(0, 0) =~= Seq::<char>::empty());
    while i < STAMP_DIGITS
        invariant
            from + STAMP_DIGITS <= t@.len(),
            from + STAMP_DIGITS <= usize::MAX,
            whole == t@.subrange(from as int, from + STAMP_DIGITS),
            is_hex(whole),
            i <= STAMP_DIGITS,
            v == hex_value(whole.subrange(0, i as int)),
        decreases STAMP_DIGITS - i,
    {
        let c = t.get_char(from + i);
        assert(c == whole[i as int]);
        let d = hex_char_value(c);
        proof {
            let next = whole.subrange(0, i + 1);
            assert(next.drop_last() =~= whole.subrange(0, i as int));
            assert(is_hex(next)) by {
                assert forall|j: int| 0 <= j < next.len() implies digit_value(#[trigger] next[j]) >= 0 by {
                    assert(next[j] == whole[j]);
                }
            }
            lemma_hex_value_bound(next);
            lemma_pow16_mono(next.len(), STAMP_DIGITS as nat);
            lemma_pow16_stamp();
        }
        v = v * 16 + d;
        i = i + 1;
    }
    assert(whole.subrange(0, STAMP_DIGITS as int) =~= whole);
    v
}

/// Lifetime of a session token, in seconds.
pub const TOKEN_TTL_SECONDS: u64 = 600;

/// Issues and checks session tokens with one process-wide secret.
pub struct TokenIssuer {
    secret: Vec<u8>,
    ttl_seconds: u64,
}

impl TokenIssuer {
    #[verifier::type_invariant]
    closed spec fn inv(&self) -> bool {
        self.ttl_seconds > 0
    }

    pub closed spec fn secret(&self) -> Seq<u8> {
        self.secret@
    }

    pub closed spec fn ttl(&self) -> nat {
        self.ttl_seconds as nat
    }

    /// An issuer that signs with `secret` and issues tokens that last
    /// `ttl_seconds` seconds.
    pub fn new(secret: Vec<u8>, ttl_seconds: u64) -> (r: TokenIssuer)
        requires
            ttl_seconds > 0,
        ensures
            r.secret() == secret@,
            r.ttl() == ttl_seconds,
    {
        TokenIssuer { secret, ttl_seconds }
    }

    /// A token for `email`, issued at `now` and expiring `ttl` seconds later.
    /// Fails only where the expiry time does not fit in a `u64`. Verifying the
    /// token before it expires gives `email` back.
    pub fn issue(&self, email: &Email, now: u64) -> (r: Result<String, TokenError>)
        ensures
            self.ttl() > 0,
            r matches Ok(t) ==> verdict(self.secret(), t@, now as nat) == Ok::<Seq<char>, TokenError>(
                email@,
            ),
            r is Ok <==> now + self.ttl() <= u64::MAX,
            r matches Err(e) ==> e == TokenError::UnexpectedError,
            r matches Ok(t) ==> t@ == token_of(self.secret(), email@, now as nat, (now + self.ttl()) as nat),
            r matches Ok(t) ==> forall|later: nat|
                now <= later < now + self.ttl() ==> #[trigger] verdict(self.secret(), t@, later)
                    == Ok::<Seq<char>, TokenError>(email@),
    {
        proof {
            use_type_invariant(self);
        }
        let expires_at = match now.checked_add(self.ttl_seconds) {
            Some(x) => x,
            None => return Err(TokenError::UnexpectedError),
        };
        let subject = email.as_str();
        let mut payload = hex_of_u64(now, STAMP_DIGITS);
        payload.append(hex_of_u64(expires_at, STAMP_DIGITS).as_str());
        payload.append(subject);
        let tag = sign(&self.secret, payload.as_str());
        let mut token = payload.clone();
        let dot = ".";
        proof {
            reveal_strlit(".");
        }
        token.append(dot);
        token.append(hex_of_byte_vec(&tag).as_str());
        proof {
            let p = payload_of(email@, now as nat, expires_at as nat);
            assert(payload@ =~= p);
            assert(token@ =~= token_of(self.secret(), email@, now as nat, expires_at as nat));
            lemma_token_parts(self.secret(), email@, now, expires_at);
        }
        Ok(token)
    }

    /// What `token` proves at time `now`: its subject, or why it is refused
    /// (layout or subject, then signature, then expiry).
    pub fn verify(&self, token: &str, now: u64) -> (r: Result<Email, TokenError>)
        ensures
            match r {
                Ok(e) => verdict(self.secret(), token@, now as nat) == Ok::<Seq<char>, TokenError>(e@),
                Err(x) => verdict(self.secret(), token@, now as nat) == Err::<Seq<char>, TokenError>(x),
            },
    {
        let n = token.unicode_len();
        if n < 2 * STAMP_DIGITS + SIGNATURE_DIGITS + 1 {
            return Err(TokenError::Malformed);
        }
        let ghost stamps = token@.subrange(0, 2 * STAMP_DIGITS as int);
        let mut i: usize = 0;
        while i < 2 * STAMP_DIGITS
            invariant
                n == token@.len(),
                n >= 2 * STAMP_DIGITS,
                stamps == token@.subrange(0, 2 * STAMP_DIGITS as int),
                i <= 2 * STAMP_DIGITS,
                forall|j: int| 0 <= j < i ==> digit_value(#[trigger] stamps[j]) >= 0,
            decreases 2 * STAMP_DIGITS - i,
        {
            if !is_hex_char(token.get_char(i)) {
                assert(stamps[i as int] == token@[i as int]);
                return Err(TokenError::Malformed);
            }
            assert(stamps[i as int] == token@[i as int]);
            i = i + 1;
        }
        if token.get_char(n - SIGNATURE_DIGITS - 1) != '.' {
            return Err(TokenError::Malformed);
        }
        let tag = match read_signature(token, n - SIGNATURE_DIGITS) {
            Some(b) => b,
            None => return Err(TokenError::Malformed),
        };
        let subject = token.substring_char(2 * STAMP_DIGITS, n - SIGNATURE_DIGITS - 1);
        let email = match Email::parse(String::from_str(subject)) {
            Ok(e) => e,
            Err(_) => return Err(TokenError::Malformed),
        };
        let payload = token.substring_char(0, n - SIGNATURE_DIGITS - 1);
        if !tag_matches(&self.secret, payload, &tag) {
            return Err(TokenError::BadSignature);
        }
        proof {
            assert(token@.subrange(0, 2 * STAMP_DIGITS as int).subrange(
                STAMP_DIGITS as int,
                2 * STAMP_DIGITS as int,
            ) =~= token@.subrange(STAMP_DIGITS as int, 2 * STAMP_DIGITS as int));
            assert forall|j: int| 0 <= j < STAMP_DIGITS implies digit_value(
                #[trigger] token@.subrange(STAMP_DIGITS as int, 2 * STAMP_DIGITS as int)[j],
            ) >= 0 by {
                assert(token@.subrange(STAMP_DIGITS as int, 2 * STAMP_DIGITS as int)[j]
                    == stamps[j + STAMP_DIGITS]);
            }
        }
        let expires_at = parse_stamp(token, STAMP_DIGITS);
        if now >= expires_at {
            return Err(TokenError::Expired);
        }
        Ok(email)
    }
}

/// A token round-trips: its parts read back as they were written.
pub proof fn lemma_token_parts(key: Seq<u8>, subject: Seq<char>, issued_at: u64, expires_at: u64)
    requires
        hmac_sha256(key, payload_of(subject, issued_at as nat, expires_at as nat)).len() == 32,
    ensures
        ({
            let t = token_of(key, subject, issued_at as nat, expires_at as nat);
            &&& t.len() >= 2 * STAMP_DIGITS + tail_len()
            &&& is_hex(t.subrange(0, 2 * STAMP_DIGITS as int))
            &&& t[t.len() - tail_len()] == '.'
            &&& is_hex(token_signature(t))
            &&& token_subject(t) == subject
            &&& token_payload(t) == payload_of(subject, issued_at as nat, expires_at as nat)
            &&& is_signed_by(t, key)
            &&& token_issued_at(t) == issued_at
            &&& token_expires_at(t) == expires_at
        }),
{
    lemma_pow16_stamp();
    lemma_hex_of_nat(issued_at as nat, STAMP_DIGITS as nat);
    lemma_hex_of_nat(expires_at as nat, STAMP_DIGITS as nat);
    let a = hex_of_nat(issued_at as nat, STAMP_DIGITS as nat);
    let b = hex_of_nat(expires_at as nat, STAMP_DIGITS as nat);
    let p = payload_of(subject, issued_at as nat, expires_at as nat);
    let sig = hex_of_bytes(hmac_sha256(key, p));
    let t = token_of(key, subject, issued_at as nat, expires_at as nat);
    lemma_hex_of_bytes(hmac_sha256(key, p));
    assert(t.subrange(0, STAMP_DIGITS as int) =~= a);
    assert(t.subrange(STAMP_DIGITS as int, 2 * STAMP_DIGITS as int) =~= b);
    assert(t.subrange(0, 2 * STAMP_DIGITS as int) =~= a + b);
    assert(token_subject(t) =~= subject);
    assert(token_payload(t) =~= p);
    assert(token_signature(t) =~= sig);
    assert forall|i: int| 0 <= i < 2 * STAMP_DIGITS implies digit_value(
        #[trigger] t.subrange(0, 2 * STAMP_DIGITS as int)[i],
    ) >= 0 by {
        if i < STAMP_DIGITS {
            assert(t.subrange(0, 2 * STAMP_DIGITS as int)[i] == a[i]);
        } else {
            assert(t.subrange(0, 2 * STAMP_DIGITS as int)[i] == b[i - STAMP_DIGITS]);
        }
    }
}

} // verus!
