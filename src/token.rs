use vstd::prelude::*;
use vstd::utf8::{valid_utf8, decode_utf8, encode_utf8};
use crate::base64url::{encode, decode, encode_bytes, decode_bytes, lemma_decode_encode};
use crate::payload::{
    payload, parse_payload, find_byte, write_payload, read_payload, find_byte_exec, range_eq,
    lemma_parse_payload, lemma_find_byte,
};
use crate::base64url::digit;
use crate::role::Role;

verus! {

broadcast use vstd::utf8::encode_utf8_valid_utf8, vstd::utf8::encode_utf8_decode_utf8;

/// Seconds of validity given to every issued token.
pub const TOKEN_LIFETIME: u64 = 3600;

/// The HMAC-SHA256 tag of a message under a secret.
pub uninterp spec fn hmac_sha256_of(secret: Seq<u8>, message: Seq<u8>) -> Seq<u8>;

/// The signature segment of a token: the tag in unpadded base64url.
pub open spec fn hs256_of(secret: Seq<u8>, message: Seq<u8>) -> Seq<u8> {
    encode(hmac_sha256_of(secret, message))
}

/// Relies on `jsonwebtoken::crypto::sign` with HS256: the HMAC-SHA256 tag of
/// `message` under `secret` (a function of the two alone), in unpadded
/// base64url (the crate's `URL_SAFE_NO_PAD` engine).
#[verifier::external_body]
fn hs256_sign(secret: &[u8], message: &[u8]) -> (r: Vec<u8>)
    ensures
        r@ == encode(hmac_sha256_of(secret@, message@)),
{
    let key = jsonwebtoken::EncodingKey::from_secret(secret);
    jsonwebtoken::crypto::sign(message, &key, jsonwebtoken::Algorithm::HS256)
        .unwrap_or_default()
        .into_bytes()
}

/// Relies on `jsonwebtoken::crypto::verify` with HS256: it re-signs `message`
/// and compares with `signature` in constant time.
#[verifier::external_body]
fn hs256_matches(secret: &[u8], message: &[u8], signature: &[u8]) -> (r: bool)
    ensures
        r == (signature@ == encode(hmac_sha256_of(secret@, message@))),
{
    let key = jsonwebtoken::DecodingKey::from_secret(secret);
    match std::str::from_utf8(signature) {
        Ok(s) => jsonwebtoken::crypto::verify(s, message, &key, jsonwebtoken::Algorithm::HS256)
            .unwrap_or(false),
        Err(_) => false,
    }
}

/// Relies on `String::from_utf8`: it accepts exactly the valid UTF-8 byte
/// strings and keeps the text they encode.
#[verifier::external_body]
fn utf8_string(b: Vec<u8>) -> (r: Option<String>)
    ensures
        match r {
            Some(s) => valid_utf8(b@) && s@ == decode_utf8(b@),
            None => !valid_utf8(b@),
        },
{
    String::from_utf8(b).ok()
}

/// Why a token was not accepted.
#[derive(Debug, Clone, Copy, PartialEq, Eq, Structural)]
pub enum TokenError {
    /// The token is not three base64url segments with the expected header and
    /// claim set.
    Malformed,
    /// The signature does not match the header and claim set.
    BadSignature,
    /// The expiry is not after the verification time.
    Expired,
}

/// `{"typ":"JWT","alg":"HS256"}`, the header jsonwebtoken writes for HS256.
pub open spec fn header_json() -> Seq<u8> {
    seq![
        123u8, 34, 116, 121, 112, 34, 58, 34, 74, 87, 84, 34, 44, 34, 97, 108, 103, 34, 58, 34,
        72, 83, 50, 53, 54, 34, 125,
    ]
}

/// The part of a token that is signed: header and claim set, each base64url
/// encoded, joined by a dot.
pub open spec fn signing_input(username: Seq<char>, role: Role, exp: u64) -> Seq<u8> {
    encode(header_json()) + seq![46u8] + encode(payload(encode_utf8(username), role, exp))
}

/// The token issued for a claim set under `secret`.
pub open spec fn token_of(secret: Seq<u8>, username: Seq<char>, role: Role, exp: u64) -> Seq<u8> {
    let m = signing_input(username, role, exp);
    m + seq![46u8] + hs256_of(secret, m)
}

/// What verifying token `t` under `secret` at time `now` yields: the
/// username, role and expiry, or the first check that failed.
pub open spec fn check_token(secret: Seq<u8>, t: Seq<u8>, now: u64) -> Result<
    (Seq<char>, Role, u64),
    TokenError,
> {
    match find_byte(t, 0, 46) {
        None => Err(TokenError::Malformed),
        Some(i) => match find_byte(t, i + 1, 46) {
            None => Err(TokenError::Malformed),
            Some(j) => if t.subrange(0, i) != encode(header_json()) {
                Err(TokenError::Malformed)
            } else if decode(t.subrange(j + 1, t.len() as int)) is None {
                Err(TokenError::Malformed)
            } else {
                match decode(t.subrange(i + 1, j)) {
                    None => Err(TokenError::Malformed),
                    Some(p) => match parse_payload(p) {
                        None => Err(TokenError::Malformed),
                        Some((u, role, exp)) => if !valid_utf8(u) {
                            Err(TokenError::Malformed)
                        } else if t.subrange(j + 1, t.len() as int) != hs256_of(
                            secret,
                            t.subrange(0, j),
                        ) {
                            Err(TokenError::BadSignature)
                        } else if exp <= now {
                            Err(TokenError::Expired)
                        } else {
                            Ok((decode_utf8(u), role, exp))
                        },
                    },
                }
            },
        },
    }
}

/// The claims carried inside a signed token.
pub struct Clains {
    pub username: String,
    pub role: Role,
    /// Expiry, in seconds since the Unix epoch.
    pub exp: u64,
}

fn header_bytes() -> (r: Vec<u8>)
    ensures
        r@ == encode(header_json()),
{
    let h = vec![
        123u8, 34, 116, 121, 112, 34, 58, 34, 74, 87, 84, 34, 44, 34, 97, 108, 103, 34, 58, 34,
        72, 83, 50, 53, 54, 34, 125,
    ];
    assert(h@ =~= header_json());
    encode_bytes(h.as_slice())
}

impl Clains {
    /// Claims for `username` and `role` that expire `TOKEN_LIFETIME` seconds
    /// after `now`, the current Unix time in seconds; `None` where that
    /// instant does not fit in 64 bits.
    pub fn new(username: String, role: Role, now: u64) -> (r: Option<Clains>)
        ensures
            match r {
                Some(c) => now + TOKEN_LIFETIME <= u64::MAX && c.username@ == username@ && c.role
                    == role && c.exp == now + TOKEN_LIFETIME,
                None => now + TOKEN_LIFETIME > u64::MAX,
            },
    {
        match now.checked_add(TOKEN_LIFETIME) {
            Some(exp) => Some(Clains { username, role, exp }),
            None => None,
        }
    }

    /// The signed token for these claims: header, claim set and HS256
    /// signature, joined by dots.
    pub fn to_token(&self, secret: &[u8]) -> (r: Vec<u8>)
        ensures
            r@ == token_of(secret@, self.username@, self.role, self.exp),
    {
        let ub = self.username.as_str().as_bytes();
        let p = write_payload(ub, self.role, self.exp);
        let mut m = header_bytes();
        m.push(46);
        let mut pe = encode_bytes(p.as_slice());
        m.append(&mut pe);
        let mut sig = hs256_sign(secret, m.as_slice());
        let mut t = m.clone();
        t.push(46);
        t.append(&mut sig);
        assert(m@ =~= signing_input(self.username@, self.role, self.exp));
        assert(t@ =~= token_of(secret@, self.username@, self.role, self.exp));
        t
    }

    /// Verifies `token` under `secret` at time `now`: its structure, then its
    /// signature, then its expiry.
    pub fn from_token(token: &[u8], secret: &[u8], now: u64) -> (r: Result<Clains, TokenError>)
        ensures
            match r {
                Ok(c) => check_token(secret@, token@, now) == Ok::<_, TokenError>((c.username@, c.role, c.exp)),
                Err(e) => check_token(secret@, token@, now) == Err::<(Seq<char>, Role, u64), _>(e),
            },
    {
        let n = token.len();
        let i = match find_byte_exec(token, 0, 46) {
            Some(i) => i,
            None => {
                return Err(TokenError::Malformed);
            },
        };
        let j = match find_byte_exec(token, i + 1, 46) {
            Some(j) => j,
            None => {
                return Err(TokenError::Malformed);
            },
        };
        let h = header_bytes();
        if !range_eq(token, 0, i, h.as_slice()) {
            return Err(TokenError::Malformed);
        }
        if decode_bytes(&token[j + 1..n]).is_none() {
            return Err(TokenError::Malformed);
        }
        let p = match decode_bytes(&token[i + 1..j]) {
            Some(p) => p,
            None => {
                return Err(TokenError::Malformed);
            },
        };
        let (ub, role, exp) = match read_payload(p.as_slice()) {
            Some(x) => x,
            None => {
                return Err(TokenError::Malformed);
            },
        };
        let username = match utf8_string(ub) {
            Some(s) => s,
            None => {
                return Err(TokenError::Malformed);
            },
        };
        if !hs256_matches(secret, &token[0..j], &token[j + 1..n]) {
            return Err(TokenError::BadSignature);
        }
        if exp <= now {
            return Err(TokenError::Expired);
        }
        Ok(Clains { username, role, exp })
    }
}

proof fn lemma_encode_has_no_dot(s: Seq<u8>)
    ensures
        forall|k: int| 0 <= k < encode(s).len() ==> #[trigger] encode(s)[k] != 46,
    decreases s.len(),
{
    assert forall|v: u8| #[trigger] digit(v) != 46 by {}
    if s.len() >= 3 {
        let rest = s.subrange(3, s.len() as int);
        lemma_encode_has_no_dot(rest);
        let e = encode(s);
        assert forall|k: int| 0 <= k < e.len() implies #[trigger] e[k] != 46 by {
            if k >= 4 {
                assert(e[k] == encode(rest)[k - 4]);
            }
        }
    }
}

proof fn lemma_find_byte_result(b: Seq<u8>, i: int, c: u8)
    requires
        find_byte(b, i, c) is Some,
    ensures
        ({
            let m = find_byte(b, i, c).unwrap();
            &&& 0 <= i <= m < b.len()
            &&& b[m] == c
            &&& forall|k: int| i <= k < m ==> b[k] != c
        }),
    decreases b.len() - i,
{
    if b[i] != c {
        lemma_find_byte_result(b, i + 1, c);
    }
}

/// A token issued for a claim set verifies, under the same secret, to that
/// username, role and expiry at every time before the expiry, and is
/// rejected as expired from the expiry on.
pub proof fn lemma_token_round_trip(secret: Seq<u8>, username: Seq<char>, role: Role, exp: u64, now: u64)
    ensures
        check_token(secret, token_of(secret, username, role, exp), now) == if now < exp {
            Ok::<_, TokenError>((username, role, exp))
        } else {
            Err(TokenError::Expired)
        },
{
    let h = encode(header_json());
    let ub = encode_utf8(username);
    let p = encode(payload(ub, role, exp));
    let m = signing_input(username, role, exp);
    let t = token_of(secret, username, role, exp);
    let sig = hs256_of(secret, m);
    let i = h.len() as int;
    let j = i + 1 + p.len();
    assert(t =~= h + seq![46u8] + p + seq![46u8] + sig);
    lemma_encode_has_no_dot(header_json());
    lemma_encode_has_no_dot(payload(ub, role, exp));
    assert forall|k: int| 0 <= k < i implies t[k] != 46 by {
        assert(t[k] == h[k]);
    }
    lemma_find_byte(t, 0, 46, i);
    assert forall|k: int| i + 1 <= k < j implies t[k] != 46 by {
        assert(t[k] == p[k - i - 1]);
    }
    lemma_find_byte(t, i + 1, 46, j);
    assert(t.subrange(0, i) =~= h);
    assert(t.subrange(i + 1, j) =~= p);
    assert(t.subrange(0, j) =~= m);
    assert(t.subrange(j + 1, t.len() as int) =~= sig);
    lemma_decode_encode(hmac_sha256_of(secret, m));
    lemma_decode_encode(payload(ub, role, exp));
    lemma_parse_payload(ub, role, exp);
}

/// A token issued at time `now` with the fixed lifetime is accepted at every
/// check time in `[now, now + TOKEN_LIFETIME)` and rejected as expired at
/// every check time from `now + TOKEN_LIFETIME` on.
pub proof fn lemma_validity_window(secret: Seq<u8>, username: Seq<char>, role: Role, now: u64, check: u64)
    requires
        now + TOKEN_LIFETIME <= u64::MAX,
        now <= check,
    ensures
        ({
            let exp = (now + TOKEN_LIFETIME) as u64;
            let r = check_token(secret, token_of(secret, username, role, exp), check);
            &&& check < now + TOKEN_LIFETIME ==> r == Ok::<_, TokenError>((username, role, exp))
            &&& check >= now + TOKEN_LIFETIME ==> r == Err::<(Seq<char>, Role, u64), _>(
                TokenError::Expired,
            )
        }),
{
    lemma_token_round_trip(secret, username, role, (now + TOKEN_LIFETIME) as u64, check);
}

/// Changing any one byte of the signature segment of a token that verifies
/// makes it fail: with `BadSignature` where the segment is still base64url,
/// with `Malformed` otherwise.
pub proof fn lemma_signature_tamper(secret: Seq<u8>, t: Seq<u8>, now: u64, k: int, x: u8)
    requires
        check_token(secret, t, now) is Ok,
        find_byte(t, find_byte(t, 0, 46).unwrap() + 1, 46).unwrap() < k < t.len(),
        t[k] != x,
    ensures
        check_token(secret, t.update(k, x), now) == Err::<(Seq<char>, Role, u64), _>(
            if decode(t.update(k, x).subrange(
                find_byte(t, find_byte(t, 0, 46).unwrap() + 1, 46).unwrap() + 1,
                t.len() as int,
            )) is Some {
                TokenError::BadSignature
            } else {
                TokenError::Malformed
            },
        ),
{
    let t2 = t.update(k, x);
    lemma_find_byte_result(t, 0, 46);
    let i = find_byte(t, 0, 46).unwrap();
    lemma_find_byte_result(t, i + 1, 46);
    let j = find_byte(t, i + 1, 46).unwrap();
    lemma_find_byte(t2, 0, 46, i);
    lemma_find_byte(t2, i + 1, 46, j);
    assert(t2.subrange(0, i) =~= t.subrange(0, i));
    assert(t2.subrange(i + 1, j) =~= t.subrange(i + 1, j));
    assert(t2.subrange(0, j) =~= t.subrange(0, j));
    assert(t2.subrange(j + 1, t.len() as int)[k - j - 1] != t.subrange(j + 1, t.len() as int)[k
        - j - 1]);
}

} // verus!
