use resource_auth::base64url::{decode_bytes, encode_bytes};
use resource_auth::payload::{read_payload, write_payload};
use resource_auth::role::Role;
use resource_auth::token::{Clains, TokenError, TOKEN_LIFETIME};

const SECRET: &[u8] = b"test-signing-secret";

fn claims(name: &str, role: Role, exp: u64) -> Clains {
    Clains { username: name.to_string(), role, exp }
}

fn real_now() -> u64 {
    std::time::SystemTime::now()
        .duration_since(std::time::UNIX_EPOCH)
        .unwrap()
        .as_secs()
}

#[test]
fn base64url_known_values() {
    assert_eq!(encode_bytes(b""), b"".to_vec());
    assert_eq!(encode_bytes(b"f"), b"Zg".to_vec());
    assert_eq!(encode_bytes(b"fo"), b"Zm8".to_vec());
    assert_eq!(encode_bytes(b"foo"), b"Zm9v".to_vec());
    assert_eq!(encode_bytes(b"hello"), b"aGVsbG8".to_vec());
    assert_eq!(encode_bytes(&[0xfb, 0xff, 0xfe]), b"-__-".to_vec());
    assert_eq!(
        encode_bytes(br#"{"alg":"HS256","typ":"JWT"}"#),
        b"eyJhbGciOiJIUzI1NiIsInR5cCI6IkpXVCJ9".to_vec()
    );
}

#[test]
fn base64url_decodes_and_rejects() {
    assert_eq!(decode_bytes(b"aGVsbG8"), Some(b"hello".to_vec()));
    assert_eq!(decode_bytes(b"-__-"), Some(vec![0xfb, 0xff, 0xfe]));
    assert_eq!(decode_bytes(b""), Some(vec![]));
    assert_eq!(decode_bytes(b"aGVsb"), None);
    assert_eq!(decode_bytes(b"aG=s"), None);
    assert_eq!(decode_bytes(b"a+/b"), None);
    assert_eq!(decode_bytes(b"Zh"), None);
    assert_eq!(decode_bytes(b"Zm9"), None);
    assert_eq!(decode_bytes(b"Zm8"), Some(b"fo".to_vec()));
    let data: Vec<u8> = (0u8..=255).collect();
    assert_eq!(decode_bytes(&encode_bytes(&data)), Some(data));
}

#[test]
fn payload_layout() {
    assert_eq!(
        write_payload(b"alice", Role::Seller, 100),
        br#"{"username":"alice","role":"seller","exp":100}"#.to_vec()
    );
    assert_eq!(
        write_payload(b"a\nb\x1f", Role::Buyer, 7),
        br#"{"username":"a\nb\u001f","role":"buyer","exp":7}"#.to_vec()
    );
    assert_eq!(
        write_payload(b"\x08\t\x0c\r\x01", Role::Buyer, 7),
        br#"{"username":"\b\t\f\r\u0001","role":"buyer","exp":7}"#.to_vec()
    );
    assert_eq!(
        write_payload(br#"a"b\c"#, Role::Admin, 0),
        br#"{"username":"a\"b\\c","role":"admin","exp":0}"#.to_vec()
    );
}

#[test]
fn payload_reads_back() {
    let p = write_payload(br#"we"ird\name"#, Role::Buyer, u64::MAX);
    assert_eq!(read_payload(&p), Some((br#"we"ird\name"#.to_vec(), Role::Buyer, u64::MAX)));
    let p = write_payload(b"tab\there\x00", Role::Seller, 9);
    assert_eq!(read_payload(&p), Some((b"tab\there\x00".to_vec(), Role::Seller, 9)));
    assert_eq!(read_payload(b"{\"username\":\"a\nb\",\"role\":\"admin\",\"exp\":1}"), None);
    assert_eq!(read_payload(br#"{"username":"x","role":"owner","exp":1}"#), None);
    assert_eq!(read_payload(br#"{"username":"a","role":"admin","exp":01}"#), None);
    assert_eq!(read_payload(br#"{"username":"a","role":"admin","exp":00}"#), None);
    assert_eq!(
        read_payload(br#"{"username":"a","role":"admin","exp":0}"#),
        Some((b"a".to_vec(), Role::Admin, 0))
    );
    assert_eq!(read_payload(br#"{"username":"a\u000a","role":"admin","exp":1}"#), None);
    assert_eq!(read_payload(br#"{"username":"a\u001F","role":"admin","exp":1}"#), None);
    assert_eq!(
        read_payload(br#"{"username":"a\u001f\n","role":"admin","exp":1}"#),
        Some((b"a\x1f\n".to_vec(), Role::Admin, 1))
    );
    assert_eq!(read_payload(br#"{"username":"x","role":"admin","exp":}"#), None);
    assert_eq!(read_payload(br#"{"username":"x","role":"admin","exp":12a}"#), None);
    assert_eq!(
        read_payload(br#"{"username":"x","role":"admin","exp":18446744073709551616}"#),
        None
    );
    assert_eq!(
        read_payload(br#"{"username":"x","role":"admin","exp":18446744073709551615}"#),
        Some((b"x".to_vec(), Role::Admin, u64::MAX))
    );
}

#[test]
fn role_names() {
    assert_eq!(Role::Admin.name(), b"admin".to_vec());
    assert_eq!(Role::from_name(b"seller"), Some(Role::Seller));
    assert_eq!(Role::from_name(b"buyer"), Some(Role::Buyer));
    assert_eq!(Role::from_name(b"Buyer"), None);
}

#[test]
fn claims_expire_after_the_lifetime() {
    let c = Clains::new("alice".to_string(), Role::Buyer, 1000).unwrap();
    assert_eq!(c.exp, 1000 + TOKEN_LIFETIME);
    assert_eq!(c.exp, 4600);
    assert_eq!(c.username, "alice");
    assert!(Clains::new("alice".to_string(), Role::Buyer, u64::MAX - 3599).is_none());
    assert!(Clains::new("alice".to_string(), Role::Buyer, u64::MAX - 3600).is_some());
}

#[test]
fn token_round_trip() {
    let c = Clains::new("alice".to_string(), Role::Seller, 1_000_000).unwrap();
    let t = c.to_token(SECRET);
    let back = Clains::from_token(&t, SECRET, 1_000_000).unwrap();
    assert_eq!(back.username, "alice");
    assert_eq!(back.role, Role::Seller);
    assert_eq!(back.exp, 1_003_600);
    let control = claims("line\nbreak", Role::Buyer, 50);
    let back = Clains::from_token(&control.to_token(SECRET), SECRET, 0).unwrap();
    assert_eq!(back.username, "line\nbreak");
    let unicode = claims("zoë \"q\" \\ ü", Role::Admin, 50);
    let back = Clains::from_token(&unicode.to_token(SECRET), SECRET, 49).unwrap();
    assert_eq!(back.username, "zoë \"q\" \\ ü");
}

#[test]
fn token_validity_window() {
    let t = Clains::new("carol".to_string(), Role::Buyer, 5000).unwrap().to_token(SECRET);
    assert!(Clains::from_token(&t, SECRET, 5000).is_ok());
    assert!(Clains::from_token(&t, SECRET, 8599).is_ok());
    assert_eq!(Clains::from_token(&t, SECRET, 8600).err(), Some(TokenError::Expired));
    assert_eq!(Clains::from_token(&t, SECRET, 9000).err(), Some(TokenError::Expired));
}

#[test]
fn token_expired_one_second_ago() {
    let now = 1_700_000_000u64;
    let t = claims("erin", Role::Admin, now - 1).to_token(SECRET);
    assert_eq!(Clains::from_token(&t, SECRET, now).err(), Some(TokenError::Expired));
}

#[test]
fn token_signature_tamper() {
    let t = claims("frank", Role::Seller, 10_000).to_token(SECRET);
    let second_dot = t.iter().rposition(|&b| b == b'.').unwrap();
    for k in second_dot + 1..t.len() - 1 {
        let mut bad = t.clone();
        bad[k] = if bad[k] == b'A' { b'B' } else { b'A' };
        assert_eq!(Clains::from_token(&bad, SECRET, 0).err(), Some(TokenError::BadSignature));
    }
    for x in [b'A', b'E', b'B', b'.', b'+'] {
        let mut bad = t.clone();
        let last = bad.len() - 1;
        if bad[last] == x {
            continue;
        }
        bad[last] = x;
        let expected = if x == b'A' || x == b'E' {
            TokenError::BadSignature
        } else {
            TokenError::Malformed
        };
        assert_eq!(Clains::from_token(&bad, SECRET, 0).err(), Some(expected));
    }
}

#[test]
fn token_payload_tamper() {
    let t = claims("frank", Role::Buyer, 10_000).to_token(SECRET);
    let first_dot = t.iter().position(|&b| b == b'.').unwrap();
    let second_dot = t.iter().rposition(|&b| b == b'.').unwrap();
    for k in first_dot + 1..second_dot {
        let mut bad = t.clone();
        bad[k] = if bad[k] == b'A' { b'B' } else { b'A' };
        let r = Clains::from_token(&bad, SECRET, 0).err();
        assert!(r == Some(TokenError::BadSignature) || r == Some(TokenError::Malformed));
    }
}

#[test]
fn token_wrong_secret() {
    let t = claims("gina", Role::Seller, 10_000).to_token(SECRET);
    assert_eq!(Clains::from_token(&t, b"other", 0).err(), Some(TokenError::BadSignature));
}

#[test]
fn token_malformed() {
    assert_eq!(Clains::from_token(b"", SECRET, 0).err(), Some(TokenError::Malformed));
    assert_eq!(Clains::from_token(b"abc", SECRET, 0).err(), Some(TokenError::Malformed));
    assert_eq!(Clains::from_token(b"a.b", SECRET, 0).err(), Some(TokenError::Malformed));
    let good = claims("kim", Role::Seller, 10).to_token(SECRET);
    let mut fourth = good.clone();
    fourth.extend_from_slice(b".extra");
    assert_eq!(Clains::from_token(&fourth, SECRET, 0).err(), Some(TokenError::Malformed));
    let mut not_b64 = good.clone();
    let second_dot = not_b64.iter().rposition(|&b| b == b'.').unwrap();
    not_b64[second_dot + 1] = b'*';
    assert_eq!(Clains::from_token(&not_b64, SECRET, 0).err(), Some(TokenError::Malformed));
    let t = claims("hank", Role::Buyer, 10).to_token(SECRET);
    let mut other_header = b"eyJhbGciOiJIUzM4NCJ9".to_vec();
    let dot = t.iter().position(|&b| b == b'.').unwrap();
    other_header.extend_from_slice(&t[dot..]);
    assert_eq!(Clains::from_token(&other_header, SECRET, 0).err(), Some(TokenError::Malformed));
}

fn signed(claim_set: &[u8]) -> Vec<u8> {
    let mut m = b"eyJ0eXAiOiJKV1QiLCJhbGciOiJIUzI1NiJ9.".to_vec();
    m.extend_from_slice(&encode_bytes(claim_set));
    let key = jsonwebtoken::EncodingKey::from_secret(SECRET);
    let sig = jsonwebtoken::crypto::sign(&m, &key, jsonwebtoken::Algorithm::HS256).unwrap();
    m.push(b'.');
    m.extend_from_slice(sig.as_bytes());
    m
}

#[test]
fn token_with_leading_zero_expiry_is_malformed() {
    let bad = signed(br#"{"username":"a","role":"admin","exp":01}"#);
    assert_eq!(Clains::from_token(&bad, SECRET, 0).err(), Some(TokenError::Malformed));
    let good = signed(br#"{"username":"a","role":"admin","exp":1}"#);
    assert_eq!(Clains::from_token(&good, SECRET, 0).unwrap().exp, 1);
    assert_eq!(good, claims("a", Role::Admin, 1).to_token(SECRET));
}

#[test]
fn token_header_is_jsonwebtokens_default() {
    let theirs = jsonwebtoken::encode(
        &jsonwebtoken::Header::default(),
        &serde_json::Value::Null,
        &jsonwebtoken::EncodingKey::from_secret(SECRET),
    )
    .unwrap();
    let ours = claims("lee", Role::Buyer, 3).to_token(SECRET);
    let their_header = theirs.split('.').next().unwrap().as_bytes();
    assert_eq!(&ours[..their_header.len() + 1], format!("{}.", theirs.split('.').next().unwrap()).as_bytes());
}

#[test]
fn token_is_a_standard_hs256_jwt() {
    let exp = real_now() + 600;
    let t = claims("ivy", Role::Seller, exp).to_token(SECRET);
    let text = String::from_utf8(t).unwrap();
    let data = jsonwebtoken::decode::<serde_json::Value>(
        &text,
        &jsonwebtoken::DecodingKey::from_secret(SECRET),
        &jsonwebtoken::Validation::new(jsonwebtoken::Algorithm::HS256),
    )
    .unwrap();
    assert_eq!(data.claims["username"], "ivy");
    assert_eq!(data.claims["role"], "seller");
    assert_eq!(data.claims["exp"], exp);
}
