use bearer_auth::claims::{decode_claims, encode_claims, parse_decimal};
use bearer_auth::token::{issue, issue_now, verify, verify_now, IssueError, VerifyError};

const KEY: &[u8] = b"secret";
const NOW: u64 = 1_700_000_000;

fn segments(t: &str) -> Vec<String> {
    t.split('.').map(|s| s.to_string()).collect()
}

#[test]
fn issued_token_verifies_to_its_subject() {
    for s in ["1", "alice", "user@example.com", "Zoë", "\"", "a\\b", "line\nbreak", "a,\"exp\":1}", "\u{1}"] {
        let t = issue(s, 86_400, NOW, KEY).unwrap();
        assert_eq!(verify(&t, KEY, NOW), Ok(s.to_string()));
        assert_eq!(verify(&t, KEY, NOW + 86_399), Ok(s.to_string()));
    }
}

#[test]
fn token_has_three_segments_under_fixed_header() {
    let t = issue("1", 60, NOW, KEY).unwrap();
    let parts = segments(&t);
    assert_eq!(parts.len(), 3);
    assert_eq!(parts[0], "eyJ0eXAiOiJKV1QiLCJhbGciOiJIUzI1NiJ9");
    // {"sub":"1","exp":1700000060}
    assert_eq!(parts[1], "eyJzdWIiOiIxIiwiZXhwIjoxNzAwMDAwMDYwfQ");
    assert_eq!(parts[2].len(), 43);
}

#[test]
fn token_is_accepted_by_jsonwebtoken() {
    let t = issue("1", 3_600, 4_000_000_000, KEY).unwrap();
    let mut v = jsonwebtoken::Validation::new(jsonwebtoken::Algorithm::HS256);
    v.validate_exp = false;
    v.required_spec_claims.clear();
    let d = jsonwebtoken::decode::<std::collections::HashMap<String, serde_json::Value>>(
        &t,
        &jsonwebtoken::DecodingKey::from_secret(KEY),
        &v,
    )
    .unwrap();
    assert_eq!(d.claims["sub"], serde_json::Value::from("1"));
    assert_eq!(d.claims["exp"], serde_json::Value::from(4_000_003_600u64));
}

#[test]
fn negative_ttl_gives_expired() {
    let t = issue("1", -1, NOW, KEY).unwrap();
    assert_eq!(verify(&t, KEY, NOW), Err(VerifyError::Expired));
}

#[test]
fn token_expires_at_its_expiry_instant() {
    let t = issue("1", 10, NOW, KEY).unwrap();
    assert_eq!(verify(&t, KEY, NOW + 9), Ok("1".to_string()));
    assert_eq!(verify(&t, KEY, NOW + 10), Err(VerifyError::Expired));
    assert_eq!(verify(&t, KEY, NOW + 1_000), Err(VerifyError::Expired));
    let z = issue("1", 0, NOW, KEY).unwrap();
    assert_eq!(verify(&z, KEY, NOW), Err(VerifyError::Expired));
}

#[test]
fn any_flipped_byte_is_rejected() {
    let t = issue("1", 86_400, NOW, KEY).unwrap();
    let bytes = t.as_bytes().to_vec();
    let first_dot = t.find('.').unwrap();
    for i in first_dot + 1..bytes.len() {
        if bytes[i] == b'.' {
            continue;
        }
        for flip in [1u8, 2, 4, 32] {
            let mut b = bytes.clone();
            b[i] ^= flip;
            if let Ok(s) = String::from_utf8(b) {
                let r = verify(&s, KEY, NOW);
                assert!(
                    r == Err(VerifyError::InvalidSignature) || r == Err(VerifyError::MalformedClaims),
                    "byte {} flip {} gave {:?}",
                    i,
                    flip,
                    r
                );
            }
        }
    }
}

#[test]
fn wrong_key_is_invalid_signature() {
    let t = issue("1", 86_400, NOW, KEY).unwrap();
    assert_eq!(verify(&t, b"other", NOW), Err(VerifyError::InvalidSignature));
}

#[test]
fn structural_faults_are_invalid_signature() {
    let t = issue("1", 86_400, NOW, KEY).unwrap();
    let p = segments(&t);
    assert_eq!(verify("", KEY, NOW), Err(VerifyError::InvalidSignature));
    assert_eq!(verify("abc", KEY, NOW), Err(VerifyError::InvalidSignature));
    assert_eq!(verify(&format!("{}.{}", p[0], p[1]), KEY, NOW), Err(VerifyError::InvalidSignature));
    assert_eq!(verify(&format!("{}.x", t), KEY, NOW), Err(VerifyError::InvalidSignature));
    // header naming no algorithm: {"alg":"none","typ":"JWT"}
    let none = format!("eyJhbGciOiJub25lIiwidHlwIjoiSldUIn0.{}.", p[1]);
    assert_eq!(verify(&none, KEY, NOW), Err(VerifyError::InvalidSignature));
    let none_sig = format!("eyJhbGciOiJub25lIiwidHlwIjoiSldUIn0.{}.{}", p[1], p[2]);
    assert_eq!(verify(&none_sig, KEY, NOW), Err(VerifyError::InvalidSignature));
}

#[test]
fn correctly_signed_bad_claims_are_malformed() {
    // claims {"sub":1,"exp":1} signed with the right key
    let header = "eyJ0eXAiOiJKV1QiLCJhbGciOiJIUzI1NiJ9";
    for claims in ["eyJzdWIiOjEsImV4cCI6MX0", "eyJleHAiOjF9", "!!"] {
        let msg = format!("{}.{}", header, claims);
        let sig = jsonwebtoken::crypto::sign(
            msg.as_bytes(),
            &jsonwebtoken::EncodingKey::from_secret(KEY),
            jsonwebtoken::Algorithm::HS256,
        )
        .unwrap();
        let t = format!("{}.{}", msg, sig);
        assert_eq!(verify(&t, KEY, NOW), Err(VerifyError::MalformedClaims));
    }
}

#[test]
fn issue_rejects_only_the_empty_subject() {
    assert_eq!(issue("", 60, NOW, KEY), Err(IssueError::InvalidSubject));
    assert!(issue("a\"b", 60, NOW, KEY).is_ok());
    assert!(issue("a\\b", 60, NOW, KEY).is_ok());
    assert!(issue("a\nb", 60, NOW, KEY).is_ok());
}

#[test]
fn escaped_subject_is_read_by_jsonwebtoken() {
    let t = issue("a\"b\n", 3_600, 4_000_000_000, KEY).unwrap();
    let mut v = jsonwebtoken::Validation::new(jsonwebtoken::Algorithm::HS256);
    v.validate_exp = false;
    v.required_spec_claims.clear();
    let d = jsonwebtoken::decode::<std::collections::HashMap<String, serde_json::Value>>(
        &t,
        &jsonwebtoken::DecodingKey::from_secret(KEY),
        &v,
    )
    .unwrap();
    assert_eq!(d.claims["sub"], serde_json::Value::from("a\"b\n"));
}

#[test]
fn issue_rejects_expiry_out_of_range() {
    assert_eq!(issue("1", -11, 10, KEY), Err(IssueError::ExpiryOutOfRange));
    assert_eq!(issue("1", i64::MAX, u64::MAX, KEY), Err(IssueError::ExpiryOutOfRange));
    assert!(issue("1", -10, 10, KEY).is_ok());
    assert!(issue("1", 0, u64::MAX, KEY).is_ok());
}

#[test]
fn claims_encode_canonically() {
    assert_eq!(encode_claims("1", 42), b"{\"sub\":\"1\",\"exp\":42}".to_vec());
    assert_eq!(encode_claims("ab", 0), b"{\"sub\":\"ab\",\"exp\":0}".to_vec());
    assert_eq!(encode_claims("a\"b", 7), b"{\"sub\":\"a\\\"b\",\"exp\":7}".to_vec());
    let c = decode_claims(b"{\"sub\":\"ab\",\"exp\":18446744073709551615}").unwrap();
    assert_eq!(c.sub, "ab");
    assert_eq!(c.exp, u64::MAX);
    let e = decode_claims(b"{\"sub\":\"x,\\\"y\\n\",\"exp\":3}").unwrap();
    assert_eq!(e.sub, "x,\"y\n");
    assert_eq!(e.exp, 3);
}

#[test]
fn claims_decoder_rejects_other_forms() {
    for b in [
        &b"{\"sub\":\"1\",\"exp\":042}"[..],
        b"{\"sub\":\"1\",\"exp\":18446744073709551616}",
        b"{\"sub\":\"\",\"exp\":1}",
        b"{\"exp\":1,\"sub\":\"1\"}",
        b"{\"sub\":\"1\", \"exp\":1}",
        b"{\"sub\":\"1\",\"exp\":1",
        b"{\"sub\":\"1\",\"exp\":}",
        b"{\"sub\":1,\"exp\":1}",
        b"{\"sub\":\"\\u0041\",\"exp\":1}",
        b"",
    ] {
        assert!(decode_claims(b).is_none(), "{:?}", String::from_utf8_lossy(b));
    }
}

#[test]
fn decimal_parsing() {
    assert_eq!(parse_decimal(b"0"), Some(0));
    assert_eq!(parse_decimal(b"1234567890"), Some(1_234_567_890));
    assert_eq!(parse_decimal(b"18446744073709551615"), Some(u64::MAX));
    assert_eq!(parse_decimal(b"18446744073709551616"), None);
    assert_eq!(parse_decimal(b"00"), None);
    assert_eq!(parse_decimal(b""), None);
    assert_eq!(parse_decimal(b"1a"), None);
}

#[test]
fn clock_forms_round_trip() {
    let t = issue_now("1", 3_600, KEY).unwrap();
    assert_eq!(verify_now(&t, KEY), Ok("1".to_string()));
    let old = issue_now("1", -1, KEY).unwrap();
    assert_eq!(verify_now(&old, KEY), Err(VerifyError::Expired));
}
