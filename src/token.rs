//! Issuing and verifying signed, time-bounded bearer tokens.
//!
//! A token is three dot-separated segments: a fixed header naming HS256, the
//! base64url text of the claims, and the base64url HMAC-SHA256 tag over the
//! first two segments joined by a dot.
use vstd::prelude::*;
use vstd::utf8::{
    decode_utf8, decode_utf8_encode_utf8, encode_utf8, encode_utf8_decode_utf8,
    encode_utf8_valid_utf8, is_ascii_chars, is_ascii_chars_encode_utf8, partial_valid_utf8,
    partial_valid_utf8_extend_ascii_block, valid_utf8, valid_utf8_concat,
};
use crate::bytes::{append_bytes, copy_range, find_byte, lacks, matches_at};
use crate::claims::{claims_bytes, decode_claims, encode_claims, subject_ok, Claims};
use crate::primitives::{
    b64url_char, b64url_decode, b64url_encode, b64url_of, hs256_sig, hs256_sign, hs256_verify,
    now_utc, utf8_string,
};

verus! {

pub const DOT: u8 = 46;

/// Why a token was not accepted.
#[derive(Debug, Clone, Copy, PartialEq, Eq, Structural)]
pub enum VerifyError {
    /// The claims segment does not decode to claims.
    MalformedClaims,
    /// The token is not three segments under the fixed header, or its tag does
    /// not match.
    InvalidSignature,
    /// The token's expiry instant has been reached.
    Expired,
}

/// Why a token could not be issued.
#[derive(Debug, Clone, Copy, PartialEq, Eq, Structural)]
pub enum IssueError {
    /// The subject is empty, or holds a quote, a backslash or a control character.
    InvalidSubject,
    /// `now + ttl` is negative or does not fit in 64 bits.
    ExpiryOutOfRange,
}

/// The header segment: base64url of `{"typ":"JWT","alg":"HS256"}`.
pub open spec fn header_seg() -> Seq<u8> {
    seq![
        101u8, 121, 74, 48, 101, 88, 65, 105, 79, 105, 74, 75, 86, 49, 81, 105, 76, 67, 74, 104,
        98, 71, 99, 105, 79, 105, 74, 73, 85, 122, 73, 49, 78, 105, 74, 57,
    ]
}

/// The bytes the tag is computed over: header, dot, claims segment.
pub open spec fn signing_input(c: Seq<u8>) -> Seq<u8> {
    header_seg() + seq![DOT] + c
}

/// `t` is the header, then the claims segment `c`, then the signature segment `s`,
/// each dot-free and joined by dots.
pub open spec fn segments(t: Seq<u8>, c: Seq<u8>, s: Seq<u8>) -> bool {
    t == signing_input(c) + seq![DOT] + s && lacks(c, DOT) && lacks(s, DOT)
}

/// `s` is the tag of the signing input of `c` under `key`.
pub open spec fn signature_valid(c: Seq<u8>, s: Seq<u8>, key: Seq<u8>) -> bool {
    valid_utf8(s) && decode_utf8(s) == hs256_sig(signing_input(c), key)
}

/// The claims segment that carries `sub` and `exp`.
pub open spec fn claims_segment(sub: Seq<char>, exp: nat) -> Seq<u8> {
    encode_utf8(b64url_of(claims_bytes(sub, exp)))
}

/// `t` is a token for `sub` expiring at `exp`, signed with `key`.
pub open spec fn issued(t: Seq<u8>, sub: Seq<char>, exp: nat, key: Seq<u8>) -> bool {
    exists|s: Seq<u8>|
        segments(t, claims_segment(sub, exp), s) && signature_valid(
            claims_segment(sub, exp),
            s,
            key,
        )
}

proof fn lemma_ascii_valid(b: Seq<u8>)
    requires
        forall|i: int| 0 <= i < b.len() ==> b[i] < 128,
    ensures
        valid_utf8(b),
{
    assert(b.subrange(0, 0) =~= Seq::<u8>::empty());
    assert(partial_valid_utf8(b, 0));
    partial_valid_utf8_extend_ascii_block(b, 0, b.len() as int);
    assert(b.subrange(0, b.len() as int) =~= b);
}

proof fn lemma_b64_text_bytes(t: Seq<char>)
    requires
        forall|i: int| 0 <= i < t.len() ==> b64url_char(#[trigger] t[i]),
    ensures
        lacks(encode_utf8(t), DOT),
        encode_utf8(t).len() == t.len(),
{
    assert(is_ascii_chars(t));
    is_ascii_chars_encode_utf8(t);
    assert forall|i: int| 0 <= i < encode_utf8(t).len() implies encode_utf8(t)[i] != DOT by {
        assert(b64url_char(t[i]));
        assert(t[i] as u8 == encode_utf8(t)[i]);
    }
}

fn header_bytes() -> (r: Vec<u8>)
    ensures
        r@ == header_seg(),
{
    let r: Vec<u8> = vec![
        101u8, 121, 74, 48, 101, 88, 65, 105, 79, 105, 74, 75, 86, 49, 81, 105, 76, 67, 74, 104,
        98, 71, 99, 105, 79, 105, 74, 73, 85, 122, 73, 49, 78, 105, 74, 57,
    ];
    assert(r@ =~= header_seg());
    r
}

/// Every issued token is UTF-8 text.
pub proof fn lemma_issued_valid(t: Seq<u8>, sub: Seq<char>, exp: nat, key: Seq<u8>)
    requires
        issued(t, sub, exp, key),
    ensures
        valid_utf8(t),
{
    let c = claims_segment(sub, exp);
    let s = choose|s: Seq<u8>| segments(t, c, s) && signature_valid(c, s, key);
    let pre = header_seg() + seq![DOT];
    assert forall|i: int| 0 <= i < pre.len() implies pre[i] < 128 by {}
    lemma_ascii_valid(pre);
    lemma_ascii_valid(seq![DOT]);
    encode_utf8_valid_utf8(b64url_of(claims_bytes(sub, exp)));
    valid_utf8_concat(pre, c);
    valid_utf8_concat(pre + c, seq![DOT]);
    valid_utf8_concat(pre + c + seq![DOT], s);
    assert(t =~= pre + c + seq![DOT] + s);
}

/// What issuing a token for `subject`, `ttl` seconds after `now`, under `key` gives.
pub open spec fn issued_as(subject: Seq<char>, ttl: i64, now: u64, key: Seq<u8>, r: Result<String, IssueError>) -> bool {
    &&& r == Err::<String, IssueError>(IssueError::InvalidSubject) <==> !subject_ok(subject)
    &&& r == Err::<String, IssueError>(IssueError::ExpiryOutOfRange) <==> subject_ok(subject) && !(0
        <= now + ttl <= u64::MAX)
    &&& r is Ok ==> issued(encode_utf8(r->Ok_0@), subject, (now + ttl) as nat, key)
}

/// Issues a token for `subject` that expires `ttl` seconds after `now`,
/// signed with `key`.
pub fn issue(subject: &str, ttl: i64, now: u64, key: &[u8]) -> (r: Result<String, IssueError>)
    ensures
        issued_as(subject@, ttl, now, key@, r),
{
    if subject.is_empty() {
        return Err(IssueError::InvalidSubject);
    }
    let e: i128 = now as i128 + ttl as i128;
    if e < 0 || e > u64::MAX as i128 {
        return Err(IssueError::ExpiryOutOfRange);
    }
    let exp = e as u64;
    let claims = encode_claims(subject, exp);
    let cseg = b64url_encode(claims.as_slice());
    let mut msg = header_bytes();
    msg.push(DOT);
    append_bytes(&mut msg, cseg.as_str().as_bytes());
    let sig = hs256_sign(msg.as_slice(), key);
    let mut tb = msg.clone();
    tb.push(DOT);
    append_bytes(&mut tb, sig.as_str().as_bytes());
    let ghost c = encode_utf8(cseg@);
    let ghost sg = encode_utf8(sig@);
    proof {
        lemma_b64_text_bytes(cseg@);
        lemma_b64_text_bytes(sig@);
        assert(msg@ =~= signing_input(c));
        assert(tb@ =~= signing_input(c) + seq![DOT] + sg);
        let pre = header_seg() + seq![DOT];
        assert forall|i: int| 0 <= i < pre.len() implies pre[i] < 128 by {}
        lemma_ascii_valid(pre);
        lemma_ascii_valid(seq![DOT]);
        encode_utf8_valid_utf8(cseg@);
        encode_utf8_valid_utf8(sig@);
        valid_utf8_concat(pre, c);
        valid_utf8_concat(pre + c, seq![DOT]);
        valid_utf8_concat(pre + c + seq![DOT], sg);
        assert(tb@ =~= pre + c + seq![DOT] + sg);
        encode_utf8_decode_utf8(sig@);
        assert(segments(tb@, claims_segment(subject@, exp as nat), sg));
    }
    let t = match utf8_string(tb) {
        Some(t) => t,
        None => {
            // Not reached: the token bytes were shown to be UTF-8 above.
            return Err(IssueError::ExpiryOutOfRange);
        },
    };
    proof {
        decode_utf8_encode_utf8(tb@);
    }
    Ok(t)
}

/// Where `t` splits into segments, the first dot after the header ends the
/// claims segment and no dot follows the next one.
proof fn lemma_segments_unique(t: Seq<u8>, c: Seq<u8>, s: Seq<u8>, i: int)
    requires
        segments(t, c, s),
        37 <= i <= t.len(),
        i < t.len() ==> t[i] == DOT,
        lacks(t.subrange(37, i), DOT),
    ensures
        i == 37 + c.len(),
        t.subrange(0, 36) == header_seg(),
        t[36] == DOT,
        t.subrange(37, i) == c,
        t.subrange(0, i) == signing_input(c),
        t.subrange(i + 1, t.len() as int) == s,
        lacks(t.subrange(i + 1, t.len() as int), DOT),
{
    let k: int = 37 + c.len() as int;
    assert(t[k] == DOT);
    if i < k {
        assert(c[i - 37] == t[i]);
    } else if k < i {
        assert(t.subrange(37, i)[k - 37] == t[k]);
    }
    assert(t.subrange(0, 36) =~= header_seg());
    assert(t.subrange(37, i) =~= c);
    assert(t.subrange(0, i) =~= signing_input(c));
    assert(t.subrange(i + 1, t.len() as int) =~= s);
}

/// `r` is what checking the token bytes `t` under `key` at time `now` gives.
///
/// A subject comes back only from a token whose tag matches its own header and
/// claims under `key`, and only before the expiry those claims hold. A token
/// that `issue` made for a subject under `key` gives that subject before its
/// expiry instant and `Expired` from that instant on.
pub open spec fn verified(t: Seq<u8>, key: Seq<u8>, now: u64, r: Result<String, VerifyError>) -> bool {
    &&& r is Ok ==> exists|c: Seq<u8>, s: Seq<u8>, sub: Seq<char>, exp: u64|
        segments(t, c, s) && signature_valid(c, s, key) && c == claims_segment(sub, exp as nat)
            && subject_ok(sub) && now < exp && r->Ok_0@ == sub
    &&& r == Err::<String, VerifyError>(VerifyError::InvalidSignature) ==> forall|
        c: Seq<u8>,
        s: Seq<u8>,
    | segments(t, c, s) ==> !signature_valid(c, s, key)
    &&& r == Err::<String, VerifyError>(VerifyError::MalformedClaims) ==> exists|
        c: Seq<u8>,
        s: Seq<u8>,
    |
        segments(t, c, s) && signature_valid(c, s, key) && forall|sub: Seq<char>, exp: u64|
            subject_ok(sub) ==> c != #[trigger] claims_segment(sub, exp as nat)
    &&& r == Err::<String, VerifyError>(VerifyError::Expired) ==> exists|
        c: Seq<u8>,
        s: Seq<u8>,
        sub: Seq<char>,
        exp: u64,
    |
        segments(t, c, s) && signature_valid(c, s, key) && c == claims_segment(sub, exp as nat)
            && subject_ok(sub) && exp <= now
    &&& forall|sub: Seq<char>, exp: u64|
        subject_ok(sub) && #[trigger] issued(t, sub, exp as nat, key) ==> if now < exp {
            r is Ok && r->Ok_0@ == sub
        } else {
            r == Err::<String, VerifyError>(VerifyError::Expired)
        }
}

/// Checks `token` under `key` at time `now` and recovers its subject.
pub fn verify(token: &str, key: &[u8], now: u64) -> (r: Result<String, VerifyError>)
    ensures
        verified(encode_utf8(token@), key@, now, r),
{
    let tb = token.as_bytes();
    let ghost t = tb@;
    let hv = header_bytes();
    if tb.len() < 37 || !matches_at(tb, 0, hv.as_slice()) || tb[36] != DOT {
        proof {
            assert forall|c: Seq<u8>, s: Seq<u8>| segments(t, c, s) implies !signature_valid(
                c,
                s,
                key@,
            ) by {
                assert(t.subrange(0, 36) =~= header_seg());
                assert(t[36] == DOT);
            }
        }
        return Err(VerifyError::InvalidSignature);
    }
    let i = find_byte(tb, 37, DOT);
    let j = if i < tb.len() {
        find_byte(tb, i + 1, DOT)
    } else {
        i
    };
    if i == tb.len() || j != tb.len() {
        proof {
            assert forall|c: Seq<u8>, s: Seq<u8>| segments(t, c, s) implies !signature_valid(
                c,
                s,
                key@,
            ) by {
                lemma_segments_unique(t, c, s, i as int);
                if j < t.len() {
                    assert(t.subrange(i + 1, t.len() as int)[j - i - 1] == t[j as int]);
                }
            }
        }
        return Err(VerifyError::InvalidSignature);
    }
    let c = copy_range(tb, 37, i);
    let msg = copy_range(tb, 0, i);
    let sg = copy_range(tb, i + 1, tb.len());
    proof {
        assert(msg@ =~= signing_input(c@));
        assert(t =~= signing_input(c@) + seq![DOT] + sg@);
        assert(segments(t, c@, sg@));
        assert forall|c2: Seq<u8>, s2: Seq<u8>| segments(t, c2, s2) implies c2 == c@ && s2
            == sg@ by {
            lemma_segments_unique(t, c2, s2, i as int);
        }
    }
    let ghost sgv = sg@;
    let sig = match utf8_string(sg) {
        Some(s) => s,
        None => {
            return Err(VerifyError::InvalidSignature);
        },
    };
    if !hs256_verify(sig.as_str(), msg.as_slice(), key) {
        return Err(VerifyError::InvalidSignature);
    }
    assert(signature_valid(c@, sgv, key@));
    let b = match b64url_decode(c.as_slice()) {
        Some(b) => b,
        None => {
            return Err(VerifyError::MalformedClaims);
        },
    };
    let cl = match decode_claims(b.as_slice()) {
        Some(cl) => cl,
        None => {
            return Err(VerifyError::MalformedClaims);
        },
    };
    let Claims { sub: s, exp } = cl;
    proof {
        assert forall|s2: Seq<char>, e2: u64|
            c@ == #[trigger] claims_segment(s2, e2 as nat) implies s2 == s@ && e2 == exp by {
            assert(b@ == claims_bytes(s2, e2 as nat));
        }
    }
    assert(c@ == claims_segment(s@, exp as nat));
    if now < exp {
        Ok(s)
    } else {
        Err(VerifyError::Expired)
    }
}

/// The current time as seconds since the epoch; instants before it read as 0.
pub(crate) fn now_secs() -> u64 {
    match now_utc() {
        Some(t) => t,
        None => 0,
    }
}

/// Issues a token for `subject` that expires `ttl` seconds from now.
pub fn issue_now(subject: &str, ttl: i64, key: &[u8]) -> (r: Result<String, IssueError>)
    ensures
        exists|now: u64| #[trigger] issued_as(subject@, ttl, now, key@, r),
{
    issue(subject, ttl, now_secs(), key)
}

/// Checks `token` under `key` at the current time.
pub fn verify_now(token: &str, key: &[u8]) -> (r: Result<String, VerifyError>)
    ensures
        exists|now: u64| #[trigger] verified(encode_utf8(token@), key@, now, r),
{
    verify(token, key, now_secs())
}

} // verus!
