use vstd::prelude::*;
use vstd::utf8::encode_utf8;
use crate::bytes::{append_bytes, copy_range, find_last, lacks, matches_at};
use crate::primitives::{json_quoted, json_string, json_unquote};

verus! {

/// The signed payload of a token: a subject and an expiry instant.
pub struct Claims {
    /// The subject identifier.
    pub sub: String,
    /// Expiry, in seconds since the Unix epoch (UTC).
    pub exp: u64,
}

pub const COMMA: u8 = 44;
pub const CLOSE_BRACE: u8 = 125;

/// A subject identifier that a token can carry: any non-empty text.
pub open spec fn subject_ok(s: Seq<char>) -> bool {
    s.len() > 0
}

pub open spec fn is_digit(b: u8) -> bool {
    48 <= b <= 57
}

/// Decimal digits of `n`, most significant first, without leading zeros.
pub open spec fn dec(n: nat) -> Seq<u8>
    decreases n,
{
    if n < 10 {
        seq![(48 + n) as u8]
    } else {
        dec(n / 10).push((48 + n % 10) as u8)
    }
}

/// The number that a sequence of decimal digits denotes.
pub open spec fn digits_value(d: Seq<u8>) -> nat
    decreases d.len(),
{
    if d.len() == 0 {
        0
    } else {
        digits_value(d.drop_last()) * 10 + (d.last() - 48) as nat
    }
}

/// Digits in the form `dec` writes them: at least one, and no leading zero.
pub open spec fn canonical_digits(d: Seq<u8>) -> bool {
    d.len() > 0 && (forall|i: int| 0 <= i < d.len() ==> is_digit(d[i])) && (d.len() == 1 || d[0]
        != 48)
}

/// `{"sub":`
pub open spec fn sub_key() -> Seq<u8> {
    seq![123u8, 34, 115, 117, 98, 34, 58]
}

/// `,"exp":`
pub open spec fn exp_key() -> Seq<u8> {
    seq![44u8, 34, 101, 120, 112, 34, 58]
}

/// The subject as a JSON string literal, in UTF-8.
pub open spec fn quoted_bytes(s: Seq<char>) -> Seq<u8> {
    encode_utf8(json_quoted(s))
}

/// The canonical JSON encoding of the claims: `{"sub":<sub>,"exp":<exp>}`,
/// with the subject written as a JSON string literal.
pub open spec fn claims_bytes(sub: Seq<char>, exp: nat) -> Seq<u8> {
    sub_key() + quoted_bytes(sub) + exp_key() + dec(exp) + seq![CLOSE_BRACE]
}

pub proof fn lemma_dec(n: nat)
    ensures
        canonical_digits(dec(n)),
        digits_value(dec(n)) == n,
    decreases n,
{
    let d = dec(n);
    if n >= 10 {
        lemma_dec(n / 10);
        assert(d.drop_last() =~= dec(n / 10));
        assert(d[0] == dec(n / 10)[0]);
        assert(n / 10 * 10 + n % 10 == n) by (nonlinear_arith);
        assert(d.last() == 48 + n % 10);
        assert(digits_value(d) == digits_value(dec(n / 10)) * 10 + n % 10);
        let e = dec(n / 10);
        if e.len() == 1 {
            assert(e.drop_last() =~= Seq::<u8>::empty());
            assert(digits_value(Seq::<u8>::empty()) == 0);
            assert(digits_value(e) == e[0] - 48);
        }
        assert forall|i: int| 0 <= i < d.len() implies is_digit(d[i]) by {
            if i < d.len() - 1 {
                assert(d[i] == dec(n / 10)[i]);
            }
        }
    } else {
        assert(d.drop_last() =~= Seq::<u8>::empty());
        assert(d.last() == 48 + n);
        assert(digits_value(Seq::<u8>::empty()) == 0);
    }
}

proof fn lemma_value_positive(d: Seq<u8>)
    requires
        d.len() > 0,
        forall|i: int| 0 <= i < d.len() ==> is_digit(d[i]),
        d[0] != 48,
    ensures
        digits_value(d) >= 1,
    decreases d.len(),
{
    if d.len() > 1 {
        let e = d.drop_last();
        assert(e[0] == d[0]);
        assert forall|i: int| 0 <= i < e.len() implies is_digit(e[i]) by {
            assert(e[i] == d[i]);
        }
        lemma_value_positive(e);
    }
}

pub proof fn lemma_canonical_digits(d: Seq<u8>)
    requires
        canonical_digits(d),
    ensures
        dec(digits_value(d)) == d,
    decreases d.len(),
{
    if d.len() == 1 {
        assert(d.drop_last() =~= Seq::<u8>::empty());
        assert(digits_value(Seq::<u8>::empty()) == 0);
        assert(is_digit(d[0]));
        assert(digits_value(d) == d[0] - 48);
        assert(dec(digits_value(d)) =~= d);
    } else {
        let e = d.drop_last();
        assert(e[0] == d[0]);
        assert forall|i: int| 0 <= i < e.len() implies is_digit(e[i]) by {
            assert(e[i] == d[i]);
        }
        lemma_value_positive(e);
        lemma_canonical_digits(e);
        let v = digits_value(d);
        let k = (d.last() - 48) as nat;
        assert(is_digit(d[d.len() - 1]));
        assert(v == digits_value(e) * 10 + k);
        assert(v / 10 == digits_value(e) && v % 10 == k) by (nonlinear_arith)
            requires
                v == digits_value(e) * 10 + k,
                k < 10,
        ;
        assert(dec(v) =~= d);
    }
}

/// Appends the decimal digits of `n` to `out`.
pub fn push_decimal(out: &mut Vec<u8>, n: u64)
    ensures
        final(out)@ == old(out)@ + dec(n as nat),
    decreases n,
{
    if n >= 10 {
        push_decimal(out, n / 10);
    }
    out.push(48 + (n % 10) as u8);
    assert(final(out)@ =~= old(out)@ + dec(n as nat));
}

fn sub_key_bytes() -> (r: Vec<u8>)
    ensures
        r@ == sub_key(),
{
    let r: Vec<u8> = vec![123u8, 34, 115, 117, 98, 34, 58];
    assert(r@ =~= sub_key());
    r
}

fn exp_key_bytes() -> (r: Vec<u8>)
    ensures
        r@ == exp_key(),
{
    let r: Vec<u8> = vec![44u8, 34, 101, 120, 112, 34, 58];
    assert(r@ =~= exp_key());
    r
}

/// Encodes claims into their canonical JSON form.
pub fn encode_claims(sub: &str, exp: u64) -> (r: Vec<u8>)
    ensures
        r@ == claims_bytes(sub@, exp as nat),
{
    let mut r = sub_key_bytes();
    let q = json_string(sub);
    append_bytes(&mut r, q.as_str().as_bytes());
    let k = exp_key_bytes();
    append_bytes(&mut r, k.as_slice());
    push_decimal(&mut r, exp);
    r.push(CLOSE_BRACE);
    assert(r@ =~= claims_bytes(sub@, exp as nat));
    r
}

/// Reads `d` as canonical decimal digits of a `u64`.
pub fn parse_decimal(d: &[u8]) -> (r: Option<u64>)
    ensures
        r is Some <==> (canonical_digits(d@) && digits_value(d@) <= u64::MAX),
        r is Some ==> r->0 as nat == digits_value(d@),
{
    if d.len() == 0 || (d.len() > 1 && d[0] == 48) {
        return None;
    }
    let mut v: u64 = 0;
    let mut i: usize = 0;
    while i < d.len()
        invariant
            0 <= i <= d@.len(),
            forall|j: int| 0 <= j < i ==> is_digit(d@[j]),
            v as nat == digits_value(d@.subrange(0, i as int)),
        decreases d.len() - i,
    {
        let c = d[i];
        assert(d@.subrange(0, i + 1).drop_last() =~= d@.subrange(0, i as int));
        if c < 48 || c > 57 {
            return None;
        }
        let k = (c - 48) as u64;
        if v > (u64::MAX - k) / 10 {
            proof {
                let pre = d@.subrange(0, i + 1);
                assert(digits_value(pre) > u64::MAX) by (nonlinear_arith)
                    requires
                        digits_value(pre) == v * 10 + k,
                        v > (u64::MAX - k) / 10,
                        k <= 9,
                ;
                if forall|j: int| 0 <= j < d@.len() ==> is_digit(d@[j]) {
                    lemma_value_grows(d@, i as int + 1);
                }
            }
            return None;
        }
        v = v * 10 + k;
        i = i + 1;
    }
    assert(d@.subrange(0, d@.len() as int) =~= d@);
    Some(v)
}

/// The value of a digit prefix never exceeds that of the whole.
proof fn lemma_value_grows(d: Seq<u8>, i: int)
    requires
        0 <= i <= d.len(),
        forall|j: int| 0 <= j < d.len() ==> is_digit(d[j]),
    ensures
        digits_value(d.subrange(0, i)) <= digits_value(d),
    decreases d.len() - i,
{
    if i < d.len() {
        lemma_value_grows(d, i + 1);
        let a = d.subrange(0, i + 1);
        assert(a.drop_last() =~= d.subrange(0, i));
    } else {
        assert(d.subrange(0, i) =~= d);
    }
}

/// Decodes the canonical JSON form of claims; `None` for any other input.
pub fn decode_claims(b: &[u8]) -> (r: Option<Claims>)
    ensures
        r is Some ==> subject_ok(r->0.sub@) && b@ == claims_bytes(r->0.sub@, r->0.exp as nat),
        r is Some ==> forall|sub: Seq<char>, exp: u64|
            b@ == #[trigger] claims_bytes(sub, exp as nat) ==> r->0.sub@ == sub && r->0.exp == exp,
        r is None ==> forall|sub: Seq<char>, exp: u64|
            subject_ok(sub) ==> b@ != #[trigger] claims_bytes(sub, exp as nat),
{
    let n = b.len();
    let sk = sub_key_bytes();
    let ek = exp_key_bytes();
    if !matches_at(b, 0, sk.as_slice()) {
        proof { lemma_no_claims_prefix(b@); }
        return None;
    }
    let k = find_last(b, COMMA);
    if k == n || k < 7 || !matches_at(b, k, ek.as_slice()) || b[n - 1] != CLOSE_BRACE || k + 7
        > n - 1 {
        proof { lemma_no_claims_split(b@, k as int); }
        return None;
    }
    let q = copy_range(b, 7, k);
    let digits = copy_range(b, k + 7, n - 1);
    proof {
        assert forall|sub: Seq<char>, exp: u64| b@ == #[trigger] claims_bytes(sub, exp as nat)
            implies q@ == quoted_bytes(sub) && digits@ == dec(exp as nat) by {
            lemma_claims_layout(sub, exp);
            lemma_last_comma(b@, k as int, 7 + quoted_bytes(sub).len() as int);
        }
    }
    let exp = match parse_decimal(digits.as_slice()) {
        Some(e) => e,
        None => {
            proof {
                assert forall|sub: Seq<char>, exp: u64| subject_ok(sub) implies b@
                    != #[trigger] claims_bytes(sub, exp as nat) by {
                    if b@ == claims_bytes(sub, exp as nat) {
                        lemma_dec(exp as nat);
                    }
                }
            }
            return None;
        },
    };
    let ghost qv = q@;
    let s = match json_unquote(q.as_slice()) {
        Some(s) => s,
        None => {
            proof {
                assert forall|sub: Seq<char>, exp: u64| subject_ok(sub) implies b@
                    != #[trigger] claims_bytes(sub, exp as nat) by {
                    if b@ == claims_bytes(sub, exp as nat) {
                        assert(qv == encode_utf8(json_quoted(sub)));
                    }
                }
            }
            return None;
        },
    };
    let rq = json_string(s.as_str());
    let rb = rq.as_str().as_bytes();
    if s.as_str().is_empty() || rb.len() != q.len() || !matches_at(rb, 0, q.as_slice()) {
        proof {
            assert forall|sub: Seq<char>, exp: u64| subject_ok(sub) implies b@
                != #[trigger] claims_bytes(sub, exp as nat) by {
                if b@ == claims_bytes(sub, exp as nat) {
                    assert(qv == encode_utf8(json_quoted(sub)));
                    assert(s@ == sub);
                    assert(rb@.subrange(0, q@.len() as int) =~= rb@);
                }
            }
        }
        return None;
    }
    proof {
        assert(rb@ =~= q@);
        lemma_canonical_digits(digits@);
        lemma_claims_layout(s@, exp);
        assert(b@ =~= claims_bytes(s@, exp as nat));
        assert forall|sub: Seq<char>, e2: u64| b@ == #[trigger] claims_bytes(sub, e2 as nat)
            implies s@ == sub && exp == e2 by {
            lemma_dec(e2 as nat);
            lemma_dec(exp as nat);
        }
    }
    Some(Claims { sub: s, exp })
}

proof fn lemma_no_claims_prefix(b: Seq<u8>)
    requires
        !(7 <= b.len() && b.subrange(0, 7) == sub_key()),
    ensures
        forall|sub: Seq<char>, exp: u64| b != #[trigger] claims_bytes(sub, exp as nat),
{
    assert forall|sub: Seq<char>, exp: u64| b != #[trigger] claims_bytes(sub, exp as nat) by {
        if b == claims_bytes(sub, exp as nat) {
            assert(b.subrange(0, 7) =~= sub_key());
        }
    }
}

/// Where encoded claims put the subject literal, the expiry key and the digits.
proof fn lemma_claims_layout(sub: Seq<char>, exp: u64)
    ensures
        ({
            let b = claims_bytes(sub, exp as nat);
            let k: int = 7 + quoted_bytes(sub).len() as int;
            &&& b.len() == k + 7 + dec(exp as nat).len() + 1
            &&& b.subrange(0, 7) == sub_key()
            &&& b.subrange(7, k) == quoted_bytes(sub)
            &&& b[k] == COMMA
            &&& lacks(b.subrange(k + 1, b.len() as int), COMMA)
            &&& b.subrange(k, k + 7) == exp_key()
            &&& b.subrange(k + 7, b.len() - 1) == dec(exp as nat)
            &&& b[b.len() - 1] == CLOSE_BRACE
        }),
{
    let b = claims_bytes(sub, exp as nat);
    let k: int = 7 + quoted_bytes(sub).len() as int;
    lemma_dec(exp as nat);
    assert(b.subrange(0, 7) =~= sub_key());
    assert(b.subrange(7, k) =~= quoted_bytes(sub));
    assert(b.subrange(k, k + 7) =~= exp_key());
    assert(b.subrange(k + 7, b.len() - 1) =~= dec(exp as nat));
    assert(b[k] == exp_key()[0]);
    assert forall|i: int| 0 <= i < b.len() - k - 1 implies #[trigger] b.subrange(
        k + 1,
        b.len() as int,
    )[i] != COMMA by {
        if i + k + 1 >= k + 7 && i + k + 1 < b.len() - 1 {
            assert(b[i + k + 1] == dec(exp as nat)[i + k + 1 - k - 7]);
        }
    }
}

/// Two positions that each hold the last comma of `b` are equal.
proof fn lemma_last_comma(b: Seq<u8>, k1: int, k2: int)
    requires
        0 <= k1 < b.len(),
        0 <= k2 < b.len(),
        b[k1] == COMMA,
        b[k2] == COMMA,
        lacks(b.subrange(k1 + 1, b.len() as int), COMMA),
        lacks(b.subrange(k2 + 1, b.len() as int), COMMA),
    ensures
        k1 == k2,
{
    if k1 < k2 {
        assert(b.subrange(k1 + 1, b.len() as int)[k2 - k1 - 1] == b[k2]);
    } else if k2 < k1 {
        assert(b.subrange(k2 + 1, b.len() as int)[k1 - k2 - 1] == b[k1]);
    }
}

proof fn lemma_no_claims_split(b: Seq<u8>, k: int)
    requires
        0 <= k <= b.len(),
        k < b.len() ==> b[k] == COMMA && lacks(b.subrange(k + 1, b.len() as int), COMMA),
        k == b.len() ==> lacks(b, COMMA),
        !(k != b.len() && 7 <= k && k + 7 <= b.len() && b.subrange(k, k + 7) == exp_key() && b[b.len()
            - 1] == CLOSE_BRACE && k + 7 <= b.len() - 1),
    ensures
        forall|sub: Seq<char>, exp: u64| b != #[trigger] claims_bytes(sub, exp as nat),
{
    assert forall|sub: Seq<char>, exp: u64| b != #[trigger] claims_bytes(sub, exp as nat) by {
        if b == claims_bytes(sub, exp as nat) {
            lemma_claims_layout(sub, exp);
            let k2: int = 7 + quoted_bytes(sub).len() as int;
            if k == b.len() {
                assert(b[k2] == COMMA);
            } else {
                lemma_last_comma(b, k, k2);
            }
            lemma_dec(exp as nat);
        }
    }
}

} // verus!
