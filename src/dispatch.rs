//! Maps a request to one of two flows, issuance or protected lookup, and
//! produces exactly one response for it.
use vstd::prelude::*;
use vstd::utf8::{decode_utf8_encode_utf8, encode_utf8};
use crate::bytes::{append_bytes, copy_range, matches_at};
use crate::claims::subject_ok;
use crate::primitives::{json_quoted, json_string, utf8_string};
use crate::store::IdentityStore;
use crate::token::{
    claims_segment, issue, issued, lemma_issued_valid, now_secs, segments, signature_valid,
    verify,
};

verus! {

/// The request methods the dispatcher tells apart.
#[derive(Debug, Clone, Copy, PartialEq, Eq, Structural)]
pub enum Method {
    Get,
    Post,
    Other,
}

/// A status code and a body.
pub struct Response {
    pub status: u16,
    pub body: Vec<u8>,
}

/// `/authenticate`
pub open spec fn authenticate_path() -> Seq<u8> {
    seq![47u8, 97, 117, 116, 104, 101, 110, 116, 105, 99, 97, 116, 101]
}

/// `/user`
pub open spec fn user_path() -> Seq<u8> {
    seq![47u8, 117, 115, 101, 114]
}

/// `Bearer `, with its one space.
pub open spec fn bearer_prefix() -> Seq<u8> {
    seq![66u8, 101, 97, 114, 101, 114, 32]
}

/// `Unauthorized`
pub open spec fn unauthorized_body() -> Seq<u8> {
    seq![85u8, 110, 97, 117, 116, 104, 111, 114, 105, 122, 101, 100]
}

/// `{"id":<id>,"name":<name>}` with both values as JSON string literals.
pub open spec fn record_json(id: Seq<char>, name: Seq<char>) -> Seq<u8> {
    seq![123u8, 34, 105, 100, 34, 58] + encode_utf8(json_quoted(id)) + seq![
        44u8,
        34,
        110,
        97,
        109,
        101,
        34,
        58,
    ] + encode_utf8(json_quoted(name)) + seq![125u8]
}

/// A header value as bytes, when present.
pub open spec fn header_bytes(a: Option<&str>) -> Option<Seq<u8>> {
    match a {
        Some(a) => Some(encode_utf8(a@)),
        None => None,
    }
}

/// The token an Authorization header value carries: what follows `Bearer `.
pub open spec fn bearer_token(a: Seq<u8>) -> Option<Seq<u8>> {
    if a.len() >= 7 && a.subrange(0, 7) == bearer_prefix() {
        Some(a.subrange(7, a.len() as int))
    } else {
        None
    }
}

/// The signing key, the token lifetime, the subject tokens are issued for, and
/// the identity records.
pub struct AuthService {
    pub key: Vec<u8>,
    pub ttl: i64,
    pub subject: String,
    pub store: IdentityStore,
}

impl AuthService {
    pub open spec fn wf(&self) -> bool {
        self.store.wf()
    }

    /// `r` is the response to `method` on `path` with Authorization header
    /// `auth` (as bytes), at time `now`.
    pub open spec fn responds(
        &self,
        method: Method,
        path: Seq<u8>,
        auth: Option<Seq<u8>>,
        now: u64,
        r: Response,
    ) -> bool {
        if method == Method::Post && path == authenticate_path() {
            let ok = subject_ok(self.subject@) && 0 <= now + self.ttl
                <= u64::MAX;
            &&& ok ==> r.status == 200 && issued(
                r.body@,
                self.subject@,
                (now + self.ttl) as nat,
                self.key@,
            )
            &&& !ok ==> r.status == 500 && r.body@.len() == 0
        } else if method == Method::Get && path == user_path() {
            &&& r.status == 200 || r.status == 401
            &&& r.status == 401 ==> r.body@ == unauthorized_body()
            &&& (auth is None || bearer_token(auth->0) is None) ==> r.status == 401
            &&& r.status == 200 ==> exists|c: Seq<u8>, s: Seq<u8>, sub: Seq<char>, exp: u64|
                segments(bearer_token(auth->0)->0, c, s) && signature_valid(c, s, self.key@) && c
                    == claims_segment(sub, exp as nat) && subject_ok(sub) && now < exp
                    && self.store@.contains_key(sub) && r.body@ == record_json(
                    sub,
                    self.store@[sub],
                )
            &&& forall|sub: Seq<char>, exp: u64|
                auth is Some && bearer_token(auth->0) is Some && subject_ok(sub) && #[trigger] issued(
                    bearer_token(auth->0)->0,
                    sub,
                    exp as nat,
                    self.key@,
                ) ==> if now >= exp || !self.store@.contains_key(sub) {
                    r.status == 401
                } else {
                    r.status == 200 && r.body@ == record_json(
                        sub,
                        self.store@[sub],
                    )
                }
        } else {
            r.status == 404 && r.body@.len() == 0
        }
    }

    /// Answers one request at time `now`.
    pub fn handle(&self, method: Method, path: &str, authorization: Option<&str>, now: u64) -> (r:
        Response)
        requires
            self.wf(),
        ensures
            self.responds(
                method,
                encode_utf8(path@),
                header_bytes(authorization),
                now,
                r,
            ),
    {
        let pb = path.as_bytes();
        let ap = authenticate_path_bytes();
        let up = user_path_bytes();
        let is_auth = pb.len() == ap.len() && matches_at(pb, 0, ap.as_slice());
        let is_user = pb.len() == up.len() && matches_at(pb, 0, up.as_slice());
        proof {
            assert(is_auth ==> pb@ =~= authenticate_path());
            assert(is_user ==> pb@ =~= user_path());
        }
        match method {
            Method::Post if is_auth => self.issuance(now),
            Method::Get if is_user => self.protected_lookup(authorization, now),
            _ => {
                proof {
                    assert(pb@ == authenticate_path() ==> pb@.subrange(0, 13) =~= pb@);
                    assert(pb@ == user_path() ==> pb@.subrange(0, 5) =~= pb@);
                }
                Response { status: 404, body: Vec::new() }
            },
        }
    }

    /// Answers one request at the current time.
    pub fn handle_now(&self, method: Method, path: &str, authorization: Option<&str>) -> (r:
        Response)
        requires
            self.wf(),
        ensures
            exists|now: u64|
                #[trigger] self.responds(
                    method,
                    encode_utf8(path@),
                    header_bytes(authorization),
                    now,
                    r,
                ),
    {
        self.handle(method, path, authorization, now_secs())
    }

    fn issuance(&self, now: u64) -> (r: Response)
        ensures
            self.responds(Method::Post, authenticate_path(), None, now, r),
    {
        let sj = self.subject.as_str();
        let k = self.key.as_slice();
        assert(sj@ == self.subject@);
        assert(k@ == self.key@);
        let res = issue(sj, self.ttl, now, k);
        match res {
            Ok(t) => {
                let mut body: Vec<u8> = Vec::new();
                append_bytes(&mut body, t.as_str().as_bytes());
                assert(body@ =~= encode_utf8(t@));
                assert(issued(body@, self.subject@, (now + self.ttl) as nat, self.key@));
                Response { status: 200, body }
            },
            Err(e) => {
                assert(!(subject_ok(self.subject@) && 0 <= now + self.ttl <= u64::MAX));
                Response { status: 500, body: Vec::new() }
            },
        }
    }

    fn protected_lookup(&self, authorization: Option<&str>, now: u64) -> (r: Response)
        requires
            self.wf(),
        ensures
            self.responds(
                Method::Get,
                user_path(),
                header_bytes(authorization),
                now,
                r,
            ),
    {
        let a = match authorization {
            Some(a) => a,
            None => {
                return unauthorized();
            },
        };
        let ab = a.as_bytes();
        let pre = bearer_prefix_bytes();
        if !matches_at(ab, 0, pre.as_slice()) {
            return unauthorized();
        }
        let rest = copy_range(ab, 7, ab.len());
        let ghost tk = rest@;
        assert(bearer_token(ab@) == Some(tk));
        let tok = match utf8_string(rest) {
            Some(t) => t,
            None => {
                proof {
                    assert forall|sub: Seq<char>, exp: u64| subject_ok(sub) && #[trigger] issued(
                        tk,
                        sub,
                        exp as nat,
                        self.key@,
                    ) implies false by {
                        lemma_issued_valid(tk, sub, exp as nat, self.key@);
                    }
                }
                return unauthorized();
            },
        };
        proof {
            decode_utf8_encode_utf8(tk);
        }
        match verify(tok.as_str(), self.key.as_slice(), now) {
            Err(_) => unauthorized(),
            Ok(sub) => match self.store.lookup(&sub) {
                None => unauthorized(),
                Some(u) => {
                    let body = record_body(&u.id, &u.name);
                    Response { status: 200, body }
                },
            },
        }
    }
}

/// A token that `/authenticate` handed out, presented as `Bearer <token>` to
/// `/user` before it expires, gets 200 and the record of the subject it was
/// issued for, when the store holds that subject.
pub proof fn lemma_authenticate_then_user(
    svc: &AuthService,
    now: u64,
    r1: Response,
    later: u64,
    r2: Response,
)
    requires
        svc.responds(Method::Post, authenticate_path(), None, now, r1),
        r1.status == 200,
        svc.responds(Method::Get, user_path(), Some(bearer_prefix() + r1.body@), later, r2),
        later < now + svc.ttl,
        svc.store@.contains_key(svc.subject@),
    ensures
        r2.status == 200,
        r2.body@ == record_json(svc.subject@, svc.store@[svc.subject@]),
{
    let a = bearer_prefix() + r1.body@;
    assert(a.subrange(0, 7) =~= bearer_prefix());
    assert(a.subrange(7, a.len() as int) =~= r1.body@);
    assert(bearer_token(a) == Some(r1.body@));
    assert(subject_ok(svc.subject@) && 0 <= now + svc.ttl <= u64::MAX);
    let exp = (now + svc.ttl) as u64;
    assert(exp as nat == (now + svc.ttl) as nat);
    assert(issued(bearer_token(a)->0, svc.subject@, exp as nat, svc.key@));
    assert(later < exp);
}

fn unauthorized() -> (r: Response)
    ensures
        r.status == 401,
        r.body@ == unauthorized_body(),
{
    let body: Vec<u8> = vec![85u8, 110, 97, 117, 116, 104, 111, 114, 105, 122, 101, 100];
    assert(body@ =~= unauthorized_body());
    Response { status: 401, body }
}

fn authenticate_path_bytes() -> (r: Vec<u8>)
    ensures
        r@ == authenticate_path(),
{
    let r: Vec<u8> = vec![47u8, 97, 117, 116, 104, 101, 110, 116, 105, 99, 97, 116, 101];
    assert(r@ =~= authenticate_path());
    r
}

fn user_path_bytes() -> (r: Vec<u8>)
    ensures
        r@ == user_path(),
{
    let r: Vec<u8> = vec![47u8, 117, 115, 101, 114];
    assert(r@ =~= user_path());
    r
}

fn bearer_prefix_bytes() -> (r: Vec<u8>)
    ensures
        r@ == bearer_prefix(),
{
    let r: Vec<u8> = vec![66u8, 101, 97, 114, 101, 114, 32];
    assert(r@ =~= bearer_prefix());
    r
}

/// The JSON wire form of an identity record.
pub fn record_body(id: &String, name: &String) -> (r: Vec<u8>)
    ensures
        r@ == record_json(id@, name@),
{
    let mut r: Vec<u8> = vec![123u8, 34, 105, 100, 34, 58];
    let q = json_string(id.as_str());
    append_bytes(&mut r, q.as_str().as_bytes());
    let mid: Vec<u8> = vec![44u8, 34, 110, 97, 109, 101, 34, 58];
    append_bytes(&mut r, mid.as_slice());
    let q2 = json_string(name.as_str());
    append_bytes(&mut r, q2.as_str().as_bytes());
    r.push(125);
    assert(r@ =~= record_json(id@, name@));
    r
}

} // verus!
