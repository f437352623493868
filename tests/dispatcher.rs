use bearer_auth::dispatch::{record_body, AuthService, Method};
use bearer_auth::store::{IdentityStore, User};
use bearer_auth::token::issue;

const NOW: u64 = 1_700_000_000;

fn service() -> AuthService {
    let mut store = IdentityStore::new();
    store.insert(User { id: "1".to_string(), name: "Alice".to_string() });
    AuthService { key: b"secret".to_vec(), ttl: 86_400, subject: "1".to_string(), store }
}

#[test]
fn end_to_end_authenticate_then_user() {
    let svc = service();
    let r = svc.handle(Method::Post, "/authenticate", None, NOW);
    assert_eq!(r.status, 200);
    let token = String::from_utf8(r.body).unwrap();
    let header = format!("Bearer {}", token);
    let u = svc.handle(Method::Get, "/user", Some(&header), NOW + 5);
    assert_eq!(u.status, 200);
    assert_eq!(String::from_utf8(u.body).unwrap(), "{\"id\":\"1\",\"name\":\"Alice\"}");
}

#[test]
fn handle_now_serves_a_fresh_token() {
    let svc = service();
    let r = svc.handle_now(Method::Post, "/authenticate", None);
    assert_eq!(r.status, 200);
    let header = format!("Bearer {}", String::from_utf8(r.body).unwrap());
    let u = svc.handle_now(Method::Get, "/user", Some(&header));
    assert_eq!(u.status, 200);
}

#[test]
fn missing_header_is_unauthorized() {
    let r = service().handle(Method::Get, "/user", None, NOW);
    assert_eq!(r.status, 401);
    assert_eq!(r.body, b"Unauthorized".to_vec());
}

#[test]
fn wrong_scheme_is_unauthorized() {
    let svc = service();
    let r = svc.handle(Method::Get, "/user", Some("Basic xxx"), NOW);
    assert_eq!(r.status, 401);
    assert_eq!(r.body, b"Unauthorized".to_vec());
    let t = issue("1", 60, NOW, b"secret").unwrap();
    for h in [format!("bearer {}", t), format!("Bearer  {}", t), t.clone()] {
        assert_eq!(svc.handle(Method::Get, "/user", Some(&h), NOW).status, 401);
    }
}

#[test]
fn unknown_subject_is_unauthorized() {
    let svc = service();
    let t = issue("2", 60, NOW, b"secret").unwrap();
    let r = svc.handle(Method::Get, "/user", Some(&format!("Bearer {}", t)), NOW);
    assert_eq!(r.status, 401);
    assert_eq!(r.body, b"Unauthorized".to_vec());
}

#[test]
fn expired_or_forged_token_is_unauthorized() {
    let svc = service();
    let t = issue("1", 60, NOW, b"secret").unwrap();
    let r = svc.handle(Method::Get, "/user", Some(&format!("Bearer {}", t)), NOW + 60);
    assert_eq!(r.status, 401);
    let f = issue("1", 60, NOW, b"other").unwrap();
    let r = svc.handle(Method::Get, "/user", Some(&format!("Bearer {}", f)), NOW);
    assert_eq!(r.status, 401);
    assert_eq!(r.body, b"Unauthorized".to_vec());
}

#[test]
fn unmatched_route_is_not_found() {
    let svc = service();
    for (m, p) in [
        (Method::Get, "/unknown"),
        (Method::Get, "/authenticate"),
        (Method::Post, "/user"),
        (Method::Other, "/user"),
        (Method::Get, "/user/"),
        (Method::Get, ""),
    ] {
        let r = svc.handle(m, p, None, NOW);
        assert_eq!(r.status, 404);
        assert!(r.body.is_empty());
    }
}

#[test]
fn issuance_failure_is_server_error() {
    let mut svc = service();
    svc.ttl = 1;
    let r = svc.handle(Method::Post, "/authenticate", None, u64::MAX);
    assert_eq!(r.status, 500);
    assert!(r.body.is_empty());
}

#[test]
fn record_body_escapes_strings() {
    assert_eq!(
        String::from_utf8(record_body(&"7".to_string(), &"A \"Q\"\n".to_string())).unwrap(),
        "{\"id\":\"7\",\"name\":\"A \\\"Q\\\"\\n\"}"
    );
}

#[test]
fn store_insert_replaces_and_lookup_finds() {
    let mut s = IdentityStore::new();
    assert!(s.lookup(&"1".to_string()).is_none());
    s.insert(User { id: "1".to_string(), name: "Alice".to_string() });
    s.insert(User { id: "2".to_string(), name: "Bob".to_string() });
    s.insert(User { id: "1".to_string(), name: "Alicia".to_string() });
    assert_eq!(s.lookup(&"1".to_string()).unwrap().name, "Alicia");
    assert_eq!(s.lookup(&"2".to_string()).unwrap().name, "Bob");
    assert!(s.lookup(&"3".to_string()).is_none());
}
