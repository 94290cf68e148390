use kanban::auth::{classify_lookup, parse_auth_header, Auth, AuthOutcome, StoreReply};
use kanban::errors::AuthError;
use kanban::models::Token;
use kanban::store::KanbanDb;

fn token(id: &str, expired_at: i64) -> Token {
    Token { id: id.to_string(), expired_at }
}

#[test]
fn missing_header_is_empty_auth() {
    assert!(matches!(parse_auth_header(None), Err(AuthError::EmptyAuth)));
}

#[test]
fn empty_header_is_malformed() {
    assert!(matches!(parse_auth_header(Some("")), Err(AuthError::Malformed)));
}

#[test]
fn whitespace_only_header_is_malformed() {
    assert!(matches!(parse_auth_header(Some("   \t ")), Err(AuthError::Malformed)));
}

#[test]
fn malformed_code_differs_from_empty_auth_code() {
    assert_ne!(AuthError::Malformed.code(), AuthError::EmptyAuth.code());
}

#[test]
fn basic_scheme_is_invalid_type() {
    assert!(matches!(parse_auth_header(Some("Basic abc123")), Err(AuthError::InvalidType)));
}

#[test]
fn lowercase_bearer_is_invalid_type() {
    assert!(matches!(parse_auth_header(Some("bearer tok-1")), Err(AuthError::InvalidType)));
}

#[test]
fn bearer_without_token_is_missing_bearer_token() {
    assert!(matches!(parse_auth_header(Some("Bearer")), Err(AuthError::MissingBearerToken)));
    assert!(matches!(parse_auth_header(Some("Bearer   ")), Err(AuthError::MissingBearerToken)));
}

#[test]
fn bearer_token_is_extracted() {
    assert_eq!(parse_auth_header(Some("Bearer tok-xyz")).unwrap(), "tok-xyz");
}

#[test]
fn surrounding_whitespace_is_tolerated_and_rest_ignored() {
    assert_eq!(parse_auth_header(Some("  Bearer \t tok-1  trailing junk")).unwrap(), "tok-1");
}

#[test]
fn auth_error_statuses() {
    assert_eq!(AuthError::EmptyAuth.status_code(), 401);
    assert_eq!(AuthError::Malformed.status_code(), 401);
    assert_eq!(AuthError::InvalidType.status_code(), 401);
    assert_eq!(AuthError::MissingBearerToken.status_code(), 401);
    assert_eq!(AuthError::InvalidToken.status_code(), 401);
    assert_eq!(AuthError::InternalError.status_code(), 500);
}

#[test]
fn classify_lookup_no_match_is_invalid_token() {
    assert!(matches!(classify_lookup(StoreReply::NoMatch), Err(AuthError::InvalidToken)));
}

#[test]
fn classify_lookup_unavailable_is_internal_error() {
    assert!(matches!(classify_lookup(StoreReply::Unavailable), Err(AuthError::InternalError)));
}

#[test]
fn classify_lookup_found_returns_the_token() {
    let t = classify_lookup(StoreReply::Found(token("tok-1", 99))).unwrap();
    assert_eq!(t.id, "tok-1");
    assert_eq!(t.expired_at, 99);
}

#[test]
fn gate_resolves_exactly_once() {
    let mut db = KanbanDb::new();
    assert!(db.add_token(token("tok-1", 1_000)));
    let mut gate = Auth::new();
    assert_eq!(gate.evaluations, 0);
    gate.resolve(Some("Bearer tok-1"), &db, 10);
    assert_eq!(gate.evaluations, 1);
    assert!(matches!(gate.outcome(), AuthOutcome::Authenticated(t) if t.id == "tok-1"));
    // later consumers re-ask within the same request: nothing is re-run
    gate.resolve(Some("Bearer tok-1"), &db, 10);
    gate.resolve(None, &db, 10);
    assert_eq!(gate.evaluations, 1);
    assert!(matches!(gate.outcome(), AuthOutcome::Authenticated(t) if t.id == "tok-1"));
}

#[test]
fn gate_rejects_unknown_token() {
    let db = KanbanDb::new();
    let mut gate = Auth::new();
    gate.resolve(Some("Bearer tok-xyz"), &db, 10);
    assert!(matches!(gate.outcome(), AuthOutcome::Rejected(AuthError::InvalidToken)));
}

#[test]
fn validate_token_checks_expiry_strictly() {
    let mut db = KanbanDb::new();
    assert!(db.add_token(token("tok-1", 100)));
    assert!(db.validate_token("tok-1", 99).is_some());
    // a token whose expiry instant has arrived is no longer usable
    assert!(db.validate_token("tok-1", 100).is_none());
    assert!(db.validate_token("tok-1", 101).is_none());
    assert!(db.validate_token("tok-2", 99).is_none());
}

#[test]
fn duplicate_token_id_is_refused() {
    let mut db = KanbanDb::new();
    assert!(db.add_token(token("tok-1", 100)));
    assert!(!db.add_token(token("tok-1", 999)));
    // the original row is untouched
    assert!(db.validate_token("tok-1", 500).is_none());
}
