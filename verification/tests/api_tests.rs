use kanban::api::{handle_request, ApiRequest, ApiResponse, Operation};
use kanban::http_error::{HttpError, RouteResult};
use kanban::models::{CreateBoardDTO, CreateCardDTO, Status, Token, UpdateCardDTO};
use kanban::store::KanbanDb;

fn request(header: Option<&str>, op: Operation) -> ApiRequest {
    ApiRequest {
        authorization: header.map(|h| h.to_string()),
        url: "/api/boards".to_string(),
        op,
    }
}

fn seeded_db() -> KanbanDb {
    let mut db = KanbanDb::new();
    assert!(db.add_token(Token { id: "tok-valid".to_string(), expired_at: 1_000 }));
    db
}

fn expect_failure(r: RouteResult<ApiResponse>) -> HttpError {
    match r {
        RouteResult::Failure(e) => e,
        RouteResult::Success(_) => panic!("expected a failure envelope"),
    }
}

fn expect_success(r: RouteResult<ApiResponse>) -> ApiResponse {
    match r {
        RouteResult::Success(v) => v,
        RouteResult::Failure(e) => panic!("expected success, got {} {}", e.status_code, e.code),
    }
}

const NOW: i64 = 10;

#[test]
fn no_header_is_rejected_and_the_store_is_never_touched() {
    let mut db = seeded_db();
    let boards_before = db.boards().len();
    let e = expect_failure(handle_request(&mut db, request(None, Operation::ListBoards), NOW));
    assert_eq!(e.status_code, 401);
    assert_eq!(e.code, "EMPTY_AUTH");
    assert_eq!(e.message, "missing Authorization header");
    assert_eq!(e.url, "/api/boards");
    // even a mutating operation leaves the store exactly as it was
    let op = Operation::CreateBoard(CreateBoardDTO { name: "sneaky".to_string() });
    expect_failure(handle_request(&mut db, request(None, op), NOW));
    assert_eq!(db.boards().len(), boards_before);
}

#[test]
fn expired_and_missing_tokens_are_indistinguishable() {
    let mut db = seeded_db();
    assert!(db.add_token(Token { id: "tok-old".to_string(), expired_at: NOW }));
    let expired = expect_failure(handle_request(
        &mut db,
        request(Some("Bearer tok-old"), Operation::ListBoards),
        NOW,
    ));
    let missing = expect_failure(handle_request(
        &mut db,
        request(Some("Bearer tok-unknown"), Operation::ListBoards),
        NOW,
    ));
    assert_eq!(expired.code, missing.code);
    assert_eq!(expired.status_code, missing.status_code);
    assert_eq!(expired.message, missing.message);
    assert_eq!(expired.code, "INVALID_TOKEN");
    assert_eq!(expired.status_code, 401);
}

#[test]
fn expiry_is_reevaluated_on_every_request() {
    let mut db = KanbanDb::new();
    assert!(db.add_token(Token { id: "tok-short".to_string(), expired_at: 20 }));
    // first request: the token is still valid
    let r1 = handle_request(&mut db, request(Some("Bearer tok-short"), Operation::ListBoards), 15);
    expect_success(r1);
    // the token expires between the two requests; the second must fail
    let r2 = handle_request(&mut db, request(Some("Bearer tok-short"), Operation::ListBoards), 25);
    let e = expect_failure(r2);
    assert_eq!(e.code, "INVALID_TOKEN");
}

#[test]
fn scenario_basic_scheme() {
    let mut db = seeded_db();
    let e = expect_failure(handle_request(
        &mut db,
        request(Some("Basic abc123"), Operation::ListBoards),
        NOW,
    ));
    assert_eq!(e.status_code, 401);
    assert_eq!(e.code, "INVALID_AUTH_TYPE");
}

#[test]
fn scenario_bearer_without_token() {
    let mut db = seeded_db();
    let e = expect_failure(handle_request(
        &mut db,
        request(Some("Bearer"), Operation::ListBoards),
        NOW,
    ));
    assert_eq!(e.status_code, 401);
    assert_eq!(e.code, "MISSING_BEARER_TOKEN");
}

#[test]
fn scenario_unknown_bearer_token() {
    let mut db = seeded_db();
    let e = expect_failure(handle_request(
        &mut db,
        request(Some("Bearer tok-xyz"), Operation::ListBoards),
        NOW,
    ));
    assert_eq!(e.status_code, 401);
    assert_eq!(e.code, "INVALID_TOKEN");
}

#[test]
fn scenario_malformed_header_distinct_from_empty() {
    let mut db = seeded_db();
    let malformed = expect_failure(handle_request(
        &mut db,
        request(Some(""), Operation::ListBoards),
        NOW,
    ));
    let empty = expect_failure(handle_request(&mut db, request(None, Operation::ListBoards), NOW));
    assert_eq!(malformed.status_code, 401);
    assert_eq!(malformed.code, "MALFORMED_AUTH");
    assert_ne!(malformed.code, empty.code);
}

#[test]
fn authenticated_crud_round_trip() {
    let mut db = seeded_db();
    let auth = Some("Bearer tok-valid");
    let op = Operation::CreateBoard(CreateBoardDTO { name: "sprint".to_string() });
    let board = match expect_success(handle_request(&mut db, request(auth, op), NOW)) {
        ApiResponse::BoardItem(b) => b,
        _ => panic!("expected a board"),
    };
    assert_eq!(board.name, "sprint");
    let op = Operation::CreateCard(CreateCardDTO {
        board_id: board.id,
        description: "write it".to_string(),
    });
    let card = match expect_success(handle_request(&mut db, request(auth, op), NOW)) {
        ApiResponse::CardItem(c) => c,
        _ => panic!("expected a card"),
    };
    let op = Operation::UpdateCard(
        card.id,
        UpdateCardDTO { description: "ship it".to_string(), status: Status::Done },
    );
    let updated = match expect_success(handle_request(&mut db, request(auth, op), NOW)) {
        ApiResponse::CardItem(c) => c,
        _ => panic!("expected a card"),
    };
    assert_eq!(updated.id, card.id);
    assert_eq!(updated.description, "ship it");
    let op = Operation::ListCards(board.id);
    let cards = match expect_success(handle_request(&mut db, request(auth, op), NOW)) {
        ApiResponse::Cards(v) => v,
        _ => panic!("expected cards"),
    };
    assert_eq!(cards.len(), 1);
    assert_eq!(cards[0].description, "ship it");
    let op = Operation::BoardSummary(board.id);
    let summary = match expect_success(handle_request(&mut db, request(auth, op), NOW)) {
        ApiResponse::Summary(s) => s,
        _ => panic!("expected a summary"),
    };
    assert_eq!((summary.todo, summary.doing, summary.done), (0, 0, 1));
    let op = Operation::DeleteBoard(board.id);
    assert!(matches!(
        expect_success(handle_request(&mut db, request(auth, op), NOW)),
        ApiResponse::NoContent
    ));
    let op = Operation::ListCards(board.id);
    let cards = match expect_success(handle_request(&mut db, request(auth, op), NOW)) {
        ApiResponse::Cards(v) => v,
        _ => panic!("expected cards"),
    };
    assert_eq!(cards.len(), 0);
}

#[test]
fn update_of_missing_card_is_not_found() {
    let mut db = seeded_db();
    let op = Operation::UpdateCard(
        404,
        UpdateCardDTO { description: "x".to_string(), status: Status::Todo },
    );
    let e = expect_failure(handle_request(&mut db, request(Some("Bearer tok-valid"), op), NOW));
    assert_eq!(e.status_code, 404);
    assert_eq!(e.code, "NOT_FOUND");
}

#[test]
fn create_card_on_missing_board_is_a_storage_error() {
    let mut db = seeded_db();
    let op = Operation::CreateCard(CreateCardDTO {
        board_id: 123,
        description: "orphan".to_string(),
    });
    let e = expect_failure(handle_request(&mut db, request(Some("Bearer tok-valid"), op), NOW));
    assert_eq!(e.status_code, 500);
    assert_eq!(e.code, "INTERNAL_SERVER_ERROR");
    assert_eq!(e.message, "Something went wrong");
}

#[test]
fn trace_ids_are_fresh_per_error() {
    let mut db = seeded_db();
    let e1 = expect_failure(handle_request(&mut db, request(None, Operation::ListBoards), NOW));
    let e2 = expect_failure(handle_request(&mut db, request(None, Operation::ListBoards), NOW));
    assert_eq!(e1.x_trace_id.len(), 36);
    assert_eq!(e2.x_trace_id.len(), 36);
    assert_ne!(e1.x_trace_id, e2.x_trace_id);
}

#[test]
fn sanitizer_passes_handled_envelopes_and_scrubs_internal_ones() {
    let handled = HttpError::not_found("/missing".to_string());
    assert!(!handled.is_unhandled());
    let kept = handled.sanitized();
    assert_eq!(kept.status_code, 404);
    assert_eq!(kept.code, "NOT_FOUND");
    assert_eq!(kept.message, "Route not found");
    let loud = HttpError::from_message(
        500,
        "secret storage detail".to_string(),
        "/boards".to_string(),
    );
    assert!(loud.is_unhandled());
    let scrubbed = loud.sanitized();
    assert_eq!(scrubbed.status_code, 500);
    assert_eq!(scrubbed.message, "Something went wrong");
    assert_eq!(scrubbed.url, "/boards");
}

#[test]
fn internal_envelope_defaults_to_a_generic_message() {
    let e = HttpError::internal(None, "/x".to_string());
    assert_eq!(e.status_code, 500);
    assert_eq!(e.code, "INTERNAL_SERVER_ERROR");
    assert_eq!(e.message, "Something went wrong");
    let with_msg = HttpError::internal(Some("pool timed out".to_string()), "/x".to_string());
    assert_eq!(with_msg.message, "pool timed out");
}
