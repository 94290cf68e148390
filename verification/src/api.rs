//! The uniform request pipeline: every request passes the authentication
//! gate before any service operation runs, a rejected request is answered
//! with its classified envelope and touches the store not at all, and each
//! accepted request performs exactly one service operation.

use crate::auth::{spec_gate, Auth, AuthOutcome};
use crate::errors::{AuthError, ServiceError};
use crate::http_error::{auth_error_response, envelope_matches, service_error_response,
    RouteResult};
use crate::models::{Board, BoardSummary, Card, CreateBoardDTO, CreateCardDTO, Status,
    UpdateCardDTO};
use crate::store::{board_views, card_views, update_one, KanbanDb, StoreView};
use vstd::prelude::*;

verus! {

/// One of the eight data operations of the service.
pub enum Operation {
    ListBoards,
    CreateBoard(CreateBoardDTO),
    BoardSummary(i64),
    DeleteBoard(i64),
    ListCards(i64),
    CreateCard(CreateCardDTO),
    UpdateCard(i64, UpdateCardDTO),
    DeleteCard(i64),
}

/// An inbound request: its `Authorization` header (if any), its URL for the
/// error envelope, and the operation it asks for.
pub struct ApiRequest {
    pub authorization: Option<String>,
    pub url: String,
    pub op: Operation,
}

/// The payload of a successful response.
pub enum ApiResponse {
    Boards(Vec<Board>),
    BoardItem(Board),
    Cards(Vec<Card>),
    CardItem(Card),
    Summary(BoardSummary),
    NoContent,
}

/// The header of a request, as the guard's view of the request has it.
pub open spec fn req_header_view(req: &ApiRequest) -> Option<Seq<char>> {
    match req.authorization {
        Some(s) => Some(s@),
        None => None,
    }
}

/// The response is the envelope of the given service failure, for this URL.
pub open spec fn failure_matches(r: &RouteResult<ApiResponse>, kind: ServiceError, url: Seq<char>) -> bool {
    r matches RouteResult::Failure(e) && envelope_matches(
        e,
        kind.spec_status(),
        kind.spec_code(),
        kind.spec_message(),
        url,
    )
}

/// The response is the envelope of the given authentication rejection, for
/// this URL.
pub open spec fn auth_failure_matches(r: &RouteResult<ApiResponse>, kind: AuthError, url: Seq<char>) -> bool {
    r matches RouteResult::Failure(e) && envelope_matches(
        e,
        kind.spec_status(),
        kind.spec_code(),
        kind.spec_message(),
        url,
    )
}

/// What an authenticated request must have done: for each operation, the
/// store moves to exactly the specified state and the response carries
/// exactly the specified payload or failure envelope.
pub open spec fn dispatched(
    pre: StoreView,
    op: &Operation,
    now: int,
    post: StoreView,
    r: &RouteResult<ApiResponse>,
    url: Seq<char>,
) -> bool {
    match op {
        Operation::ListBoards => post == pre && (r matches RouteResult::Success(
            ApiResponse::Boards(v),
        ) && board_views(v@) == pre.boards),
        Operation::CreateBoard(dto) => if pre.next_board_id < i64::MAX {
            post == pre.spec_create_board(dto.name@, now) && (r matches RouteResult::Success(
                ApiResponse::BoardItem(b),
            ) && b@ == pre.spec_new_board(dto.name@, now))
        } else {
            post == pre && failure_matches(r, ServiceError::StorageError, url)
        },
        Operation::BoardSummary(id) => post == pre && (r matches RouteResult::Success(
            ApiResponse::Summary(s),
        ) && s.todo == pre.count_of(*id as int, Status::Todo) && s.doing == pre.count_of(
            *id as int,
            Status::Doing,
        ) && s.done == pre.count_of(*id as int, Status::Done)),
        Operation::DeleteBoard(id) => post == pre.spec_delete_board(*id as int) && (
        r matches RouteResult::Success(ApiResponse::NoContent)),
        Operation::ListCards(id) => post == pre && (r matches RouteResult::Success(
            ApiResponse::Cards(v),
        ) && card_views(v@) == pre.cards_of(*id as int)),
        Operation::CreateCard(dto) => if pre.has_board(dto.board_id as int) && pre.next_card_id
            < i64::MAX {
            post == pre.spec_create_card(dto.board_id as int, dto.description@, now) && (
            r matches RouteResult::Success(ApiResponse::CardItem(c)) && c@ == pre.spec_new_card(
                dto.board_id as int,
                dto.description@,
                now,
            ))
        } else {
            post == pre && failure_matches(r, ServiceError::StorageError, url)
        },
        Operation::UpdateCard(id, dto) => if pre.has_card(*id as int) {
            post == pre.spec_update_card(*id as int, dto.description@, dto.status) && (
            r matches RouteResult::Success(ApiResponse::CardItem(c)) && c@ == update_one(
                pre.card_at(*id as int),
                *id as int,
                dto.description@,
                dto.status,
            ))
        } else {
            post == pre && failure_matches(r, ServiceError::NotFound, url)
        },
        Operation::DeleteCard(id) => post == pre.spec_delete_card(*id as int) && (
        r matches RouteResult::Success(ApiResponse::NoContent)),
    }
}

/// Runs one request through the pipeline: the authentication gate resolves
/// first, a rejection is answered with its envelope and leaves the store
/// untouched, and only an authenticated request reaches the service, which
/// then performs its one operation exactly.  In particular a request with no
/// `Authorization` header at all is rejected as `EmptyAuth` with the store
/// unchanged, whatever it holds.
pub fn handle_request(db: &mut KanbanDb, req: ApiRequest, now: i64) -> (r: RouteResult<
    ApiResponse,
>)
    requires
        old(db)@.wf(),
    ensures
        final(db)@.wf(),
        (spec_gate(req_header_view(&req), old(db)@, now as int) matches Err(k) ==> (final(db)@
            == old(db)@ && auth_failure_matches(&r, k, req.url@))),
        (spec_gate(req_header_view(&req), old(db)@, now as int) is Ok ==> dispatched(
            old(db)@,
            &req.op,
            now as int,
            final(db)@,
            &r,
            req.url@,
        )),
        req.authorization is None ==> (final(db)@ == old(db)@ && auth_failure_matches(
            &r,
            AuthError::EmptyAuth,
            req.url@,
        )),
{
    let ApiRequest { authorization, url, op } = req;
    let header: Option<&str> = match &authorization {
        Some(s) => Some(s.as_str()),
        None => None,
    };
    let mut gate = Auth::new();
    gate.resolve(header, db, now);
    match gate.outcome() {
        AuthOutcome::Rejected(kind) => {
            proof {
                if req.authorization is None {
                    assert(spec_gate(req_header_view(&req), db@, now as int) == Err::<
                        crate::models::TokenView,
                        AuthError,
                    >(AuthError::EmptyAuth));
                }
            }
            return RouteResult::Failure(auth_error_response(*kind, url));
        },
        AuthOutcome::Authenticated(_token) => {},
    }
    match op {
        Operation::ListBoards => RouteResult::Success(ApiResponse::Boards(db.boards())),
        Operation::CreateBoard(dto) => match db.create_board(dto, now) {
            Ok(b) => RouteResult::Success(ApiResponse::BoardItem(b)),
            Err(e) => RouteResult::Failure(service_error_response(e, url)),
        },
        Operation::BoardSummary(id) => RouteResult::Success(
            ApiResponse::Summary(db.board_summary(id)),
        ),
        Operation::DeleteBoard(id) => {
            db.delete_board(id);
            RouteResult::Success(ApiResponse::NoContent)
        },
        Operation::ListCards(id) => RouteResult::Success(ApiResponse::Cards(db.cards(id))),
        Operation::CreateCard(dto) => match db.create_card(dto, now) {
            Ok(c) => RouteResult::Success(ApiResponse::CardItem(c)),
            Err(e) => RouteResult::Failure(service_error_response(e, url)),
        },
        Operation::UpdateCard(id, dto) => match db.update_card(id, dto) {
            Ok(c) => RouteResult::Success(ApiResponse::CardItem(c)),
            Err(e) => RouteResult::Failure(service_error_response(e, url)),
        },
        Operation::DeleteCard(id) => {
            db.delete_card(id);
            RouteResult::Success(ApiResponse::NoContent)
        },
    }
}

} // verus!
