use kanban::errors::ServiceError;
use kanban::models::{BoardSummary, CreateBoardDTO, CreateCardDTO, Status, StatusCount,
    UpdateCardDTO};
use kanban::store::KanbanDb;

fn board_dto(name: &str) -> CreateBoardDTO {
    CreateBoardDTO { name: name.to_string() }
}

fn card_dto(board_id: i64, description: &str) -> CreateCardDTO {
    CreateCardDTO { board_id, description: description.to_string() }
}

#[test]
fn create_board_returns_the_stored_row() {
    let mut db = KanbanDb::new();
    let b = db.create_board(board_dto("roadmap"), 42).unwrap();
    assert_eq!(b.id, 1);
    assert_eq!(b.name, "roadmap");
    assert_eq!(b.created_at, 42);
    let all = db.boards();
    assert_eq!(all.len(), 1);
    assert_eq!(all[0].id, 1);
    assert_eq!(all[0].name, "roadmap");
}

#[test]
fn board_ids_are_generated_in_order() {
    let mut db = KanbanDb::new();
    let a = db.create_board(board_dto("a"), 0).unwrap();
    let b = db.create_board(board_dto("b"), 0).unwrap();
    assert_eq!(a.id, 1);
    assert_eq!(b.id, 2);
}

#[test]
fn delete_board_is_idempotent() {
    let mut db = KanbanDb::new();
    let b = db.create_board(board_dto("gone"), 0).unwrap();
    db.delete_board(b.id);
    assert_eq!(db.boards().len(), 0);
    // second delete of the same id: same observable result, no error
    db.delete_board(b.id);
    assert_eq!(db.boards().len(), 0);
    // deleting an id that never existed is no error either
    db.delete_board(777);
    assert_eq!(db.boards().len(), 0);
}

#[test]
fn delete_board_cascades_to_its_cards() {
    let mut db = KanbanDb::new();
    let b = db.create_board(board_dto("b"), 0).unwrap();
    let other = db.create_board(board_dto("other"), 0).unwrap();
    db.create_card(card_dto(b.id, "one"), 1).unwrap();
    db.create_card(card_dto(b.id, "two"), 2).unwrap();
    let kept = db.create_card(card_dto(other.id, "kept"), 3).unwrap();
    db.delete_board(b.id);
    assert_eq!(db.cards(b.id).len(), 0);
    let remaining = db.cards(other.id);
    assert_eq!(remaining.len(), 1);
    assert_eq!(remaining[0].id, kept.id);
}

#[test]
fn create_card_requires_an_existing_board() {
    let mut db = KanbanDb::new();
    assert!(matches!(db.create_card(card_dto(5, "orphan"), 0), Err(ServiceError::StorageError)));
    assert_eq!(db.boards().len(), 0);
}

#[test]
fn new_cards_start_as_todo() {
    let mut db = KanbanDb::new();
    let b = db.create_board(board_dto("b"), 0).unwrap();
    let c = db.create_card(card_dto(b.id, "task"), 7).unwrap();
    assert_eq!(c.board_id, b.id);
    assert_eq!(c.description, "task");
    assert!(matches!(c.status, Status::Todo));
    assert_eq!(c.created_at, 7);
}

#[test]
fn update_missing_card_is_not_found() {
    let mut db = KanbanDb::new();
    let upd = UpdateCardDTO { description: "x".to_string(), status: Status::Done };
    assert!(matches!(db.update_card(9, upd), Err(ServiceError::NotFound)));
}

#[test]
fn create_update_list_round_trip() {
    let mut db = KanbanDb::new();
    let b = db.create_board(board_dto("b"), 0).unwrap();
    let before = db.create_card(card_dto(b.id, "draft"), 1).unwrap();
    let upd = UpdateCardDTO { description: "final text".to_string(), status: Status::Doing };
    let after = db.update_card(before.id, upd).unwrap();
    assert_eq!(after.id, before.id);
    assert_eq!(after.description, "final text");
    assert!(matches!(after.status, Status::Doing));
    // exactly one card, reflecting the updated fields; never both versions
    let listed = db.cards(b.id);
    assert_eq!(listed.len(), 1);
    assert_eq!(listed[0].id, before.id);
    assert_eq!(listed[0].description, "final text");
    assert!(matches!(listed[0].status, Status::Doing));
    assert_eq!(listed[0].created_at, before.created_at);
}

#[test]
fn delete_card_is_idempotent() {
    let mut db = KanbanDb::new();
    let b = db.create_board(board_dto("b"), 0).unwrap();
    let c = db.create_card(card_dto(b.id, "one"), 0).unwrap();
    db.delete_card(c.id);
    assert_eq!(db.cards(b.id).len(), 0);
    db.delete_card(c.id);
    assert_eq!(db.cards(b.id).len(), 0);
    db.delete_card(12345);
    assert_eq!(db.cards(b.id).len(), 0);
}

#[test]
fn board_summary_counts_per_status() {
    let mut db = KanbanDb::new();
    let b = db.create_board(board_dto("b"), 0).unwrap();
    let mut ids = Vec::new();
    for i in 0..6 {
        ids.push(db.create_card(card_dto(b.id, &format!("c{}", i)), 0).unwrap().id);
    }
    // counts {todo: 2, doing: 1, done: 3}
    db.update_card(ids[2], UpdateCardDTO { description: "c2".to_string(), status: Status::Doing })
        .unwrap();
    for &id in &ids[3..6] {
        db.update_card(id, UpdateCardDTO { description: "d".to_string(), status: Status::Done })
            .unwrap();
    }
    let summary = db.board_summary(b.id);
    assert_eq!(summary.todo, 2);
    assert_eq!(summary.doing, 1);
    assert_eq!(summary.done, 3);
    assert_eq!(summary.todo + summary.doing + summary.done, db.cards(b.id).len() as i64);
}

#[test]
fn summary_of_unknown_board_is_all_zero() {
    let db = KanbanDb::new();
    let summary = db.board_summary(99);
    assert_eq!((summary.todo, summary.doing, summary.done), (0, 0, 0));
}

#[test]
fn summary_ignores_other_boards() {
    let mut db = KanbanDb::new();
    let a = db.create_board(board_dto("a"), 0).unwrap();
    let b = db.create_board(board_dto("b"), 0).unwrap();
    db.create_card(card_dto(a.id, "on a"), 0).unwrap();
    db.create_card(card_dto(b.id, "on b"), 0).unwrap();
    let summary = db.board_summary(a.id);
    assert_eq!(summary.todo, 1);
    assert_eq!(summary.doing + summary.done, 0);
}

#[test]
fn from_counts_folds_grouped_rows() {
    let counts = vec![
        StatusCount { count: 2, status: Status::Todo },
        StatusCount { count: 1, status: Status::Doing },
        StatusCount { count: 3, status: Status::Done },
    ];
    let s = BoardSummary::from_counts(&counts);
    assert_eq!((s.todo, s.doing, s.done), (2, 1, 3));
}

#[test]
fn from_counts_sums_repeated_statuses_and_defaults_to_zero() {
    let counts = vec![
        StatusCount { count: 2, status: Status::Done },
        StatusCount { count: 5, status: Status::Done },
    ];
    let s = BoardSummary::from_counts(&counts);
    assert_eq!((s.todo, s.doing, s.done), (0, 0, 7));
    let empty = BoardSummary::from_counts(&Vec::new());
    assert_eq!((empty.todo, empty.doing, empty.done), (0, 0, 0));
}

#[test]
fn status_names_round_trip() {
    for status in [Status::Todo, Status::Doing, Status::Done] {
        let name = status.as_str();
        assert!(matches!(Status::from_str(name), Ok(s) if s == status));
    }
    assert_eq!(Status::Todo.as_str(), "todo");
    assert_eq!(Status::Doing.as_str(), "doing");
    assert_eq!(Status::Done.as_str(), "done");
}

#[test]
fn unknown_status_name_is_an_invariant_violation() {
    assert!(matches!(Status::from_str("blocked"), Err(ServiceError::InvariantViolation)));
    assert!(matches!(Status::from_str("Todo"), Err(ServiceError::InvariantViolation)));
}
