//! Data model: tokens, boards, cards, statuses and the derived per-board
//! summary.  Timestamps are plain integers (seconds-style offsets); the types
//! that carry strings get mathematical views so that contracts can speak of
//! their contents.

use crate::errors::ServiceError;
use vstd::prelude::*;

verus! {

/// Workflow stage of a card: the closed set of statuses.
#[derive(Clone, Copy, PartialEq, Eq, Structural, Debug)]
pub enum Status {
    Todo,
    Doing,
    Done,
}

impl Status {
    /// The storage-level name of this status.
    pub open spec fn spec_name(self) -> Seq<char> {
        match self {
            Status::Todo => "todo"@,
            Status::Doing => "doing"@,
            Status::Done => "done"@,
        }
    }

    pub fn as_str(&self) -> (r: &'static str)
        ensures
            r@ == self.spec_name(),
    {
        match self {
            Status::Todo => "todo",
            Status::Doing => "doing",
            Status::Done => "done",
        }
    }

    /// Decodes a storage-level status name.  A value outside the closed set
    /// is a logic error and fails fast as an invariant violation rather than
    /// being silently dropped.
    pub fn from_str(name: &str) -> (r: Result<Status, ServiceError>)
        ensures
            r is Ok <==> (name@ == Status::Todo.spec_name() || name@
                == Status::Doing.spec_name() || name@ == Status::Done.spec_name()),
            r matches Ok(s) ==> s.spec_name() == name@,
            r matches Err(e) ==> e == ServiceError::InvariantViolation,
    {
        let owned = name.to_owned();
        if owned == "todo".to_owned() {
            Ok(Status::Todo)
        } else if owned == "doing".to_owned() {
            Ok(Status::Doing)
        } else if owned == "done".to_owned() {
            Ok(Status::Done)
        } else {
            Err(ServiceError::InvariantViolation)
        }
    }
}

/// Proof of identity: an opaque id paired with its expiry instant.  A token
/// is usable only while `expired_at` lies strictly in the future.
pub struct Token {
    pub id: String,
    pub expired_at: i64,
}

/// Mathematical value of a [`Token`].
pub struct TokenView {
    pub id: Seq<char>,
    pub expired_at: int,
}

impl View for Token {
    type V = TokenView;

    open spec fn view(&self) -> TokenView {
        TokenView { id: self.id@, expired_at: self.expired_at as int }
    }
}

impl Clone for Token {
    fn clone(&self) -> (r: Self)
        ensures
            r@ == self@,
    {
        Token { id: self.id.clone(), expired_at: self.expired_at }
    }
}

/// A named collection of cards.
pub struct Board {
    pub id: i64,
    pub name: String,
    pub created_at: i64,
}

/// Mathematical value of a [`Board`].
pub struct BoardView {
    pub id: int,
    pub name: Seq<char>,
    pub created_at: int,
}

impl View for Board {
    type V = BoardView;

    open spec fn view(&self) -> BoardView {
        BoardView { id: self.id as int, name: self.name@, created_at: self.created_at as int }
    }
}

impl Clone for Board {
    fn clone(&self) -> (r: Self)
        ensures
            r@ == self@,
    {
        Board { id: self.id, name: self.name.clone(), created_at: self.created_at }
    }
}

/// A unit of work belonging to one board.
pub struct Card {
    pub id: i64,
    pub board_id: i64,
    pub description: String,
    pub status: Status,
    pub created_at: i64,
}

/// Mathematical value of a [`Card`].
pub struct CardView {
    pub id: int,
    pub board_id: int,
    pub description: Seq<char>,
    pub status: Status,
    pub created_at: int,
}

impl View for Card {
    type V = CardView;

    open spec fn view(&self) -> CardView {
        CardView {
            id: self.id as int,
            board_id: self.board_id as int,
            description: self.description@,
            status: self.status,
            created_at: self.created_at as int,
        }
    }
}

impl Clone for Card {
    fn clone(&self) -> (r: Self)
        ensures
            r@ == self@,
    {
        Card {
            id: self.id,
            board_id: self.board_id,
            description: self.description.clone(),
            status: self.status,
            created_at: self.created_at,
        }
    }
}

/// Derived, never stored: the count of cards per status for one board.
#[derive(Clone, Copy, PartialEq, Eq, Structural, Debug)]
pub struct BoardSummary {
    pub todo: i64,
    pub doing: i64,
    pub done: i64,
}

impl Default for BoardSummary {
    fn default() -> (r: Self)
        ensures
            r.todo == 0 && r.doing == 0 && r.done == 0,
    {
        BoardSummary { todo: 0, doing: 0, done: 0 }
    }
}

/// One row of a grouped per-status count, as the storage layer reports it.
#[derive(Clone, Copy, PartialEq, Eq, Structural, Debug)]
pub struct StatusCount {
    pub count: i64,
    pub status: Status,
}

/// Sum of the `count` fields of the rows carrying `status`.
pub open spec fn sum_for(counts: Seq<StatusCount>, status: Status) -> int
    decreases counts.len(),
{
    if counts.len() == 0 {
        0
    } else {
        sum_for(counts.drop_last(), status) + if counts.last().status == status {
            counts.last().count as int
        } else {
            0
        }
    }
}

/// Sum of every `count` field, over all three statuses.
pub open spec fn sum_all(counts: Seq<StatusCount>) -> int {
    sum_for(counts, Status::Todo) + sum_for(counts, Status::Doing) + sum_for(
        counts,
        Status::Done,
    )
}

/// Every row's count is nonnegative, as a count of rows must be.
pub open spec fn counts_nonneg(counts: Seq<StatusCount>) -> bool {
    forall|i: int| 0 <= i < counts.len() ==> counts[i].count >= 0
}

proof fn lemma_sum_for_nonneg(counts: Seq<StatusCount>, status: Status)
    requires
        counts_nonneg(counts),
    ensures
        sum_for(counts, status) >= 0,
    decreases counts.len(),
{
    if counts.len() > 0 {
        assert(counts_nonneg(counts.drop_last()));
        lemma_sum_for_nonneg(counts.drop_last(), status);
    }
}

proof fn lemma_sum_for_prefix(counts: Seq<StatusCount>, status: Status, n: int)
    requires
        counts_nonneg(counts),
        0 <= n <= counts.len(),
    ensures
        sum_for(counts.subrange(0, n), status) <= sum_for(counts, status),
    decreases counts.len() - n,
{
    if n == counts.len() {
        assert(counts.subrange(0, n) =~= counts);
    } else {
        lemma_sum_for_prefix(counts, status, n + 1);
        let longer = counts.subrange(0, n + 1);
        assert(longer.drop_last() =~= counts.subrange(0, n));
        assert(sum_for(counts.subrange(0, n), status) <= sum_for(longer, status));
    }
}

impl BoardSummary {
    /// Folds grouped per-status rows into the three fixed buckets, each
    /// bucket the sum of the rows that name its status.
    pub fn from_counts(counts: &Vec<StatusCount>) -> (r: BoardSummary)
        requires
            counts_nonneg(counts@),
            sum_all(counts@) <= i64::MAX,
        ensures
            r.todo == sum_for(counts@, Status::Todo),
            r.doing == sum_for(counts@, Status::Doing),
            r.done == sum_for(counts@, Status::Done),
    {
        let mut todo: i64 = 0;
        let mut doing: i64 = 0;
        let mut done: i64 = 0;
        let mut i: usize = 0;
        while i < counts.len()
            invariant
                0 <= i <= counts@.len(),
                counts_nonneg(counts@),
                sum_all(counts@) <= i64::MAX,
                todo == sum_for(counts@.subrange(0, i as int), Status::Todo),
                doing == sum_for(counts@.subrange(0, i as int), Status::Doing),
                done == sum_for(counts@.subrange(0, i as int), Status::Done),
            decreases counts@.len() - i,
        {
            proof {
                let pre = counts@.subrange(0, i as int);
                let post = counts@.subrange(0, i as int + 1);
                assert(post.drop_last() =~= pre);
                assert(counts_nonneg(pre));
                assert(counts_nonneg(post));
                lemma_sum_for_nonneg(pre, Status::Todo);
                lemma_sum_for_nonneg(pre, Status::Doing);
                lemma_sum_for_nonneg(pre, Status::Done);
                lemma_sum_for_prefix(counts@, Status::Todo, i as int + 1);
                lemma_sum_for_prefix(counts@, Status::Doing, i as int + 1);
                lemma_sum_for_prefix(counts@, Status::Done, i as int + 1);
                lemma_sum_for_nonneg(counts@, Status::Todo);
                lemma_sum_for_nonneg(counts@, Status::Doing);
                lemma_sum_for_nonneg(counts@, Status::Done);
            }
            let row = counts[i];
            match row.status {
                Status::Todo => {
                    todo = todo + row.count;
                },
                Status::Doing => {
                    doing = doing + row.count;
                },
                Status::Done => {
                    done = done + row.count;
                },
            }
            i = i + 1;
        }
        proof {
            assert(counts@.subrange(0, counts@.len() as int) =~= counts@);
        }
        BoardSummary { todo, doing, done }
    }
}

/// Payload of a board-creation request.
pub struct CreateBoardDTO {
    pub name: String,
}

/// Payload of a card-creation request.
pub struct CreateCardDTO {
    pub board_id: i64,
    pub description: String,
}

/// Payload of a card update: both fields are set together, atomically.
pub struct UpdateCardDTO {
    pub description: String,
    pub status: Status,
}

} // verus!
