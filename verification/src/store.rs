//! Verified model of the persistent store: three relations (boards, cards,
//! tokens) with generated row ids, a foreign key from cards to boards with
//! cascade-on-delete, idempotent deletes, atomic card updates and per-status
//! aggregation.  The mathematical state is a [`StoreView`]; every operation's
//! contract pins the new state and the returned rows down exactly.

use crate::errors::ServiceError;
use crate::models::{Board, BoardSummary, BoardView, Card, CardView, CreateBoardDTO, CreateCardDTO,
    Status, Token, TokenView, UpdateCardDTO};
use vstd::prelude::*;
use vstd::seq_lib::*;

verus! {

/// The mathematical contents of a sequence of board rows.
pub open spec fn board_views(s: Seq<Board>) -> Seq<BoardView> {
    s.map_values(|b: Board| b@)
}

/// The mathematical contents of a sequence of card rows.
pub open spec fn card_views(s: Seq<Card>) -> Seq<CardView> {
    s.map_values(|c: Card| c@)
}

/// The mathematical contents of a sequence of token rows.
pub open spec fn token_views(s: Seq<Token>) -> Seq<TokenView> {
    s.map_values(|t: Token| t@)
}

/// The boards left after deleting the one with the given id.
pub open spec fn boards_keep(s: Seq<BoardView>, id: int) -> Seq<BoardView> {
    s.filter(|b: BoardView| b.id != id)
}

/// The cards left after the cascade that follows a board deletion.
pub open spec fn cards_keep_board(s: Seq<CardView>, board_id: int) -> Seq<CardView> {
    s.filter(|c: CardView| c.board_id != board_id)
}

/// The cards left after deleting the one with the given id.
pub open spec fn cards_keep(s: Seq<CardView>, id: int) -> Seq<CardView> {
    s.filter(|c: CardView| c.id != id)
}

/// The cards of one board, in insertion order.
pub open spec fn cards_on(s: Seq<CardView>, board_id: int) -> Seq<CardView> {
    s.filter(|c: CardView| c.board_id == board_id)
}

/// The cards carrying one status.
pub open spec fn with_status(s: Seq<CardView>, status: Status) -> Seq<CardView> {
    s.filter(|c: CardView| c.status == status)
}

/// What an update with the given payload makes of one card.
pub open spec fn update_one(c: CardView, id: int, description: Seq<char>, status: Status) -> CardView {
    if c.id == id {
        CardView {
            id: c.id,
            board_id: c.board_id,
            description: description,
            status: status,
            created_at: c.created_at,
        }
    } else {
        c
    }
}

/// What an update with the given payload makes of the card table.
pub open spec fn update_views(s: Seq<CardView>, id: int, description: Seq<char>, status: Status) -> Seq<CardView> {
    s.map_values(|c: CardView| update_one(c, id, description, status))
}

/// Mathematical state of the store.
#[verifier::ext_equal]
pub struct StoreView {
    pub boards: Seq<BoardView>,
    pub cards: Seq<CardView>,
    pub tokens: Seq<TokenView>,
    pub next_board_id: int,
    pub next_card_id: int,
}

impl StoreView {
    /// Well-formedness: generated ids are positive, unique and below the
    /// next free id, the id counters leave room to count the rows, every
    /// card references an existing board, and token ids are unique.
    pub open spec fn wf(self) -> bool {
        &&& 1 <= self.next_board_id <= i64::MAX
        &&& 1 <= self.next_card_id <= i64::MAX
        &&& self.boards.len() <= self.next_board_id - 1
        &&& self.cards.len() <= self.next_card_id - 1
        &&& (forall|i: int|
            0 <= i < self.boards.len() ==> 1 <= (#[trigger] self.boards[i]).id
                < self.next_board_id)
        &&& (forall|i: int, j: int|
            0 <= i < j < self.boards.len() ==> self.boards[i].id != self.boards[j].id)
        &&& (forall|i: int|
            0 <= i < self.cards.len() ==> 1 <= (#[trigger] self.cards[i]).id < self.next_card_id)
        &&& (forall|i: int, j: int|
            0 <= i < j < self.cards.len() ==> self.cards[i].id != self.cards[j].id)
        &&& (forall|i: int|
            0 <= i < self.cards.len() ==> self.has_board((#[trigger] self.cards[i]).board_id))
        &&& (forall|i: int, j: int|
            0 <= i < j < self.tokens.len() ==> self.tokens[i].id != self.tokens[j].id)
    }

    pub open spec fn has_board(self, id: int) -> bool {
        exists|i: int| 0 <= i < self.boards.len() && (#[trigger] self.boards[i]).id == id
    }

    pub open spec fn has_card(self, id: int) -> bool {
        exists|i: int| 0 <= i < self.cards.len() && (#[trigger] self.cards[i]).id == id
    }

    pub open spec fn card_at(self, id: int) -> CardView {
        self.cards[choose|i: int| 0 <= i < self.cards.len() && (#[trigger] self.cards[i]).id == id]
    }

    pub open spec fn has_token(self, id: Seq<char>) -> bool {
        exists|i: int| 0 <= i < self.tokens.len() && (#[trigger] self.tokens[i]).id == id
    }

    pub open spec fn token_at(self, id: Seq<char>) -> TokenView {
        self.tokens[choose|i: int|
            0 <= i < self.tokens.len() && (#[trigger] self.tokens[i]).id == id]
    }

    /// The token lookup of the authentication gate: a token is returned only
    /// if it exists and has not expired at `now`; "not found" and "expired"
    /// are indistinguishable in the result.
    pub open spec fn spec_validate_token(self, id: Seq<char>, now: int) -> Option<TokenView> {
        if self.has_token(id) && self.token_at(id).expired_at > now {
            Some(self.token_at(id))
        } else {
            None
        }
    }

    /// The cards of one board, in insertion order.
    pub open spec fn cards_of(self, board_id: int) -> Seq<CardView> {
        cards_on(self.cards, board_id)
    }

    /// How many cards of one board carry `status`.
    pub open spec fn count_of(self, board_id: int, status: Status) -> int {
        with_status(self.cards_of(board_id), status).len() as int
    }

    /// The board row a creation at `now` would insert.
    pub open spec fn spec_new_board(self, name: Seq<char>, now: int) -> BoardView {
        BoardView { id: self.next_board_id, name: name, created_at: now }
    }

    pub open spec fn spec_create_board(self, name: Seq<char>, now: int) -> StoreView {
        StoreView {
            boards: self.boards.push(self.spec_new_board(name, now)),
            next_board_id: self.next_board_id + 1,
            ..self
        }
    }

    /// Deleting a board removes it and, by the cascading foreign key, every
    /// card that referenced it; a missing id leaves the store unchanged.
    pub open spec fn spec_delete_board(self, id: int) -> StoreView {
        StoreView {
            boards: boards_keep(self.boards, id),
            cards: cards_keep_board(self.cards, id),
            ..self
        }
    }

    /// The card row a creation at `now` would insert; a new card starts in
    /// the first workflow stage.
    pub open spec fn spec_new_card(self, board_id: int, description: Seq<char>, now: int) -> CardView {
        CardView {
            id: self.next_card_id,
            board_id: board_id,
            description: description,
            status: Status::Todo,
            created_at: now,
        }
    }

    pub open spec fn spec_create_card(self, board_id: int, description: Seq<char>, now: int) -> StoreView {
        StoreView {
            cards: self.cards.push(self.spec_new_card(board_id, description, now)),
            next_card_id: self.next_card_id + 1,
            ..self
        }
    }

    /// An update sets description and status together, atomically, on the
    /// one card with the given id and touches nothing else.
    pub open spec fn spec_update_card(self, id: int, description: Seq<char>, status: Status) -> StoreView {
        StoreView { cards: update_views(self.cards, id, description, status), ..self }
    }

    pub open spec fn spec_delete_card(self, id: int) -> StoreView {
        StoreView { cards: cards_keep(self.cards, id), ..self }
    }
}

// ---------------------------------------------------------------------------
// Lemmas about the view maps and the filters, used to step loop invariants
// and to carry well-formedness across the mutating operations.
// ---------------------------------------------------------------------------

/// Filtering a pushed sequence keeps the filtered prefix and appends the new
/// element exactly when it satisfies the predicate.
proof fn lemma_filter_push<A>(s: Seq<A>, x: A, pred: spec_fn(A) -> bool)
    ensures
        s.push(x).filter(pred) == if pred(x) {
            s.filter(pred).push(x)
        } else {
            s.filter(pred)
        },
{
    reveal(Seq::filter);
    assert(s.push(x).drop_last() =~= s);
    assert(s.push(x).last() == x);
}

/// A filter never invents elements: whatever it keeps was in the sequence
/// and satisfies the predicate.
proof fn lemma_filter_elements<A>(s: Seq<A>, pred: spec_fn(A) -> bool)
    ensures
        forall|k: int|
            0 <= k < s.filter(pred).len() ==> pred(#[trigger] s.filter(pred)[k]) && s.contains(
                s.filter(pred)[k],
            ),
    decreases s.len(),
{
    reveal(Seq::filter);
    if s.len() > 0 {
        let dl = s.drop_last();
        lemma_filter_elements(dl, pred);
        assert forall|k: int| 0 <= k < s.filter(pred).len() implies pred(
            #[trigger] s.filter(pred)[k],
        ) && s.contains(s.filter(pred)[k]) by {
            if k < dl.filter(pred).len() {
                assert(s.filter(pred)[k] == dl.filter(pred)[k]);
                let m = choose|m: int| 0 <= m < dl.len() && dl[m] == dl.filter(pred)[k];
                assert(s[m] == dl.filter(pred)[k]);
            } else {
                assert(s.filter(pred)[k] == s.last());
                assert(s.contains(s.last()));
            }
        }
    }
}

/// Filtering preserves pairwise distinctness of any key of the elements.
proof fn lemma_filter_keeps_distinct<A, K>(s: Seq<A>, pred: spec_fn(A) -> bool, key: spec_fn(A) -> K)
    requires
        forall|i: int, j: int| 0 <= i < j < s.len() ==> key(s[i]) != key(s[j]),
    ensures
        forall|i: int, j: int|
            0 <= i < j < s.filter(pred).len() ==> key(s.filter(pred)[i]) != key(s.filter(pred)[j]),
    decreases s.len(),
{
    reveal(Seq::filter);
    if s.len() > 0 {
        let dl = s.drop_last();
        assert(forall|i: int, j: int| 0 <= i < j < dl.len() ==> key(dl[i]) != key(dl[j]));
        lemma_filter_keeps_distinct(dl, pred, key);
        let f = s.filter(pred);
        let fdl = dl.filter(pred);
        if pred(s.last()) {
            assert(f == fdl.push(s.last()));
            lemma_filter_elements(dl, pred);
            assert forall|k: int| 0 <= k < fdl.len() implies key(#[trigger] fdl[k]) != key(
                s.last(),
            ) by {
                let m = choose|m: int| 0 <= m < dl.len() && dl[m] == fdl[k];
                assert(dl[m] == s[m]);
                assert(key(s[m]) != key(s[s.len() - 1]));
            }
            assert forall|i: int, j: int| 0 <= i < j < f.len() implies key(f[i]) != key(
                f[j],
            ) by {
                if j < fdl.len() {
                    assert(f[i] == fdl[i] && f[j] == fdl[j]);
                } else {
                    assert(f[j] == s.last());
                    assert(f[i] == fdl[i]);
                }
            }
        }
    }
}

pub proof fn lemma_board_views_push(s: Seq<Board>, b: Board)
    ensures
        board_views(s.push(b)) == board_views(s).push(b@),
{
    assert(board_views(s.push(b)) =~= board_views(s).push(b@));
}

pub proof fn lemma_card_views_push(s: Seq<Card>, c: Card)
    ensures
        card_views(s.push(c)) == card_views(s).push(c@),
{
    assert(card_views(s.push(c)) =~= card_views(s).push(c@));
}

pub proof fn lemma_token_views_push(s: Seq<Token>, t: Token)
    ensures
        token_views(s.push(t)) == token_views(s).push(t@),
{
    assert(token_views(s.push(t)) =~= token_views(s).push(t@));
}

pub proof fn lemma_boards_keep_push(s: Seq<BoardView>, x: BoardView, id: int)
    ensures
        boards_keep(s.push(x), id) == if x.id != id {
            boards_keep(s, id).push(x)
        } else {
            boards_keep(s, id)
        },
{
    lemma_filter_push(s, x, |b: BoardView| b.id != id);
}

pub proof fn lemma_cards_keep_board_push(s: Seq<CardView>, x: CardView, board_id: int)
    ensures
        cards_keep_board(s.push(x), board_id) == if x.board_id != board_id {
            cards_keep_board(s, board_id).push(x)
        } else {
            cards_keep_board(s, board_id)
        },
{
    lemma_filter_push(s, x, |c: CardView| c.board_id != board_id);
}

pub proof fn lemma_cards_keep_push(s: Seq<CardView>, x: CardView, id: int)
    ensures
        cards_keep(s.push(x), id) == if x.id != id {
            cards_keep(s, id).push(x)
        } else {
            cards_keep(s, id)
        },
{
    lemma_filter_push(s, x, |c: CardView| c.id != id);
}

pub proof fn lemma_cards_on_push(s: Seq<CardView>, x: CardView, board_id: int)
    ensures
        cards_on(s.push(x), board_id) == if x.board_id == board_id {
            cards_on(s, board_id).push(x)
        } else {
            cards_on(s, board_id)
        },
{
    lemma_filter_push(s, x, |c: CardView| c.board_id == board_id);
}

pub proof fn lemma_with_status_push(s: Seq<CardView>, x: CardView, status: Status)
    ensures
        with_status(s.push(x), status) == if x.status == status {
            with_status(s, status).push(x)
        } else {
            with_status(s, status)
        },
{
    lemma_filter_push(s, x, |c: CardView| c.status == status);
}

pub proof fn lemma_update_views_push(s: Seq<CardView>, x: CardView, id: int, description: Seq<char>, status: Status)
    ensures
        update_views(s.push(x), id, description, status) == update_views(
            s,
            id,
            description,
            status,
        ).push(update_one(x, id, description, status)),
{
    assert(update_views(s.push(x), id, description, status) =~= update_views(
        s,
        id,
        description,
        status,
    ).push(update_one(x, id, description, status)));
}

/// What remains after deleting a board is well formed: kept rows keep their
/// unique ids, and the cascade removes exactly the cards whose board went.
proof fn lemma_wf_after_delete_board(s: StoreView, id: int)
    requires
        s.wf(),
    ensures
        s.spec_delete_board(id).wf(),
{
    let post = s.spec_delete_board(id);
    lemma_filter_elements(s.boards, |b: BoardView| b.id != id);
    lemma_filter_keeps_distinct(s.boards, |b: BoardView| b.id != id, |b: BoardView| b.id);
    s.boards.lemma_filter_len(|b: BoardView| b.id != id);
    lemma_filter_elements(s.cards, |c: CardView| c.board_id != id);
    lemma_filter_keeps_distinct(s.cards, |c: CardView| c.board_id != id, |c: CardView| c.id);
    s.cards.lemma_filter_len(|c: CardView| c.board_id != id);
    assert forall|k: int| 0 <= k < post.boards.len() implies 1 <= (#[trigger] post.boards[k]).id
        < post.next_board_id by {
        let m = choose|m: int| 0 <= m < s.boards.len() && s.boards[m] == post.boards[k];
    }
    assert forall|k: int| 0 <= k < post.cards.len() implies 1 <= (#[trigger] post.cards[k]).id
        < post.next_card_id by {
        let m = choose|m: int| 0 <= m < s.cards.len() && s.cards[m] == post.cards[k];
    }
    assert forall|k: int| 0 <= k < post.cards.len() implies post.has_board(
        (#[trigger] post.cards[k]).board_id,
    ) by {
        let c = post.cards[k];
        let m = choose|m: int| 0 <= m < s.cards.len() && s.cards[m] == c;
        assert(s.has_board(c.board_id));
        let n = choose|n: int| 0 <= n < s.boards.len() && (#[trigger] s.boards[n]).id
            == c.board_id;
        assert(c.board_id != id);
        s.boards.lemma_filter_contains(|b: BoardView| b.id != id, n);
        let p = choose|p: int|
            0 <= p < post.boards.len() && post.boards[p] == s.boards[n];
        assert(post.boards[p].id == c.board_id);
    }
}

/// What remains after deleting a card is well formed.
proof fn lemma_wf_after_delete_card(s: StoreView, id: int)
    requires
        s.wf(),
    ensures
        s.spec_delete_card(id).wf(),
{
    let post = s.spec_delete_card(id);
    assert(post.cards == cards_keep(s.cards, id));
    assert(post.boards == s.boards);
    assert(post.cards == s.cards.filter(|c: CardView| c.id != id));
    lemma_filter_elements(s.cards, |c: CardView| c.id != id);
    assert(forall|k: int|
        0 <= k < post.cards.len() ==> s.cards.contains(#[trigger] post.cards[k]));
    lemma_filter_keeps_distinct(s.cards, |c: CardView| c.id != id, |c: CardView| c.id);
    s.cards.lemma_filter_len(|c: CardView| c.id != id);
    assert forall|k: int| 0 <= k < post.cards.len() implies 1 <= (#[trigger] post.cards[k]).id
        < post.next_card_id by {
        let m = choose|m: int| 0 <= m < s.cards.len() && s.cards[m] == post.cards[k];
    }
    assert forall|k: int| 0 <= k < post.cards.len() implies post.has_board(
        (#[trigger] post.cards[k]).board_id,
    ) by {
        let c = post.cards[k];
        let m = choose|m: int| 0 <= m < s.cards.len() && s.cards[m] == c;
        assert(s.has_board(c.board_id));
    }
}

/// A store extended with a fresh board row stays well formed.
proof fn lemma_wf_after_create_board(s: StoreView, name: Seq<char>, now: int)
    requires
        s.wf(),
        s.next_board_id < i64::MAX,
    ensures
        s.spec_create_board(name, now).wf(),
{
    let post = s.spec_create_board(name, now);
    assert(post.cards == s.cards);
    assert(post.boards == s.boards.push(s.spec_new_board(name, now)));
    assert forall|k: int| 0 <= k < post.cards.len() implies post.has_board(
        (#[trigger] post.cards[k]).board_id,
    ) by {
        assert(s.has_board(s.cards[k].board_id));
        let n = choose|n: int|
            0 <= n < s.boards.len() && (#[trigger] s.boards[n]).id == s.cards[k].board_id;
        assert(0 <= n < post.boards.len());
        assert(post.boards[n].id == post.cards[k].board_id);
        assert(post.has_board(post.cards[k].board_id));
    }
}

/// A store extended with a fresh card row on an existing board stays well
/// formed.
proof fn lemma_wf_after_create_card(s: StoreView, board_id: int, description: Seq<char>, now: int)
    requires
        s.wf(),
        s.has_board(board_id),
        s.next_card_id < i64::MAX,
    ensures
        s.spec_create_card(board_id, description, now).wf(),
{
    let post = s.spec_create_card(board_id, description, now);
    assert(post.boards == s.boards);
    assert(post.cards == s.cards.push(s.spec_new_card(board_id, description, now)));
    assert forall|k: int| 0 <= k < post.cards.len() implies post.has_board(
        (#[trigger] post.cards[k]).board_id,
    ) by {
        if k < s.cards.len() {
            assert(post.cards[k] == s.cards[k]);
            assert(s.has_board(s.cards[k].board_id));
            let n = choose|n: int|
                0 <= n < s.boards.len() && (#[trigger] s.boards[n]).id == s.cards[k].board_id;
            assert(post.boards[n].id == post.cards[k].board_id);
            assert(post.has_board(post.cards[k].board_id));
        } else {
            assert(post.cards[k] == s.spec_new_card(board_id, description, now));
            let n = choose|n: int|
                0 <= n < s.boards.len() && (#[trigger] s.boards[n]).id == board_id;
            assert(post.boards[n].id == post.cards[k].board_id);
            assert(post.has_board(post.cards[k].board_id));
        }
    }
}

/// Updating one card's description and status keeps the store well formed:
/// ids and board references are untouched.
proof fn lemma_wf_after_update_card(s: StoreView, id: int, description: Seq<char>, status: Status)
    requires
        s.wf(),
    ensures
        s.spec_update_card(id, description, status).wf(),
{
    let post = s.spec_update_card(id, description, status);
    assert(post.boards == s.boards);
    assert(post.cards == update_views(s.cards, id, description, status));
    assert(post.cards.len() == s.cards.len());
    assert(forall|k: int|
        0 <= k < post.cards.len() ==> (#[trigger] post.cards[k]).id == s.cards[k].id
            && post.cards[k].board_id == s.cards[k].board_id);
    assert forall|k: int| 0 <= k < post.cards.len() implies post.has_board(
        (#[trigger] post.cards[k]).board_id,
    ) by {
        assert(s.has_board(s.cards[k].board_id));
        let n = choose|n: int|
            0 <= n < s.boards.len() && (#[trigger] s.boards[n]).id == s.cards[k].board_id;
        assert(post.boards[n].id == post.cards[k].board_id);
        assert(post.has_board(post.cards[k].board_id));
    }
}

// ---------------------------------------------------------------------------
// The executable store.
// ---------------------------------------------------------------------------

/// The executable store: plain vectors standing for the three relations,
/// with the id counters the storage layer would keep.
pub struct KanbanDb {
    pub boards: Vec<Board>,
    pub cards: Vec<Card>,
    pub tokens: Vec<Token>,
    pub next_board_id: i64,
    pub next_card_id: i64,
}

impl View for KanbanDb {
    type V = StoreView;

    open spec fn view(&self) -> StoreView {
        StoreView {
            boards: board_views(self.boards@),
            cards: card_views(self.cards@),
            tokens: token_views(self.tokens@),
            next_board_id: self.next_board_id as int,
            next_card_id: self.next_card_id as int,
        }
    }
}

impl KanbanDb {
    /// An empty store with fresh id counters.
    pub fn new() -> (r: KanbanDb)
        ensures
            r@.wf(),
            r@.boards == Seq::<BoardView>::empty(),
            r@.cards == Seq::<CardView>::empty(),
            r@.tokens == Seq::<TokenView>::empty(),
            r@.next_board_id == 1,
            r@.next_card_id == 1,
    {
        let db = KanbanDb {
            boards: Vec::new(),
            cards: Vec::new(),
            tokens: Vec::new(),
            next_board_id: 1,
            next_card_id: 1,
        };
        proof {
            assert(db@.boards =~= Seq::<BoardView>::empty());
            assert(db@.cards =~= Seq::<CardView>::empty());
            assert(db@.tokens =~= Seq::<TokenView>::empty());
        }
        db
    }

    /// Provisions a token out-of-band.  The token is stored unless its id is
    /// already present; the result says whether it was.
    pub fn add_token(&mut self, token: Token) -> (r: bool)
        requires
            old(self)@.wf(),
        ensures
            final(self)@.wf(),
            r == !old(self)@.has_token(token@.id),
            r ==> (final(self)@ == StoreView { tokens: old(self)@.tokens.push(token@), ..old(self)@ }),
            !r ==> final(self)@ == old(self)@,
    {
        let ghost pre = self@;
        let mut i: usize = 0;
        while i < self.tokens.len()
            invariant
                *self == *old(self),
                old(self)@.wf(),
                0 <= i <= self.tokens.len(),
                forall|j: int| 0 <= j < i ==> self@.tokens[j].id != token@.id,
            decreases self.tokens.len() - i,
        {
            if string_eq(&self.tokens[i].id, &token.id) {
                proof {
                    assert(self@.tokens[i as int].id == token@.id);
                }
                return false;
            }
            i = i + 1;
        }
        proof {
            assert(!pre.has_token(token@.id));
        }
        let ghost prev = self.tokens@;
        let ghost tv = token@;
        self.tokens.push(token);
        proof {
            lemma_token_views_push(prev, self.tokens@.last());
            assert(token_views(self.tokens@) == pre.tokens.push(tv));
            assert(self@ =~= StoreView { tokens: pre.tokens.push(tv), ..pre });
        }
        true
    }

    /// Looks a token up by id, filtered to "not yet expired at `now`".  A
    /// missing id and an expired token are indistinguishable in the result.
    pub fn validate_token(&self, token_id: &str, now: i64) -> (r: Option<Token>)
        requires
            self@.wf(),
        ensures
            r is Some <==> self@.spec_validate_token(token_id@, now as int) is Some,
            r matches Some(t) ==> Some(t@) == self@.spec_validate_token(token_id@, now as int),
    {
        let wanted = token_id.to_owned();
        let mut i: usize = 0;
        while i < self.tokens.len()
            invariant
                self@.wf(),
                wanted@ == token_id@,
                0 <= i <= self.tokens.len(),
                forall|j: int| 0 <= j < i ==> self@.tokens[j].id != token_id@,
            decreases self.tokens.len() - i,
        {
            if string_eq(&self.tokens[i].id, &wanted) {
                proof {
                    assert(self@.tokens[i as int].id == token_id@);
                    assert(self@.has_token(token_id@));
                    let j = choose|j: int|
                        0 <= j < self@.tokens.len() && (#[trigger] self@.tokens[j]).id
                            == token_id@;
                    if j != i as int {
                        assert(self@.tokens[j].id != self@.tokens[i as int].id);
                    }
                    assert(self@.token_at(token_id@) == self@.tokens[i as int]);
                }
                if self.tokens[i].expired_at > now {
                    return Some(self.tokens[i].clone());
                } else {
                    return None;
                }
            }
            i = i + 1;
        }
        proof {
            assert(!self@.has_token(token_id@));
        }
        None
    }

    /// Full table read of the boards, in insertion order.
    pub fn boards(&self) -> (r: Vec<Board>)
        ensures
            board_views(r@) == self@.boards,
    {
        let mut out: Vec<Board> = Vec::new();
        let mut i: usize = 0;
        while i < self.boards.len()
            invariant
                0 <= i <= self.boards@.len(),
                board_views(out@) == board_views(self.boards@.subrange(0, i as int)),
            decreases self.boards@.len() - i,
        {
            let bd = self.boards[i].clone();
            let ghost prev = out@;
            out.push(bd);
            proof {
                lemma_board_views_push(prev, out@.last());
                lemma_board_views_push(self.boards@.subrange(0, i as int), self.boards@[i as int]);
                assert(self.boards@.subrange(0, i as int + 1) =~= self.boards@.subrange(
                    0,
                    i as int,
                ).push(self.boards@[i as int]));
                assert(out@.last()@ == self.boards@[i as int]@);
            }
            i = i + 1;
        }
        proof {
            assert(self.boards@.subrange(0, self.boards@.len() as int) =~= self.boards@);
        }
        out
    }

    /// Whether a board with the given id exists.
    pub fn has_board(&self, board_id: i64) -> (r: bool)
        ensures
            r == self@.has_board(board_id as int),
    {
        let mut i: usize = 0;
        while i < self.boards.len()
            invariant
                0 <= i <= self.boards@.len(),
                forall|j: int| 0 <= j < i ==> (#[trigger] self@.boards[j]).id != board_id as int,
            decreases self.boards@.len() - i,
        {
            if self.boards[i].id == board_id {
                proof {
                    assert(self@.boards[i as int].id == board_id as int);
                }
                return true;
            }
            i = i + 1;
        }
        false
    }

    /// The cards of one board, in insertion order.
    pub fn cards(&self, board_id: i64) -> (r: Vec<Card>)
        ensures
            card_views(r@) == self@.cards_of(board_id as int),
    {
        let mut out: Vec<Card> = Vec::new();
        let mut i: usize = 0;
        proof {
            reveal(Seq::filter);
            assert(cards_on(card_views(self.cards@.subrange(0, 0)), board_id as int) =~= Seq::<
                CardView,
            >::empty());
            assert(card_views(out@) =~= Seq::<CardView>::empty());
        }
        while i < self.cards.len()
            invariant
                0 <= i <= self.cards@.len(),
                card_views(out@) == cards_on(
                    card_views(self.cards@.subrange(0, i as int)),
                    board_id as int,
                ),
            decreases self.cards@.len() - i,
        {
            proof {
                lemma_card_views_push(self.cards@.subrange(0, i as int), self.cards@[i as int]);
                assert(self.cards@.subrange(0, i as int + 1) =~= self.cards@.subrange(
                    0,
                    i as int,
                ).push(self.cards@[i as int]));
                lemma_cards_on_push(
                    card_views(self.cards@.subrange(0, i as int)),
                    self.cards@[i as int]@,
                    board_id as int,
                );
            }
            if self.cards[i].board_id == board_id {
                let cd = self.cards[i].clone();
                let ghost prev = out@;
                out.push(cd);
                proof {
                    lemma_card_views_push(prev, out@.last());
                    assert(out@.last()@ == self.cards@[i as int]@);
                }
            }
            i = i + 1;
        }
        proof {
            assert(self.cards@.subrange(0, self.cards@.len() as int) =~= self.cards@);
        }
        out
    }

    /// Inserts a board and returns the stored row, id and creation instant
    /// included.  Fails only when the id space is exhausted.
    pub fn create_board(&mut self, create_board: CreateBoardDTO, now: i64) -> (r: Result<
        Board,
        ServiceError,
    >)
        requires
            old(self)@.wf(),
        ensures
            final(self)@.wf(),
            old(self)@.next_board_id < i64::MAX ==> (r matches Ok(b)
                && b@ == old(self)@.spec_new_board(create_board.name@, now as int)
                && final(self)@ == old(self)@.spec_create_board(create_board.name@, now as int)),
            old(self)@.next_board_id == i64::MAX ==> (r matches Err(e) && e
                == ServiceError::StorageError && final(self)@ == old(self)@),
    {
        if self.next_board_id == i64::MAX {
            return Err(ServiceError::StorageError);
        }
        let board = Board { id: self.next_board_id, name: create_board.name, created_at: now };
        let copy = board.clone();
        let ghost prev = self.boards@;
        let ghost pre = self@;
        self.boards.push(board);
        self.next_board_id = self.next_board_id + 1;
        proof {
            lemma_board_views_push(prev, self.boards@.last());
            assert(self.boards@.last()@ == pre.spec_new_board(copy.name@, now as int));
            assert(self@ =~= pre.spec_create_board(copy.name@, now as int));
            lemma_wf_after_create_board(pre, copy.name@, now as int);
        }
        Ok(copy)
    }

    /// Deletes a board by id and, with it, every card of that board.  A
    /// missing id is not an error: the delete is idempotent.
    pub fn delete_board(&mut self, board_id: i64)
        requires
            old(self)@.wf(),
        ensures
            final(self)@.wf(),
            final(self)@ == old(self)@.spec_delete_board(board_id as int),
    {
        let ghost pre = self@;
        let mut kept_boards: Vec<Board> = Vec::new();
        let mut i: usize = 0;
        proof {
            reveal(Seq::filter);
            assert(boards_keep(board_views(self.boards@.subrange(0, 0)), board_id as int) =~= Seq::<
                BoardView,
            >::empty());
            assert(board_views(kept_boards@) =~= Seq::<BoardView>::empty());
        }
        while i < self.boards.len()
            invariant
                *self == *old(self),
                0 <= i <= self.boards@.len(),
                board_views(kept_boards@) == boards_keep(
                    board_views(self.boards@.subrange(0, i as int)),
                    board_id as int,
                ),
            decreases self.boards@.len() - i,
        {
            proof {
                lemma_board_views_push(self.boards@.subrange(0, i as int), self.boards@[i as int]);
                assert(self.boards@.subrange(0, i as int + 1) =~= self.boards@.subrange(
                    0,
                    i as int,
                ).push(self.boards@[i as int]));
                lemma_boards_keep_push(
                    board_views(self.boards@.subrange(0, i as int)),
                    self.boards@[i as int]@,
                    board_id as int,
                );
            }
            if self.boards[i].id != board_id {
                let bd = self.boards[i].clone();
                let ghost prev = kept_boards@;
                kept_boards.push(bd);
                proof {
                    lemma_board_views_push(prev, kept_boards@.last());
                    assert(kept_boards@.last()@ == self.boards@[i as int]@);
                }
            }
            i = i + 1;
        }
        let mut kept_cards: Vec<Card> = Vec::new();
        let mut k: usize = 0;
        proof {
            reveal(Seq::filter);
            assert(cards_keep_board(card_views(self.cards@.subrange(0, 0)), board_id as int)
                =~= Seq::<CardView>::empty());
            assert(card_views(kept_cards@) =~= Seq::<CardView>::empty());
        }
        while k < self.cards.len()
            invariant
                *self == *old(self),
                0 <= k <= self.cards@.len(),
                board_views(kept_boards@) == boards_keep(
                    board_views(self.boards@.subrange(0, self.boards@.len() as int)),
                    board_id as int,
                ),
                card_views(kept_cards@) == cards_keep_board(
                    card_views(self.cards@.subrange(0, k as int)),
                    board_id as int,
                ),
            decreases self.cards@.len() - k,
        {
            proof {
                lemma_card_views_push(self.cards@.subrange(0, k as int), self.cards@[k as int]);
                assert(self.cards@.subrange(0, k as int + 1) =~= self.cards@.subrange(
                    0,
                    k as int,
                ).push(self.cards@[k as int]));
                lemma_cards_keep_board_push(
                    card_views(self.cards@.subrange(0, k as int)),
                    self.cards@[k as int]@,
                    board_id as int,
                );
            }
            if self.cards[k].board_id != board_id {
                let cd = self.cards[k].clone();
                let ghost prev = kept_cards@;
                kept_cards.push(cd);
                proof {
                    lemma_card_views_push(prev, kept_cards@.last());
                    assert(kept_cards@.last()@ == self.cards@[k as int]@);
                }
            }
            k = k + 1;
        }
        proof {
            assert(self.boards@.subrange(0, self.boards@.len() as int) =~= self.boards@);
            assert(self.cards@.subrange(0, self.cards@.len() as int) =~= self.cards@);
        }
        self.boards = kept_boards;
        self.cards = kept_cards;
        proof {
            assert(self@ =~= pre.spec_delete_board(board_id as int));
            lemma_wf_after_delete_board(pre, board_id as int);
        }
    }

    /// Inserts a card on an existing board and returns the stored row.  A
    /// missing board is the foreign-key violation and fails; so does an
    /// exhausted id space.
    pub fn create_card(&mut self, create_card: CreateCardDTO, now: i64) -> (r: Result<
        Card,
        ServiceError,
    >)
        requires
            old(self)@.wf(),
        ensures
            final(self)@.wf(),
            (old(self)@.has_board(create_card.board_id as int) && old(self)@.next_card_id
                < i64::MAX) ==> (r matches Ok(c) && c@ == old(self)@.spec_new_card(
                create_card.board_id as int,
                create_card.description@,
                now as int,
            ) && final(self)@ == old(self)@.spec_create_card(
                create_card.board_id as int,
                create_card.description@,
                now as int,
            )),
            !old(self)@.has_board(create_card.board_id as int) ==> (r matches Err(e) && e
                == ServiceError::StorageError && final(self)@ == old(self)@),
            (old(self)@.has_board(create_card.board_id as int) && old(self)@.next_card_id
                == i64::MAX) ==> (r matches Err(e) && e == ServiceError::StorageError
                && final(self)@ == old(self)@),
    {
        if !self.has_board(create_card.board_id) {
            return Err(ServiceError::StorageError);
        }
        if self.next_card_id == i64::MAX {
            return Err(ServiceError::StorageError);
        }
        let card = Card {
            id: self.next_card_id,
            board_id: create_card.board_id,
            description: create_card.description,
            status: Status::Todo,
            created_at: now,
        };
        let copy = card.clone();
        let ghost prev = self.cards@;
        let ghost pre = self@;
        self.cards.push(card);
        self.next_card_id = self.next_card_id + 1;
        proof {
            lemma_card_views_push(prev, self.cards@.last());
            assert(self.cards@.last()@ == pre.spec_new_card(
                copy.board_id as int,
                copy.description@,
                now as int,
            ));
            assert(self@ =~= pre.spec_create_card(
                copy.board_id as int,
                copy.description@,
                now as int,
            ));
            lemma_wf_after_create_card(pre, copy.board_id as int, copy.description@, now as int);
        }
        Ok(copy)
    }

    /// Sets a card's description and status together, atomically, and
    /// returns the updated row.  A missing id is surfaced as an error, not a
    /// silent no-op, because the caller expects the updated row back.
    pub fn update_card(&mut self, card_id: i64, update_card: UpdateCardDTO) -> (r: Result<
        Card,
        ServiceError,
    >)
        requires
            old(self)@.wf(),
        ensures
            final(self)@.wf(),
            old(self)@.has_card(card_id as int) ==> (r matches Ok(c) && c@ == update_one(
                old(self)@.card_at(card_id as int),
                card_id as int,
                update_card.description@,
                update_card.status,
            ) && final(self)@ == old(self)@.spec_update_card(
                card_id as int,
                update_card.description@,
                update_card.status,
            )),
            !old(self)@.has_card(card_id as int) ==> (r matches Err(e) && e
                == ServiceError::NotFound && final(self)@ == old(self)@),
    {
        let ghost pre = self@;
        let mut updated: Vec<Card> = Vec::new();
        let mut found: Option<Card> = None;
        let mut i: usize = 0;
        proof {
            assert(card_views(updated@) =~= update_views(
                card_views(self.cards@.subrange(0, 0)),
                card_id as int,
                update_card.description@,
                update_card.status,
            ));
        }
        while i < self.cards.len()
            invariant
                *self == *old(self),
                old(self)@.wf(),
                0 <= i <= self.cards@.len(),
                card_views(updated@) == update_views(
                    card_views(self.cards@.subrange(0, i as int)),
                    card_id as int,
                    update_card.description@,
                    update_card.status,
                ),
                found is None <==> (forall|j: int|
                    0 <= j < i ==> (#[trigger] self@.cards[j]).id != card_id as int),
                found matches Some(c) ==> (exists|j: int|
                    0 <= j < i && (#[trigger] self@.cards[j]).id == card_id as int && c@
                        == update_one(
                        self@.cards[j],
                        card_id as int,
                        update_card.description@,
                        update_card.status,
                    )),
            decreases self.cards@.len() - i,
        {
            proof {
                lemma_card_views_push(self.cards@.subrange(0, i as int), self.cards@[i as int]);
                assert(self.cards@.subrange(0, i as int + 1) =~= self.cards@.subrange(
                    0,
                    i as int,
                ).push(self.cards@[i as int]));
                lemma_update_views_push(
                    card_views(self.cards@.subrange(0, i as int)),
                    self.cards@[i as int]@,
                    card_id as int,
                    update_card.description@,
                    update_card.status,
                );
            }
            let ghost prev = updated@;
            if self.cards[i].id == card_id {
                let row = Card {
                    id: self.cards[i].id,
                    board_id: self.cards[i].board_id,
                    description: update_card.description.clone(),
                    status: update_card.status,
                    created_at: self.cards[i].created_at,
                };
                found = Some(row.clone());
                updated.push(row);
                proof {
                    lemma_card_views_push(prev, updated@.last());
                    assert(updated@.last()@ == update_one(
                        self@.cards[i as int],
                        card_id as int,
                        update_card.description@,
                        update_card.status,
                    ));
                    assert(self@.cards[i as int].id == card_id as int);
                }
            } else {
                let cd = self.cards[i].clone();
                updated.push(cd);
                proof {
                    lemma_card_views_push(prev, updated@.last());
                    assert(updated@.last()@ == update_one(
                        self@.cards[i as int],
                        card_id as int,
                        update_card.description@,
                        update_card.status,
                    ));
                }
            }
            i = i + 1;
        }
        proof {
            assert(self.cards@.subrange(0, self.cards@.len() as int) =~= self.cards@);
        }
        match found {
            Some(row) => {
                self.cards = updated;
                proof {
                    assert(self@ =~= pre.spec_update_card(
                        card_id as int,
                        update_card.description@,
                        update_card.status,
                    ));
                    lemma_wf_after_update_card(
                        pre,
                        card_id as int,
                        update_card.description@,
                        update_card.status,
                    );
                    let j = choose|j: int|
                        0 <= j < pre.cards.len() && (#[trigger] pre.cards[j]).id == card_id as int
                            && row@ == update_one(
                            pre.cards[j],
                            card_id as int,
                            update_card.description@,
                            update_card.status,
                        );
                    let m = choose|m: int|
                        0 <= m < pre.cards.len() && (#[trigger] pre.cards[m]).id
                            == card_id as int;
                    if m != j {
                        assert(pre.cards[m].id != pre.cards[j].id);
                    }
                    assert(pre.card_at(card_id as int) == pre.cards[j]);
                }
                Ok(row)
            },
            None => {
                proof {
                    assert(!pre.has_card(card_id as int));
                }
                Err(ServiceError::NotFound)
            },
        }
    }

    /// Deletes a card by id.  A missing id is not an error: the delete is
    /// idempotent.
    pub fn delete_card(&mut self, card_id: i64)
        requires
            old(self)@.wf(),
        ensures
            final(self)@.wf(),
            final(self)@ == old(self)@.spec_delete_card(card_id as int),
    {
        let ghost pre = self@;
        let mut kept: Vec<Card> = Vec::new();
        let mut i: usize = 0;
        proof {
            reveal(Seq::filter);
            assert(cards_keep(card_views(self.cards@.subrange(0, 0)), card_id as int) =~= Seq::<
                CardView,
            >::empty());
            assert(card_views(kept@) =~= Seq::<CardView>::empty());
        }
        while i < self.cards.len()
            invariant
                *self == *old(self),
                0 <= i <= self.cards@.len(),
                card_views(kept@) == cards_keep(
                    card_views(self.cards@.subrange(0, i as int)),
                    card_id as int,
                ),
            decreases self.cards@.len() - i,
        {
            proof {
                lemma_card_views_push(self.cards@.subrange(0, i as int), self.cards@[i as int]);
                assert(self.cards@.subrange(0, i as int + 1) =~= self.cards@.subrange(
                    0,
                    i as int,
                ).push(self.cards@[i as int]));
                lemma_cards_keep_push(
                    card_views(self.cards@.subrange(0, i as int)),
                    self.cards@[i as int]@,
                    card_id as int,
                );
            }
            if self.cards[i].id != card_id {
                let cd = self.cards[i].clone();
                let ghost prev = kept@;
                kept.push(cd);
                proof {
                    lemma_card_views_push(prev, kept@.last());
                    assert(kept@.last()@ == self.cards@[i as int]@);
                }
            }
            i = i + 1;
        }
        proof {
            assert(self.cards@.subrange(0, self.cards@.len() as int) =~= self.cards@);
        }
        self.cards = kept;
        proof {
            assert(self@ =~= pre.spec_delete_card(card_id as int));
            lemma_wf_after_delete_card(pre, card_id as int);
        }
    }

    /// Groups the cards of one board by status and folds the counts into the
    /// three fixed buckets.
    pub fn board_summary(&self, board_id: i64) -> (r: BoardSummary)
        requires
            self@.wf(),
        ensures
            r.todo == self@.count_of(board_id as int, Status::Todo),
            r.doing == self@.count_of(board_id as int, Status::Doing),
            r.done == self@.count_of(board_id as int, Status::Done),
    {
        let mut todo: i64 = 0;
        let mut doing: i64 = 0;
        let mut done: i64 = 0;
        let mut i: usize = 0;
        proof {
            reveal(Seq::filter);
            assert(cards_on(card_views(self.cards@.subrange(0, 0)), board_id as int) =~= Seq::<
                CardView,
            >::empty());
            assert(with_status(
                cards_on(card_views(self.cards@.subrange(0, 0)), board_id as int),
                Status::Todo,
            ) =~= Seq::<CardView>::empty());
            assert(with_status(
                cards_on(card_views(self.cards@.subrange(0, 0)), board_id as int),
                Status::Doing,
            ) =~= Seq::<CardView>::empty());
            assert(with_status(
                cards_on(card_views(self.cards@.subrange(0, 0)), board_id as int),
                Status::Done,
            ) =~= Seq::<CardView>::empty());
        }
        while i < self.cards.len()
            invariant
                self@.wf(),
                0 <= i <= self.cards@.len(),
                0 <= todo <= i,
                0 <= doing <= i,
                0 <= done <= i,
                todo == with_status(
                    cards_on(card_views(self.cards@.subrange(0, i as int)), board_id as int),
                    Status::Todo,
                ).len(),
                doing == with_status(
                    cards_on(card_views(self.cards@.subrange(0, i as int)), board_id as int),
                    Status::Doing,
                ).len(),
                done == with_status(
                    cards_on(card_views(self.cards@.subrange(0, i as int)), board_id as int),
                    Status::Done,
                ).len(),
            decreases self.cards@.len() - i,
        {
            proof {
                assert(self.cards@.len() <= i64::MAX - 1);
                lemma_card_views_push(self.cards@.subrange(0, i as int), self.cards@[i as int]);
                assert(self.cards@.subrange(0, i as int + 1) =~= self.cards@.subrange(
                    0,
                    i as int,
                ).push(self.cards@[i as int]));
                let on = cards_on(
                    card_views(self.cards@.subrange(0, i as int)),
                    board_id as int,
                );
                lemma_cards_on_push(
                    card_views(self.cards@.subrange(0, i as int)),
                    self.cards@[i as int]@,
                    board_id as int,
                );
                lemma_with_status_push(on, self.cards@[i as int]@, Status::Todo);
                lemma_with_status_push(on, self.cards@[i as int]@, Status::Doing);
                lemma_with_status_push(on, self.cards@[i as int]@, Status::Done);
            }
            if self.cards[i].board_id == board_id {
                match self.cards[i].status {
                    Status::Todo => {
                        todo = todo + 1;
                    },
                    Status::Doing => {
                        doing = doing + 1;
                    },
                    Status::Done => {
                        done = done + 1;
                    },
                }
            }
            i = i + 1;
        }
        proof {
            assert(self.cards@.subrange(0, self.cards@.len() as int) =~= self.cards@);
        }
        BoardSummary { todo, doing, done }
    }
}

/// Equality of two strings by their characters.
fn string_eq(a: &String, b: &String) -> (r: bool)
    ensures
        r == (a@ == b@),
{
    a.eq(b)
}

// ---------------------------------------------------------------------------
// Laws of the store.
// ---------------------------------------------------------------------------

/// A filter keeps a sequence whose elements all satisfy the predicate.
proof fn lemma_filter_all<A>(t: Seq<A>, pred: spec_fn(A) -> bool)
    requires
        forall|k: int| 0 <= k < t.len() ==> pred(#[trigger] t[k]),
    ensures
        t.filter(pred) == t,
    decreases t.len(),
{
    reveal(Seq::filter);
    if t.len() > 0 {
        let dl = t.drop_last();
        assert(forall|k: int| 0 <= k < dl.len() ==> pred(#[trigger] dl[k]));
        lemma_filter_all(dl, pred);
        assert(pred(t.last()));
        assert(dl.push(t.last()) =~= t);
    }
}

/// Filtering twice with one predicate is filtering once.
proof fn lemma_filter_idempotent<A>(s: Seq<A>, pred: spec_fn(A) -> bool)
    ensures
        s.filter(pred).filter(pred) == s.filter(pred),
{
    lemma_filter_elements(s, pred);
    lemma_filter_all(s.filter(pred), pred);
}

/// Deleting a board id is idempotent: a second delete of the same id finds
/// neither the board nor any of its cards and leaves the store exactly as
/// the first delete left it.  With a fresh store the same equation says that
/// deleting a non-existent id changes nothing twice over.
pub proof fn lemma_delete_board_idempotent(s: StoreView, id: int)
    ensures
        s.spec_delete_board(id).spec_delete_board(id) == s.spec_delete_board(id),
{
    lemma_filter_idempotent(s.boards, |b: BoardView| b.id != id);
    lemma_filter_idempotent(s.cards, |c: CardView| c.board_id != id);
    assert(s.spec_delete_board(id).spec_delete_board(id) =~= s.spec_delete_board(id));
}

/// Deleting a card id is idempotent, as deleting a board id is.
pub proof fn lemma_delete_card_idempotent(s: StoreView, id: int)
    ensures
        s.spec_delete_card(id).spec_delete_card(id) == s.spec_delete_card(id),
{
    lemma_filter_idempotent(s.cards, |c: CardView| c.id != id);
    assert(s.spec_delete_card(id).spec_delete_card(id) =~= s.spec_delete_card(id));
}

/// Deleting an id that no board has leaves the store unchanged.
pub proof fn lemma_delete_missing_board_is_noop(s: StoreView, id: int)
    requires
        s.wf(),
        !s.has_board(id),
    ensures
        s.spec_delete_board(id) == s,
{
    assert forall|k: int| 0 <= k < s.boards.len() implies (|b: BoardView| b.id != id)(
        #[trigger] s.boards[k],
    ) by {
        if s.boards[k].id == id {
            assert(s.has_board(id));
        }
    }
    lemma_filter_all(s.boards, |b: BoardView| b.id != id);
    assert forall|k: int| 0 <= k < s.cards.len() implies (|c: CardView| c.board_id != id)(
        #[trigger] s.cards[k],
    ) by {
        if s.cards[k].board_id == id {
            assert(s.has_board(id));
        }
    }
    lemma_filter_all(s.cards, |c: CardView| c.board_id != id);
    assert(s.spec_delete_board(id) =~= s);
}

/// Deleting an id that no card has leaves the store unchanged.
pub proof fn lemma_delete_missing_card_is_noop(s: StoreView, id: int)
    requires
        !s.has_card(id),
    ensures
        s.spec_delete_card(id) == s,
{
    assert forall|k: int| 0 <= k < s.cards.len() implies (|c: CardView| c.id != id)(
        #[trigger] s.cards[k],
    ) by {
        if s.cards[k].id == id {
            assert(s.has_card(id));
        }
    }
    lemma_filter_all(s.cards, |c: CardView| c.id != id);
    assert(s.spec_delete_card(id) =~= s);
}

/// The three status buckets partition any card sequence: their lengths sum
/// to the length of the whole.
proof fn lemma_status_partition(cards: Seq<CardView>)
    ensures
        with_status(cards, Status::Todo).len() + with_status(cards, Status::Doing).len()
            + with_status(cards, Status::Done).len() == cards.len(),
    decreases cards.len(),
{
    reveal(Seq::filter);
    if cards.len() > 0 {
        lemma_status_partition(cards.drop_last());
        match cards.last().status {
            Status::Todo => {},
            Status::Doing => {},
            Status::Done => {},
        }
    }
}

/// The summary's buckets partition the board's cards: todo + doing + done is
/// exactly the board's total card count at the instant of computation.
pub proof fn lemma_summary_partitions_cards(s: StoreView, board_id: int)
    ensures
        s.count_of(board_id, Status::Todo) + s.count_of(board_id, Status::Doing) + s.count_of(
            board_id,
            Status::Done,
        ) == s.cards_of(board_id).len(),
{
    lemma_status_partition(s.cards_of(board_id));
}

/// Round trip of a card: creating it and then updating it yields, on listing
/// its board, the board's prior cards plus exactly the one updated card --
/// the created version is gone, the updated one is there once, and no prior
/// card carried its id.
pub proof fn lemma_create_update_list_round_trip(
    s: StoreView,
    board_id: int,
    description: Seq<char>,
    now: int,
    new_description: Seq<char>,
    new_status: Status,
)
    requires
        s.wf(),
        s.has_board(board_id),
        s.next_card_id < i64::MAX,
    ensures
        ({
            let c = s.spec_new_card(board_id, description, now);
            let s1 = s.spec_create_card(board_id, description, now);
            let s2 = s1.spec_update_card(c.id, new_description, new_status);
            let updated = CardView {
                id: c.id,
                board_id: board_id,
                description: new_description,
                status: new_status,
                created_at: now,
            };
            &&& s1.has_card(c.id)
            &&& s2.cards_of(board_id) == s.cards_of(board_id).push(updated)
            &&& forall|k: int|
                0 <= k < s.cards_of(board_id).len() ==> (#[trigger] s.cards_of(board_id)[k]).id
                    != c.id
        }),
{
    let c = s.spec_new_card(board_id, description, now);
    let s1 = s.spec_create_card(board_id, description, now);
    let s2 = s1.spec_update_card(c.id, new_description, new_status);
    let updated = CardView {
        id: c.id,
        board_id: board_id,
        description: new_description,
        status: new_status,
        created_at: now,
    };
    assert(s1.cards == s.cards.push(c));
    assert(s1.cards[s.cards.len() as int] == c);
    assert(s1.has_card(c.id));
    assert(s2.cards == update_views(s1.cards, c.id, new_description, new_status));
    assert forall|k: int| 0 <= k < s2.cards.len() implies #[trigger] s2.cards[k] == s.cards.push(
        updated,
    )[k] by {
        assert(s2.cards[k] == update_one(s1.cards[k], c.id, new_description, new_status));
        if k < s.cards.len() {
            assert(s1.cards[k] == s.cards[k]);
            assert(s.cards[k].id < s.next_card_id);
        } else {
            assert(s1.cards[k] == c);
        }
    }
    assert(s2.cards =~= s.cards.push(updated));
    lemma_cards_on_push(s.cards, updated, board_id);
    assert(s2.cards_of(board_id) == s.cards_of(board_id).push(updated));
    lemma_filter_elements(s.cards, |cd: CardView| cd.board_id == board_id);
    assert forall|k: int| 0 <= k < s.cards_of(board_id).len() implies (#[trigger] s.cards_of(
        board_id,
    )[k]).id != c.id by {
        let m = choose|m: int|
            0 <= m < s.cards.len() && s.cards[m] == s.cards_of(board_id)[k];
        assert(s.cards[m].id < s.next_card_id);
    }
}

} // verus!
