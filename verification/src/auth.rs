//! The authentication gate: parses the `Authorization` header, resolves the
//! bearer token against the token store, and classifies every failure.  The
//! ordered checks are pinned down by [`spec_parse_auth`]; the per-request
//! gate [`Auth`] memoizes its outcome so the resolution runs at most once
//! per request however many consumers ask for it.

use crate::errors::AuthError;
use crate::models::{Token, TokenView};
use crate::store::{KanbanDb, StoreView};
use vstd::prelude::*;

verus! {

/// The five characters `split_ascii_whitespace` separates on.
pub open spec fn is_ascii_ws(c: char) -> bool {
    c == ' ' || c == '\t' || c == '\n' || c == '\u{000C}' || c == '\r'
}

/// The first position at or after `i` that does not hold whitespace, or the
/// end of the sequence.
pub open spec fn skip_ws(s: Seq<char>, i: int) -> int
    decreases s.len() - i when 0 <= i <= s.len()
{
    if 0 <= i < s.len() && is_ascii_ws(s[i]) {
        skip_ws(s, i + 1)
    } else {
        i
    }
}

/// The first position at or after `i` that holds whitespace, or the end of
/// the sequence: the end of the token starting at `i`.
pub open spec fn token_end(s: Seq<char>, i: int) -> int
    decreases s.len() - i when 0 <= i <= s.len()
{
    if 0 <= i < s.len() && !is_ascii_ws(s[i]) {
        token_end(s, i + 1)
    } else {
        i
    }
}

/// The one scheme the guard accepts, compared case-sensitively.
pub open spec fn bearer_scheme() -> Seq<char> {
    seq!['B', 'e', 'a', 'r', 'e', 'r']
}

pub open spec fn header_view(h: Option<&str>) -> Option<Seq<char>> {
    match h {
        Some(s) => Some(s@),
        None => None,
    }
}

/// The guard's ordered checks, first failure winning: no header, then no
/// whitespace-separable scheme, then a scheme other than `Bearer`, then no
/// token id after the scheme; otherwise the token id is extracted.  Whatever
/// follows the token id is ignored.
pub open spec fn spec_parse_auth(header: Option<Seq<char>>) -> Result<Seq<char>, AuthError> {
    match header {
        Option::None => Err(AuthError::EmptyAuth),
        Option::Some(s) => {
            let a = skip_ws(s, 0);
            if a == s.len() {
                Err(AuthError::Malformed)
            } else {
                let b = token_end(s, a);
                if s.subrange(a, b) != bearer_scheme() {
                    Err(AuthError::InvalidType)
                } else {
                    let c = skip_ws(s, b);
                    if c == s.len() {
                        Err(AuthError::MissingBearerToken)
                    } else {
                        Ok(s.subrange(c, token_end(s, c)))
                    }
                }
            }
        },
    }
}

/// What the whole gate decides for a request, with the store at hand: the
/// parsed token id is looked up filtered to "not expired at `now`", and a
/// failed lookup is the one `InvalidToken` rejection.
pub open spec fn spec_gate(header: Option<Seq<char>>, store: StoreView, now: int) -> Result<
    TokenView,
    AuthError,
> {
    match spec_parse_auth(header) {
        Err(k) => Err(k),
        Ok(id) => match store.spec_validate_token(id, now) {
            Some(t) => Ok(t),
            None => Err(AuthError::InvalidToken),
        },
    }
}

fn is_ws(c: char) -> (r: bool)
    ensures
        r == is_ascii_ws(c),
{
    c == ' ' || c == '\t' || c == '\n' || c == '\u{000C}' || c == '\r'
}

/// Whether the characters of `h` from `a` (inclusive) to `b` (exclusive)
/// spell exactly the accepted scheme.
fn is_bearer(h: &str, a: usize, b: usize) -> (r: bool)
    requires
        a <= b <= h@.len(),
    ensures
        r == (h@.subrange(a as int, b as int) == bearer_scheme()),
{
    let r = b - a == 6 && h.get_char(a) == 'B' && h.get_char(a + 1) == 'e' && h.get_char(a + 2)
        == 'a' && h.get_char(a + 3) == 'r' && h.get_char(a + 4) == 'e' && h.get_char(a + 5) == 'r';
    proof {
        let sub = h@.subrange(a as int, b as int);
        if r {
            assert(sub =~= bearer_scheme());
        } else {
            if sub == bearer_scheme() {
                assert(sub.len() == 6);
                assert(sub[0] == 'B' && sub[1] == 'e' && sub[2] == 'a' && sub[3] == 'r' && sub[4]
                    == 'e' && sub[5] == 'r');
                assert(sub[0] == h@[a as int]);
                assert(sub[1] == h@[a as int + 1]);
                assert(sub[2] == h@[a as int + 2]);
                assert(sub[3] == h@[a as int + 3]);
                assert(sub[4] == h@[a as int + 4]);
                assert(sub[5] == h@[a as int + 5]);
                assert(false);
            }
        }
    }
    r
}

/// Parses the `Authorization` header value and yields the bearer token id,
/// or the exact classification of why there is none.  `None` stands for a
/// request that carries no such header at all.
pub fn parse_auth_header(header: Option<&str>) -> (r: Result<String, AuthError>)
    ensures
        r matches Ok(id) ==> spec_parse_auth(header_view(header)) == Ok::<Seq<char>, AuthError>(
            id@,
        ),
        r matches Err(e) ==> spec_parse_auth(header_view(header)) == Err::<Seq<char>, AuthError>(
            e,
        ),
{
    let h = match header {
        Some(h) => h,
        None => {
            return Err(AuthError::EmptyAuth);
        },
    };
    let len = h.unicode_len();
    let mut a: usize = 0;
    loop
        invariant
            0 <= a <= h@.len(),
            len == h@.len(),
            skip_ws(h@, 0) == skip_ws(h@, a as int),
        ensures
            0 <= a <= h@.len(),
            len == h@.len(),
            a as int == skip_ws(h@, 0),
        decreases h@.len() - a,
    {
        if a >= len {
            proof {
                assert(skip_ws(h@, a as int) == a as int);
            }
            break;
        }
        let c = h.get_char(a);
        if !is_ws(c) {
            proof {
                assert(skip_ws(h@, a as int) == a as int);
            }
            break;
        }
        proof {
            assert(skip_ws(h@, a as int) == skip_ws(h@, a as int + 1));
        }
        a = a + 1;
    }
    if a == len {
        return Err(AuthError::Malformed);
    }
    let mut b: usize = a;
    loop
        invariant
            a <= b <= h@.len(),
            len == h@.len(),
            token_end(h@, a as int) == token_end(h@, b as int),
        ensures
            a <= b <= h@.len(),
            len == h@.len(),
            b as int == token_end(h@, a as int),
        decreases h@.len() - b,
    {
        if b >= len {
            proof {
                assert(token_end(h@, b as int) == b as int);
            }
            break;
        }
        let c = h.get_char(b);
        if is_ws(c) {
            proof {
                assert(token_end(h@, b as int) == b as int);
            }
            break;
        }
        proof {
            assert(token_end(h@, b as int) == token_end(h@, b as int + 1));
        }
        b = b + 1;
    }
    if !is_bearer(h, a, b) {
        return Err(AuthError::InvalidType);
    }
    let mut c: usize = b;
    loop
        invariant
            b <= c <= h@.len(),
            len == h@.len(),
            skip_ws(h@, b as int) == skip_ws(h@, c as int),
        ensures
            b <= c <= h@.len(),
            len == h@.len(),
            c as int == skip_ws(h@, b as int),
        decreases h@.len() - c,
    {
        if c >= len {
            proof {
                assert(skip_ws(h@, c as int) == c as int);
            }
            break;
        }
        let ch = h.get_char(c);
        if !is_ws(ch) {
            proof {
                assert(skip_ws(h@, c as int) == c as int);
            }
            break;
        }
        proof {
            assert(skip_ws(h@, c as int) == skip_ws(h@, c as int + 1));
        }
        c = c + 1;
    }
    if c == len {
        return Err(AuthError::MissingBearerToken);
    }
    let mut d: usize = c;
    loop
        invariant
            c <= d <= h@.len(),
            len == h@.len(),
            token_end(h@, c as int) == token_end(h@, d as int),
        ensures
            c <= d <= h@.len(),
            len == h@.len(),
            d as int == token_end(h@, c as int),
        decreases h@.len() - d,
    {
        if d >= len {
            proof {
                assert(token_end(h@, d as int) == d as int);
            }
            break;
        }
        let ch = h.get_char(d);
        if is_ws(ch) {
            proof {
                assert(token_end(h@, d as int) == d as int);
            }
            break;
        }
        proof {
            assert(token_end(h@, d as int) == token_end(h@, d as int + 1));
        }
        d = d + 1;
    }
    let id = h.substring_char(c, d).to_owned();
    Ok(id)
}

/// The request-scoped outcome of authentication: either the resolved token,
/// or the classified rejection.
pub enum AuthOutcome {
    Authenticated(Token),
    Rejected(AuthError),
}

/// Whether an outcome value carries exactly what the guard decides.
pub open spec fn outcome_matches(o: &AuthOutcome, g: Result<TokenView, AuthError>) -> bool {
    match o {
        AuthOutcome::Authenticated(t) => g matches Ok(tv) && t@ == tv,
        AuthOutcome::Rejected(k) => g matches Err(k2) && k == k2,
    }
}

/// The per-request authentication gate.  It starts unevaluated, resolves to
/// an outcome at most once, and hands the memoized outcome out read-only for
/// the rest of the request; it is never shared across requests.
pub struct Auth {
    pub outcome: Option<AuthOutcome>,
    pub evaluations: u64,
}

impl Auth {
    /// Unevaluated gates have run nothing; evaluated gates have run once.
    pub open spec fn wf(self) -> bool {
        &&& self.outcome is None ==> self.evaluations == 0
        &&& self.outcome is Some ==> self.evaluations == 1
    }

    /// A fresh gate for one request: not yet evaluated.
    pub fn new() -> (r: Auth)
        ensures
            r.wf(),
            r.outcome is None,
            r.evaluations == 0,
    {
        Auth { outcome: None, evaluations: 0 }
    }

    /// Resolves this guard against the header and the token store.  The first
    /// call computes and memoizes the outcome; every later call leaves the
    /// gate untouched, so the header is parsed and the store consulted at
    /// most once per request.
    pub fn resolve(&mut self, header: Option<&str>, db: &KanbanDb, now: i64)
        requires
            old(self).wf(),
            db@.wf(),
        ensures
            final(self).wf(),
            final(self).outcome is Some,
            final(self).evaluations <= 1,
            old(self).outcome is Some ==> *final(self) == *old(self),
            old(self).outcome is None ==> (final(self).evaluations == 1
                && (final(self).outcome matches Some(o) && outcome_matches(
                &o,
                spec_gate(header_view(header), db@, now as int),
            ))),
    {
        if self.outcome.is_some() {
            return ;
        }
        let outcome = match parse_auth_header(header) {
            Err(k) => AuthOutcome::Rejected(k),
            Ok(id) => match db.validate_token(id.as_str(), now) {
                Some(t) => AuthOutcome::Authenticated(t),
                None => AuthOutcome::Rejected(AuthError::InvalidToken),
            },
        };
        self.outcome = Some(outcome);
        self.evaluations = self.evaluations + 1;
    }

    /// The memoized outcome, by reference: consumers borrow it, none may
    /// take or change it.
    pub fn outcome(&self) -> (r: &AuthOutcome)
        requires
            self.outcome is Some,
        ensures
            self.outcome == Some(*r),
    {
        self.outcome.as_ref().unwrap()
    }
}

/// What the token store replied when asked for a token id, as the guard sees
/// it: the token, no (usable) row, or no store at all.
pub enum StoreReply {
    Found(Token),
    NoMatch,
    Unavailable,
}

/// The guard's classification of a store reply: a missing or expired row is
/// the one `InvalidToken` rejection; an unreachable store is an internal
/// failure, kept distinct.
pub fn classify_lookup(reply: StoreReply) -> (r: Result<Token, AuthError>)
    ensures
        reply matches StoreReply::Found(t) ==> r == Ok::<Token, AuthError>(t),
        reply is NoMatch ==> r == Err::<Token, AuthError>(AuthError::InvalidToken),
        reply is Unavailable ==> r == Err::<Token, AuthError>(AuthError::InternalError),
{
    match reply {
        StoreReply::Found(t) => Ok(t),
        StoreReply::NoMatch => Err(AuthError::InvalidToken),
        StoreReply::Unavailable => Err(AuthError::InternalError),
    }
}

/// A request without an `Authorization` header is rejected as `EmptyAuth`
/// before any token lookup: the outcome is the same whatever the store
/// holds and whenever it is asked.
pub proof fn lemma_no_header_always_rejected(s1: StoreView, s2: StoreView, now1: int, now2: int)
    ensures
        spec_gate(None, s1, now1) == Err::<TokenView, AuthError>(AuthError::EmptyAuth),
        spec_gate(None, s1, now1) == spec_gate(None, s2, now2),
{
}

/// A token id that is absent and one whose token has expired are rejected
/// identically: validation yields nothing for either, so the outside cannot
/// tell which held.
pub proof fn lemma_missing_and_expired_indistinguishable(
    s1: StoreView,
    id1: Seq<char>,
    s2: StoreView,
    id2: Seq<char>,
    now: int,
)
    requires
        !s1.has_token(id1),
        s2.has_token(id2) && s2.token_at(id2).expired_at <= now,
    ensures
        s1.spec_validate_token(id1, now) is None,
        s1.spec_validate_token(id1, now) == s2.spec_validate_token(id2, now),
{
}

/// A parsed token id whose validation yields nothing is rejected as
/// `InvalidToken` by the guard.
pub proof fn lemma_invalid_token_rejection(header: Option<Seq<char>>, s: StoreView, now: int)
    requires
        spec_parse_auth(header) is Ok,
        s.spec_validate_token(spec_parse_auth(header).unwrap(), now) is None,
    ensures
        spec_gate(header, s, now) == Err::<TokenView, AuthError>(AuthError::InvalidToken),
{
}

/// Expiry is re-evaluated per request, never cached: the same token of the
/// same store authenticates at an instant before its expiry and is rejected
/// at an instant at or after it.
pub proof fn lemma_expiry_rechecked(s: StoreView, id: Seq<char>, t1: int, t2: int)
    requires
        s.has_token(id),
        s.token_at(id).expired_at > t1,
        s.token_at(id).expired_at <= t2,
    ensures
        s.spec_validate_token(id, t1) == Some(s.token_at(id)),
        s.spec_validate_token(id, t2) is None,
{
}

} // verus!
