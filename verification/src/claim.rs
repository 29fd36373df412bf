//! The claim manager: creation and replacement of ownership claims.
//!
//! A claim asserts that a user owns a player identity. The one invariant the
//! manager enforces is per-user uniqueness: a user holds at most one claim at
//! any instant. Claiming a new player forfeits any previous claim, atomically.

use vstd::prelude::*;

verus! {

/// A single ownership claim row: `user_id` asserts ownership of `player_id`.
/// Claims start out unverified; verification is an external moderation step.
#[derive(Clone, Copy, PartialEq, Eq, Structural, Debug)]
pub struct PlayerClaim {
    pub user_id: i32,
    pub player_id: i32,
    pub verified: bool,
}

impl PlayerClaim {
    /// The fresh, unverified claim of `user_id` on `player_id`.
    pub fn new_unverified(player_id: i32, user_id: i32) -> (c: PlayerClaim)
        ensures
            c == fresh_claim(player_id, user_id),
    {
        PlayerClaim { user_id, player_id, verified: false }
    }
}

/// A player entity, identified by its stable integer id.
#[derive(Clone, Copy, PartialEq, Eq, Structural, Debug)]
pub struct DatabasePlayer {
    pub id: i32,
}

/// Why a claim operation failed.
#[derive(Clone, Copy, PartialEq, Eq, Structural, Debug)]
pub enum ClaimError {
    /// The backing store could not complete the delete or insert.
    StorageFailure,
    /// The claimed player does not exist.
    InvalidReference,
}

/// The claim rows of `user` within `rows`, in order.
pub open spec fn claims_for(rows: Seq<PlayerClaim>, user: i32) -> Seq<PlayerClaim>
    decreases rows.len(),
{
    if rows.len() == 0 {
        Seq::empty()
    } else if rows.last().user_id == user {
        claims_for(rows.drop_last(), user).push(rows.last())
    } else {
        claims_for(rows.drop_last(), user)
    }
}

/// `rows` with every claim of `user` removed.
pub open spec fn claims_without(rows: Seq<PlayerClaim>, user: i32) -> Seq<PlayerClaim>
    decreases rows.len(),
{
    if rows.len() == 0 {
        Seq::empty()
    } else if rows.last().user_id == user {
        claims_without(rows.drop_last(), user)
    } else {
        claims_without(rows.drop_last(), user).push(rows.last())
    }
}

/// The fresh, unverified claim of `user_id` on `player_id`.
pub open spec fn fresh_claim(player_id: i32, user_id: i32) -> PlayerClaim {
    PlayerClaim { user_id, player_id, verified: false }
}

/// The claim table after an atomic replace for `user_id`: every prior claim
/// of that user removed, the fresh claim on `player_id` appended.
pub open spec fn replace_claim(rows: Seq<PlayerClaim>, player_id: i32, user_id: i32) -> Seq<
    PlayerClaim,
> {
    claims_without(rows, user_id).push(fresh_claim(player_id, user_id))
}

/// No user holds two claims.
pub open spec fn claims_unique(rows: Seq<PlayerClaim>) -> bool {
    forall|i: int, j: int|
        0 <= i < j < rows.len() ==> (#[trigger] rows[i]).user_id != (#[trigger] rows[j]).user_id
}

proof fn lemma_push_contains(s: Seq<PlayerClaim>, x: PlayerClaim)
    ensures
        forall|y: PlayerClaim| #[trigger] s.push(x).contains(y) <==> (s.contains(y) || y == x),
{
    assert forall|y: PlayerClaim| #[trigger] s.push(x).contains(y) implies (s.contains(y) || y
        == x) by {
        let i = choose|i: int| 0 <= i < s.push(x).len() && s.push(x)[i] == y;
        if i < s.len() {
            assert(s[i] == y);
        }
    }
    assert forall|y: PlayerClaim| s.contains(y) || y == x implies #[trigger] s.push(x).contains(
        y,
    ) by {
        if s.contains(y) {
            let i = choose|i: int| 0 <= i < s.len() && s[i] == y;
            assert(s.push(x)[i] == y);
        } else {
            assert(s.push(x)[s.len() as int] == y);
        }
    }
}

/// How one user's rows and the remaining rows partition the claim table.
pub proof fn lemma_claims_partition(rows: Seq<PlayerClaim>, user: i32)
    ensures
        claims_for(rows, user).len() + claims_without(rows, user).len() == rows.len(),
        forall|c: PlayerClaim|
            #[trigger] claims_for(rows, user).contains(c) <==> rows.contains(c) && c.user_id
                == user,
        forall|c: PlayerClaim|
            #[trigger] claims_without(rows, user).contains(c) <==> rows.contains(c) && c.user_id
                != user,
        claims_for(rows, user).len() == 0 ==> claims_without(rows, user) == rows,
    decreases rows.len(),
{
    if rows.len() == 0 {
        assert(claims_without(rows, user) =~= rows);
        assert(forall|c: PlayerClaim| !(#[trigger] rows.contains(c)));
    } else {
        let init = rows.drop_last();
        let last = rows.last();
        lemma_claims_partition(init, user);
        assert(init.push(last) =~= rows);
        lemma_push_contains(init, last);
        if last.user_id == user {
            lemma_push_contains(claims_for(init, user), last);
        } else {
            lemma_push_contains(claims_without(init, user), last);
            if claims_for(rows, user).len() == 0 {
                assert(claims_without(init, user).push(last) =~= init.push(last));
            }
        }
    }
}

/// In a table with no duplicate users, removing one user's rows keeps every
/// other row, free of duplicates and free of that user.
pub proof fn lemma_without_unique(rows: Seq<PlayerClaim>, user: i32)
    requires
        claims_unique(rows),
    ensures
        claims_unique(claims_without(rows, user)),
        forall|i: int|
            0 <= i < claims_without(rows, user).len() ==> (#[trigger] claims_without(
                rows,
                user,
            )[i]).user_id != user,
    decreases rows.len(),
{
    if rows.len() > 0 {
        let init = rows.drop_last();
        let last = rows.last();
        assert(claims_unique(init)) by {
            assert(forall|i: int| 0 <= i < init.len() ==> init[i] == rows[i]);
        }
        lemma_without_unique(init, user);
        lemma_claims_partition(init, user);
        if last.user_id != user {
            let w = claims_without(init, user);
            assert forall|i: int, j: int|
                0 <= i < j < w.push(last).len() implies (#[trigger] w.push(last)[i]).user_id != (
            #[trigger] w.push(last)[j]).user_id by {
                if j < w.len() {
                    assert(w[i].user_id != w[j].user_id);
                } else {
                    assert(w.contains(w[i]));
                    assert(init.contains(w[i]));
                    let m = choose|m: int| 0 <= m < init.len() && init[m] == w[i];
                    assert(rows[m] == w[i]);
                    assert(rows[rows.len() - 1] == last);
                    assert(rows[m].user_id != last.user_id);
                }
            }
        }
    }
}

/// A table that holds no row of `user` is untouched by removing that user's
/// rows, and yields no row for that user.
pub proof fn lemma_claims_absent(rows: Seq<PlayerClaim>, user: i32)
    requires
        forall|i: int| 0 <= i < rows.len() ==> (#[trigger] rows[i]).user_id != user,
    ensures
        claims_for(rows, user) == Seq::<PlayerClaim>::empty(),
        claims_without(rows, user) == rows,
    decreases rows.len(),
{
    if rows.len() == 0 {
        assert(claims_without(rows, user) =~= rows);
    } else {
        let init = rows.drop_last();
        assert(forall|i: int| 0 <= i < init.len() ==> init[i] == rows[i]);
        lemma_claims_absent(init, user);
        assert(claims_without(init, user).push(rows.last()) =~= rows) by {
            assert(init.push(rows.last()) =~= rows);
        }
    }
}

/// An atomic replace keeps the table free of duplicate users.
pub proof fn lemma_replace_unique(rows: Seq<PlayerClaim>, player_id: i32, user_id: i32)
    requires
        claims_unique(rows),
    ensures
        claims_unique(replace_claim(rows, player_id, user_id)),
{
    lemma_without_unique(rows, user_id);
    let w = claims_without(rows, user_id);
    let res = w.push(fresh_claim(player_id, user_id));
    assert forall|i: int, j: int|
        0 <= i < j < res.len() implies (#[trigger] res[i]).user_id != (
    #[trigger] res[j]).user_id by {
        if j < w.len() {
            assert(w[i].user_id != w[j].user_id);
        } else {
            assert(res[j] == fresh_claim(player_id, user_id));
            assert(w[i].user_id != user_id);
        }
    }
}

/// After an atomic replace, the user holds exactly the fresh, unverified
/// claim — whatever the table held before.
pub proof fn lemma_replace_claims_for_self(rows: Seq<PlayerClaim>, player_id: i32, user_id: i32)
    ensures
        claims_for(replace_claim(rows, player_id, user_id), user_id) == seq![
            fresh_claim(player_id, user_id),
        ],
{
    let w = claims_without(rows, user_id);
    let c = fresh_claim(player_id, user_id);
    lemma_claims_partition(rows, user_id);
    assert forall|i: int| 0 <= i < w.len() implies (#[trigger] w[i]).user_id != user_id by {
        assert(w.contains(w[i]));
    }
    lemma_claims_absent(w, user_id);
    assert(w.push(c).drop_last() =~= w);
    assert(claims_for(w.push(c), user_id) == claims_for(w, user_id).push(c));
    assert(claims_for(w, user_id).push(c) =~= seq![c]);
}

/// An atomic replace for one user leaves every other user's rows unchanged.
pub proof fn lemma_replace_claims_for_other(
    rows: Seq<PlayerClaim>,
    player_id: i32,
    user_id: i32,
    other: i32,
)
    requires
        other != user_id,
    ensures
        claims_for(replace_claim(rows, player_id, user_id), other) == claims_for(rows, other),
{
    lemma_without_for_other(rows, user_id, other);
    let w = claims_without(rows, user_id);
    let c = fresh_claim(player_id, user_id);
    assert(w.push(c).drop_last() =~= w);
    assert(claims_for(w.push(c), other) == claims_for(w, other));
}

proof fn lemma_without_for_other(rows: Seq<PlayerClaim>, user: i32, other: i32)
    requires
        other != user,
    ensures
        claims_for(claims_without(rows, user), other) == claims_for(rows, other),
    decreases rows.len(),
{
    if rows.len() > 0 {
        let init = rows.drop_last();
        let last = rows.last();
        lemma_without_for_other(init, user, other);
        if last.user_id != user {
            let w = claims_without(init, user);
            assert(w.push(last).drop_last() =~= w);
            assert(claims_without(rows, user) == w.push(last));
        }
    }
}

/// In a table with no duplicate users, the row found at any index for a user
/// is that user's one and only row.
pub proof fn lemma_unique_found(rows: Seq<PlayerClaim>, user: i32, i: int)
    requires
        claims_unique(rows),
        0 <= i < rows.len(),
        rows[i].user_id == user,
    ensures
        claims_for(rows, user) == seq![rows[i]],
    decreases rows.len(),
{
    let init = rows.drop_last();
    let last = rows.last();
    assert(claims_unique(init)) by {
        assert(forall|k: int| 0 <= k < init.len() ==> init[k] == rows[k]);
    }
    if i == rows.len() - 1 {
        assert forall|k: int| 0 <= k < init.len() implies (#[trigger] init[k]).user_id != user by {
            assert(rows[k].user_id != rows[i].user_id);
        }
        lemma_claims_absent(init, user);
        assert(claims_for(init, user).push(last) =~= seq![rows[i]]);
    } else {
        assert(last.user_id != user) by {
            assert(rows[i].user_id != rows[rows.len() - 1].user_id);
        }
        lemma_unique_found(init, user, i);
        assert(init[i] == rows[i]);
    }
}

/// A user with no prior claims simply gains the fresh, unverified claim:
/// the table grows by exactly that one row, and the user then holds it and
/// nothing else.
pub proof fn lemma_first_claim(rows: Seq<PlayerClaim>, player_id: i32, user_id: i32)
    requires
        claims_for(rows, user_id) == Seq::<PlayerClaim>::empty(),
    ensures
        replace_claim(rows, player_id, user_id) == rows.push(fresh_claim(player_id, user_id)),
        claims_for(replace_claim(rows, player_id, user_id), user_id) == seq![
            fresh_claim(player_id, user_id),
        ],
{
    lemma_claims_partition(rows, user_id);
    lemma_replace_claims_for_self(rows, player_id, user_id);
}

/// Re-pointing an existing claim supersedes it: afterwards the user holds
/// exactly one claim, on the new player, and the prior row is gone.
pub proof fn lemma_reclaim_supersedes(
    rows: Seq<PlayerClaim>,
    prior: PlayerClaim,
    player_id: i32,
    user_id: i32,
)
    requires
        claims_for(rows, user_id) == seq![prior],
        prior.player_id != player_id,
    ensures
        claims_for(replace_claim(rows, player_id, user_id), user_id) == seq![
            fresh_claim(player_id, user_id),
        ],
        !replace_claim(rows, player_id, user_id).contains(prior),
        forall|c: PlayerClaim|
            #[trigger] replace_claim(rows, player_id, user_id).contains(c) && c.user_id == user_id
                ==> c.player_id == player_id,
{
    let res = replace_claim(rows, player_id, user_id);
    lemma_replace_claims_for_self(rows, player_id, user_id);
    lemma_claims_partition(res, user_id);
    assert(claims_for(rows, user_id).contains(prior)) by {
        assert(claims_for(rows, user_id)[0] == prior);
    }
    lemma_claims_partition(rows, user_id);
    assert forall|c: PlayerClaim|
        #[trigger] res.contains(c) && c.user_id == user_id implies c.player_id == player_id by {
        assert(claims_for(res, user_id).contains(c));
        assert(c == fresh_claim(player_id, user_id));
    }
}

/// Serialized re-claims by one user: the transaction that commits later
/// alone decides the outcome, and the user ends up with exactly one claim,
/// on the later player — never zero, never two.
pub proof fn lemma_later_claim_wins(rows: Seq<PlayerClaim>, p1: i32, p2: i32, user_id: i32)
    ensures
        replace_claim(replace_claim(rows, p1, user_id), p2, user_id) == replace_claim(
            rows,
            p2,
            user_id,
        ),
        claims_for(replace_claim(replace_claim(rows, p1, user_id), p2, user_id), user_id) == seq![
            fresh_claim(p2, user_id),
        ],
{
    let w = claims_without(rows, user_id);
    let c1 = fresh_claim(p1, user_id);
    lemma_claims_partition(rows, user_id);
    assert forall|i: int| 0 <= i < w.len() implies (#[trigger] w[i]).user_id != user_id by {
        assert(w.contains(w[i]));
    }
    lemma_claims_absent(w, user_id);
    assert(w.push(c1).drop_last() =~= w);
    assert(claims_without(w.push(c1), user_id) == claims_without(w, user_id));
    lemma_replace_claims_for_self(replace_claim(rows, p1, user_id), p2, user_id);
}

/// Repeating the same claim is idempotent: the second replace removes the
/// first's row and inserts an equal one, leaving the table exactly as the
/// first call left it.
pub proof fn lemma_repeat_claim(rows: Seq<PlayerClaim>, player_id: i32, user_id: i32)
    ensures
        replace_claim(replace_claim(rows, player_id, user_id), player_id, user_id)
            == replace_claim(rows, player_id, user_id),
{
    lemma_later_claim_wins(rows, player_id, player_id, user_id);
}

/// Claims by different users coexist: after each claims player `player_id`,
/// each holds exactly one unverified claim on it, independently.
pub proof fn lemma_users_independent(rows: Seq<PlayerClaim>, player_id: i32, u1: i32, u2: i32)
    requires
        u1 != u2,
    ensures
        claims_for(replace_claim(replace_claim(rows, player_id, u1), player_id, u2), u1) == seq![
            fresh_claim(player_id, u1),
        ],
        claims_for(replace_claim(replace_claim(rows, player_id, u1), player_id, u2), u2) == seq![
            fresh_claim(player_id, u2),
        ],
{
    lemma_replace_claims_for_self(rows, player_id, u1);
    lemma_replace_claims_for_other(replace_claim(rows, player_id, u1), player_id, u2, u1);
    lemma_replace_claims_for_self(replace_claim(rows, player_id, u1), player_id, u2);
}

/// An in-memory model of the backing store: the registered players and the
/// claim table. Each mutating call stands for one committed transaction, so
/// no caller ever observes a half-applied replace.
pub struct ClaimStore {
    players: Vec<i32>,
    claims: Vec<PlayerClaim>,
}

impl ClaimStore {
    /// The registered player ids, in registration order.
    pub closed spec fn players(self) -> Seq<i32> {
        self.players@
    }

    /// The claim rows, in insertion order.
    pub closed spec fn claims(self) -> Seq<PlayerClaim> {
        self.claims@
    }

    /// Well-formedness: no user holds two claims, and every claim references
    /// a registered player.
    pub open spec fn wf(self) -> bool {
        &&& claims_unique(self.claims())
        &&& forall|i: int|
            0 <= i < self.claims().len() ==> self.players().contains(
                (#[trigger] self.claims()[i]).player_id,
            )
    }

    /// An empty store: no players, no claims.
    pub fn new() -> (s: Self)
        ensures
            s.players() == Seq::<i32>::empty(),
            s.claims() == Seq::<PlayerClaim>::empty(),
            s.wf(),
    {
        ClaimStore { players: Vec::new(), claims: Vec::new() }
    }

    /// Whether a player with this id is registered.
    pub fn has_player(&self, id: i32) -> (r: bool)
        ensures
            r == self.players().contains(id),
    {
        let mut i: usize = 0;
        while i < self.players.len()
            invariant
                i <= self.players.len(),
                forall|j: int| 0 <= j < i ==> self.players@[j] != id,
            decreases self.players.len() - i,
        {
            if self.players[i] == id {
                return true;
            }
            i += 1;
        }
        false
    }

    /// Register a player id; registering an id a second time changes nothing.
    pub fn register_player(&mut self, id: i32)
        ensures
            final(self).claims() == old(self).claims(),
            final(self).players() == if old(self).players().contains(id) {
                old(self).players()
            } else {
                old(self).players().push(id)
            },
            old(self).wf() ==> final(self).wf(),
    {
        if !self.has_player(id) {
            self.players.push(id);
            proof {
                if old(self).wf() {
                    assert forall|i: int| 0 <= i < self.claims().len() implies self.players()
                        .contains((#[trigger] self.claims()[i]).player_id) by {
                        let p = self.claims()[i].player_id;
                        let k = choose|k: int|
                            0 <= k < old(self).players().len() && old(self).players()[k] == p;
                        assert(self.players()[k] == p);
                    }
                }
            }
        }
    }

    /// How many claim rows the store holds, over all users.
    pub fn num_claims(&self) -> (n: usize)
        ensures
            n == self.claims().len(),
    {
        self.claims.len()
    }

    /// The one claim of `user_id`, if the user holds any.
    pub fn claim_of(&self, user_id: i32) -> (r: Option<PlayerClaim>)
        requires
            self.wf(),
        ensures
            match r {
                Some(c) => claims_for(self.claims(), user_id) == seq![c] && c.user_id == user_id,
                None => claims_for(self.claims(), user_id) == Seq::<PlayerClaim>::empty(),
            },
    {
        let mut i: usize = 0;
        while i < self.claims.len()
            invariant
                self.wf(),
                i <= self.claims.len(),
                forall|j: int| 0 <= j < i ==> (#[trigger] self.claims@[j]).user_id != user_id,
            decreases self.claims.len() - i,
        {
            let c = self.claims[i];
            if c.user_id == user_id {
                proof {
                    lemma_unique_found(self.claims(), user_id, i as int);
                }
                return Some(c);
            }
            i += 1;
        }
        proof {
            lemma_claims_absent(self.claims(), user_id);
        }
        None
    }
}

impl DatabasePlayer {
    /// Atomically replace all claims of `claimed_by` with a fresh, unverified
    /// claim on this player: the delete of the old rows and the insert of the
    /// new one take effect as one unit, so no caller ever observes the user
    /// with zero claims in between. Fails with `InvalidReference`, changing
    /// nothing, when this player is not registered.
    pub fn initiate_claim(&self, claimed_by: i32, connection: &mut ClaimStore) -> (r: Result<
        PlayerClaim,
        ClaimError,
    >)
        requires
            old(connection).wf(),
        ensures
            final(connection).wf(),
            final(connection).players() == old(connection).players(),
            old(connection).players().contains(self.id) ==> {
                &&& r == Ok::<PlayerClaim, ClaimError>(fresh_claim(self.id, claimed_by))
                &&& final(connection).claims() == replace_claim(
                    old(connection).claims(),
                    self.id,
                    claimed_by,
                )
                &&& claims_for(final(connection).claims(), claimed_by) == seq![
                    fresh_claim(self.id, claimed_by),
                ]
            },
            !old(connection).players().contains(self.id) ==> {
                &&& r == Err::<PlayerClaim, ClaimError>(ClaimError::InvalidReference)
                &&& final(connection).claims() == old(connection).claims()
            },
    {
        if !connection.has_player(self.id) {
            return Err(ClaimError::InvalidReference);
        }
        let ghost rows = connection.claims@;
        // first, clear all claims by the given user
        let mut kept: Vec<PlayerClaim> = Vec::new();
        let mut i: usize = 0;
        while i < connection.claims.len()
            invariant
                i <= connection.claims.len(),
                connection.claims@ == rows,
                connection.players@ == old(connection).players@,
                kept@ == claims_without(rows.take(i as int), claimed_by),
            decreases connection.claims.len() - i,
        {
            let c = connection.claims[i];
            proof {
                assert(rows.take(i as int + 1).drop_last() =~= rows.take(i as int));
                assert(rows.take(i as int + 1).last() == rows[i as int]);
            }
            if c.user_id != claimed_by {
                kept.push(c);
            }
            i += 1;
        }
        proof {
            assert(rows.take(rows.len() as int) =~= rows);
        }
        // establish the new claim
        let claim = PlayerClaim::new_unverified(self.id, claimed_by);
        kept.push(claim);
        connection.claims = kept;
        proof {
            lemma_replace_unique(rows, self.id, claimed_by);
            lemma_claims_partition(rows, claimed_by);
            let w = claims_without(rows, claimed_by);
            assert forall|k: int| 0 <= k < connection.claims@.len() implies connection.players@
                .contains((#[trigger] connection.claims@[k]).player_id) by {
                if k < w.len() {
                    assert(connection.claims@[k] == w[k]);
                    assert(w.contains(w[k]));
                    assert(rows.contains(w[k]));
                    let m = choose|m: int| 0 <= m < rows.len() && rows[m] == w[k];
                    assert(old(connection).players().contains(rows[m].player_id));
                } else {
                    assert(connection.claims@[k] == fresh_claim(self.id, claimed_by));
                }
            }
            lemma_replace_claims_for_self(rows, self.id, claimed_by);
        }
        Ok(claim)
    }
}

} // verus!
