//! [`Scoreboard`] keeps track of the participating players' results
//! across the rounds of a game.

use vstd::laws_eq::obeys_view_eq;
use vstd::prelude::*;
use vstd::std_specs::iter::IteratorSpec;

use crate::util::{seq_has_key, seq_key_index, IndexMap};

verus! {

/// Keeps track of wins and losses across rounds for one player.
#[derive(Debug, Clone)]
pub struct ScoreEntry {
    wins: u32,
    losses: u32,
}

impl ScoreEntry {
    pub closed spec fn spec_wins(&self) -> nat {
        self.wins as nat
    }

    pub closed spec fn spec_losses(&self) -> nat {
        self.losses as nat
    }

    /// A score with no wins and no losses.
    pub fn new() -> (entry: Self)
        ensures
            entry.spec_wins() == 0,
            entry.spec_losses() == 0,
    {
        ScoreEntry { wins: 0, losses: 0 }
    }

    pub fn wins(&self) -> (w: u32)
        ensures
            w == self.spec_wins(),
    {
        self.wins
    }

    pub fn losses(&self) -> (l: u32)
        ensures
            l == self.spec_losses(),
    {
        self.losses
    }

    /// Gets total attempts, i.e., the sum of wins and losses.
    pub fn attempts(&self) -> (a: u32)
        requires
            self.spec_wins() + self.spec_losses() <= u32::MAX,
        ensures
            a == self.spec_wins() + self.spec_losses(),
    {
        self.wins + self.losses
    }

    /// Adds a win to the score.
    pub fn add_win(&mut self)
        requires
            old(self).spec_wins() < u32::MAX,
        ensures
            final(self).spec_wins() == old(self).spec_wins() + 1,
            final(self).spec_losses() == old(self).spec_losses(),
    {
        self.wins = self.wins + 1;
    }

    /// Adds a loss to the score.
    pub fn add_loss(&mut self)
        requires
            old(self).spec_losses() < u32::MAX,
        ensures
            final(self).spec_wins() == old(self).spec_wins(),
            final(self).spec_losses() == old(self).spec_losses() + 1,
    {
        self.losses = self.losses + 1;
    }
}

impl Default for ScoreEntry {
    fn default() -> (entry: Self)
        ensures
            entry.spec_wins() == 0,
            entry.spec_losses() == 0,
    {
        ScoreEntry { wins: 0, losses: 0 }
    }
}

/// Keeps track of participating players's results across rounds during a
/// game. A player is identified by their user id. It is assumed that a
/// round ends and a new one starts when a win is added to any player.
#[derive(Debug, Clone)]
pub struct Scoreboard {
    /// Total number of rounds played.
    rounds: u32,
    players: IndexMap<u64, ScoreEntry>,
}

/// The score that a player has after one more win.
pub open spec fn won(prev: Option<ScoreEntry>, next: ScoreEntry) -> bool {
    match prev {
        Some(p) => next.spec_wins() == p.spec_wins() + 1 && next.spec_losses() == p.spec_losses(),
        None => next.spec_wins() == 1 && next.spec_losses() == 0,
    }
}

/// The score that a player has after one more loss.
pub open spec fn lost(prev: Option<ScoreEntry>, next: ScoreEntry) -> bool {
    match prev {
        Some(p) => next.spec_wins() == p.spec_wins() && next.spec_losses() == p.spec_losses() + 1,
        None => next.spec_wins() == 0 && next.spec_losses() == 1,
    }
}

/// The entries after `user`'s score became `score`: their entry changes in
/// its place, or, for a player without one, is appended last.
pub open spec fn placed(entries: Seq<(u64, ScoreEntry)>, user: u64, score: ScoreEntry) -> Seq<(u64, ScoreEntry)> {
    if seq_has_key(entries, user) {
        entries.update(seq_key_index(entries, user), (user, score))
    } else {
        entries.push((user, score))
    }
}

/// `after` is `before` with a win recorded for `user`: one more round,
/// one more win for `user`, every other score as it was.
pub open spec fn recorded_win(before: Scoreboard, after: Scoreboard, user: u64) -> bool {
    &&& after.wf()
    &&& after.spec_rounds() == before.spec_rounds() + 1
    &&& after.players().dom() == before.players().dom().insert(user)
    &&& forall|other: u64| #![trigger after.score_of(other)]
        other != user ==> after.score_of(other) == before.score_of(other)
    &&& after.score_of(user) matches Some(s) && won(before.score_of(user), s)
        && after.entries() == placed(before.entries(), user, s)
}

/// `after` is `before` with a loss recorded for `user`: the same round,
/// one more loss for `user`, every other score as it was.
pub open spec fn recorded_loss(before: Scoreboard, after: Scoreboard, user: u64) -> bool {
    &&& after.wf()
    &&& after.spec_rounds() == before.spec_rounds()
    &&& after.players().dom() == before.players().dom().insert(user)
    &&& forall|other: u64| #![trigger after.score_of(other)]
        other != user ==> after.score_of(other) == before.score_of(other)
    &&& after.score_of(user) matches Some(s) && lost(before.score_of(user), s)
        && after.entries() == placed(before.entries(), user, s)
}

/// Whether a win and a loss can both still be recorded for `user` without
/// a counter overflowing.
pub open spec fn can_record(board: Scoreboard, user: u64) -> bool {
    &&& board.spec_rounds() < u32::MAX
    &&& board.score_of(user) matches Some(s) ==> s.spec_wins() < u32::MAX && s.spec_losses()
        < u32::MAX
}

impl Scoreboard {
    /// The board's invariant: each player has one entry.
    pub closed spec fn wf(&self) -> bool {
        self.players.wf()
    }

    /// Total number of rounds played.
    pub closed spec fn spec_rounds(&self) -> nat {
        self.rounds as nat
    }

    /// The score of each player that has one.
    pub closed spec fn players(&self) -> Map<u64, ScoreEntry> {
        self.players@
    }

    /// The players' entries in the order in which they joined.
    pub closed spec fn entries(&self) -> Seq<(u64, ScoreEntry)> {
        self.players.entries()
    }

    /// The score of `user` as the board holds it.
    pub open spec fn score_of(&self, user: u64) -> Option<ScoreEntry> {
        if self.players().contains_key(user) {
            Some(self.players()[user])
        } else {
            None
        }
    }

    /// An empty board: no rounds played and no players.
    pub fn new() -> (board: Self)
        ensures
            board.wf(),
            board.spec_rounds() == 0,
            board.players() == Map::<u64, ScoreEntry>::empty(),
            board.entries() == Seq::<(u64, ScoreEntry)>::empty(),
    {
        Scoreboard { rounds: 0, players: IndexMap::new() }
    }

    /// Gets the score of `user`, if they have played.
    pub fn get(&self, user: u64) -> (score: Option<&ScoreEntry>)
        requires
            self.wf(),
        ensures
            match score {
                Some(s) => self.score_of(user) == Some(*s),
                None => self.score_of(user) is None,
            },
    {
        proof {
            broadcast use vstd::laws_eq::group_laws_eq;
            assert(obeys_view_eq::<u64>());
        }
        self.players.get(&user)
    }

    /// Gets total number of rounds played.
    pub fn rounds(&self) -> (r: u32)
        ensures
            r == self.spec_rounds(),
    {
        self.rounds
    }

    /// Iterates over the players and their scores, in the order in which
    /// the players first got a result.
    pub fn iter(&self) -> (it: std::slice::Iter<'_, (u64, ScoreEntry)>)
        ensures
            it.remaining() == self.entries().map_values(|e: (u64, ScoreEntry)| &e),
    {
        self.players.iter()
    }

    /// Records a win for `user`. The round counter goes up too, since a
    /// win means that the current round is over.
    pub fn add_win(&mut self, user: u64)
        requires
            old(self).wf(),
            old(self).spec_rounds() < u32::MAX,
            old(self).score_of(user) matches Some(s) ==> s.spec_wins() < u32::MAX,
        ensures
            recorded_win(*old(self), *final(self), user),
    {
        self.rounds = self.rounds + 1;
        proof {
            broadcast use vstd::laws_eq::group_laws_eq;
            assert(obeys_view_eq::<u64>());
        }
        let entry = self.players.get_or_insert_with(user, ScoreEntry::default);
        entry.add_win();
    }

    /// Records a loss for `user`. The round goes on.
    pub fn add_loss(&mut self, user: u64)
        requires
            old(self).wf(),
            old(self).score_of(user) matches Some(s) ==> s.spec_losses() < u32::MAX,
        ensures
            recorded_loss(*old(self), *final(self), user),
    {
        proof {
            broadcast use vstd::laws_eq::group_laws_eq;
            assert(obeys_view_eq::<u64>());
        }
        let entry = self.players.get_or_insert_with(user, ScoreEntry::default);
        entry.add_loss();
    }
}

impl IntoIterator for Scoreboard {
    type Item = (u64, ScoreEntry);

    type IntoIter = std::vec::IntoIter<(u64, ScoreEntry)>;

    /// Iterates over the players and their scores by value, in the order in
    /// which the players first got a result.
    fn into_iter(self) -> (it: std::vec::IntoIter<(u64, ScoreEntry)>)
        ensures
            it.remaining() == self.entries(),
    {
        self.players.into_iter()
    }
}

impl Default for Scoreboard {
    fn default() -> (board: Self)
        ensures
            board.wf(),
            board.spec_rounds() == 0,
            board.players() == Map::<u64, ScoreEntry>::empty(),
    {
        Scoreboard::new()
    }
}

/// `boards` are the boards that recording `picks` one by one goes
/// through: each pick is a win or a loss of its player.
pub open spec fn replayed(boards: Seq<Scoreboard>, picks: Seq<(u64, bool)>) -> bool {
    &&& boards.len() == picks.len() + 1
    &&& forall|i: int|
        0 <= i < picks.len() ==> if (#[trigger] picks[i]).1 {
            recorded_win(boards[i], boards[i + 1], picks[i].0)
        } else {
            recorded_loss(boards[i], boards[i + 1], picks[i].0)
        }
}

/// How many picks of `user` were wins (`won`) or losses (`!won`).
pub open spec fn picks_of(picks: Seq<(u64, bool)>, user: u64, won: bool) -> nat {
    picks.filter(|p: (u64, bool)| p.0 == user && p.1 == won).len()
}

/// How many picks were wins.
pub open spec fn wins_in(picks: Seq<(u64, bool)>) -> nat {
    picks.filter(|p: (u64, bool)| p.1).len()
}

/// A round ends with each win: after recording picks, the rounds played
/// grew by the number of wins among them.
pub proof fn law_rounds_count_wins(boards: Seq<Scoreboard>, picks: Seq<(u64, bool)>)
    requires
        replayed(boards, picks),
    ensures
        boards.last().spec_rounds() == boards[0].spec_rounds() + wins_in(picks),
    decreases picks.len(),
{
    reveal_with_fuel(Seq::filter, 1);
    if picks.len() > 0 {
        let n = picks.len() - 1;
        let bs = boards.drop_last();
        let ps = picks.drop_last();
        assert forall|i: int| 0 <= i < ps.len() implies if (#[trigger] ps[i]).1 {
            recorded_win(bs[i], bs[i + 1], ps[i].0)
        } else {
            recorded_loss(bs[i], bs[i + 1], ps[i].0)
        } by {
            assert(picks[i] == ps[i]);
        }
        law_rounds_count_wins(bs, ps);
        assert(picks[n] == picks.last());
        assert(bs.last() == boards[n]);
    } else {
        assert(picks.filter(|p: (u64, bool)| p.1) =~= Seq::<(u64, bool)>::empty());
    }
}

/// A player's score counts their picks: starting from a board where they
/// have none, their wins and losses are the number of their picks that
/// were wins and losses, and they have a score exactly when they picked.
pub proof fn law_score_counts_picks(boards: Seq<Scoreboard>, picks: Seq<(u64, bool)>, user: u64)
    requires
        replayed(boards, picks),
        boards[0].score_of(user) is None,
    ensures
        boards.last().score_of(user) is None <==> picks_of(picks, user, true) + picks_of(picks, user, false) == 0,
        boards.last().score_of(user) matches Some(s) ==> s.spec_wins() == picks_of(picks, user, true)
            && s.spec_losses() == picks_of(picks, user, false),
    decreases picks.len(),
{
    reveal_with_fuel(Seq::filter, 1);
    if picks.len() > 0 {
        let n = picks.len() - 1;
        let bs = boards.drop_last();
        let ps = picks.drop_last();
        assert forall|i: int| 0 <= i < ps.len() implies if (#[trigger] ps[i]).1 {
            recorded_win(bs[i], bs[i + 1], ps[i].0)
        } else {
            recorded_loss(bs[i], bs[i + 1], ps[i].0)
        } by {
            assert(picks[i] == ps[i]);
        }
        law_score_counts_picks(bs, ps, user);
        assert(picks[n] == picks.last());
        assert(bs.last() == boards[n]);
        let b = boards[n];
        let a = boards.last();
        if picks[n].1 {
            assert(recorded_win(b, a, picks[n].0));
        } else {
            assert(recorded_loss(b, a, picks[n].0));
        }
        if picks[n].0 == user {
            assert(a.score_of(user) is Some);
        } else {
            assert(a.score_of(user) == b.score_of(user));
        }
    } else {
        assert(picks.filter(|p: (u64, bool)| p.0 == user && p.1 == true) =~= Seq::<(u64, bool)>::empty());
        assert(picks.filter(|p: (u64, bool)| p.0 == user && p.1 == false) =~= Seq::<(u64, bool)>::empty());
    }
}

/// The wins of all the players of `entries` together.
pub open spec fn total_wins(entries: Seq<(u64, ScoreEntry)>) -> nat
    decreases entries.len(),
{
    if entries.len() == 0 {
        0
    } else {
        total_wins(entries.drop_last()) + entries.last().1.spec_wins()
    }
}

/// Replacing entry `i` changes the total by the difference of the wins.
proof fn lemma_total_update(entries: Seq<(u64, ScoreEntry)>, i: int, e: (u64, ScoreEntry))
    requires
        0 <= i < entries.len(),
    ensures
        total_wins(entries.update(i, e)) + entries[i].1.spec_wins() == total_wins(entries)
            + e.1.spec_wins(),
    decreases entries.len(),
{
    let u = entries.update(i, e);
    if i == entries.len() - 1 {
        assert(u.drop_last() =~= entries.drop_last());
    } else {
        assert(u.drop_last() =~= entries.drop_last().update(i, e));
        lemma_total_update(entries.drop_last(), i, e);
    }
}

/// Appending an entry adds its wins to the total.
proof fn lemma_total_push(entries: Seq<(u64, ScoreEntry)>, e: (u64, ScoreEntry))
    ensures
        total_wins(entries.push(e)) == total_wins(entries) + e.1.spec_wins(),
{
    assert(entries.push(e).drop_last() =~= entries);
}

/// A recorded pick changes the total of the wins by one for a win and
/// leaves it for a loss.
proof fn lemma_pick_total(before: Scoreboard, after: Scoreboard, user: u64, won: bool)
    requires
        before.wf(),
        if won {
            recorded_win(before, after, user)
        } else {
            recorded_loss(before, after, user)
        },
    ensures
        total_wins(after.entries()) == total_wins(before.entries()) + if won {
            1nat
        } else {
            0nat
        },
{
    let e = before.entries();
    let s = after.score_of(user).unwrap();
    if seq_has_key(e, user) {
        let i = seq_key_index(e, user);
        assert(before.score_of(user) == Some(e[i].1));
        lemma_total_update(e, i, (user, s));
    } else {
        assert(before.score_of(user) is None);
        lemma_total_push(e, (user, s));
    }
}

/// Rounds are counted by wins: on a board whose rounds equal the wins of
/// all its players, as a new board's do, recording picks keeps them equal.
pub proof fn law_rounds_equal_total_wins(boards: Seq<Scoreboard>, picks: Seq<(u64, bool)>)
    requires
        replayed(boards, picks),
        boards[0].wf(),
        boards[0].spec_rounds() == total_wins(boards[0].entries()),
    ensures
        boards.last().spec_rounds() == total_wins(boards.last().entries()),
    decreases picks.len(),
{
    if picks.len() > 0 {
        let n = picks.len() - 1;
        let bs = boards.drop_last();
        let ps = picks.drop_last();
        assert forall|i: int| 0 <= i < ps.len() implies if (#[trigger] ps[i]).1 {
            recorded_win(bs[i], bs[i + 1], ps[i].0)
        } else {
            recorded_loss(bs[i], bs[i + 1], ps[i].0)
        } by {
            assert(picks[i] == ps[i]);
        }
        law_rounds_equal_total_wins(bs, ps);
        assert(bs.last() == boards[n]);
        let b = boards[n];
        let a = boards.last();
        assert(b.wf()) by {
            if n > 0 {
                let p = picks[n - 1];
                if p.1 {
                    assert(recorded_win(boards[n - 1], boards[n], p.0));
                } else {
                    assert(recorded_loss(boards[n - 1], boards[n], p.0));
                }
            }
        }
        if picks[n].1 {
            assert(recorded_win(b, a, picks[n].0));
        } else {
            assert(recorded_loss(b, a, picks[n].0));
        }
        lemma_pick_total(b, a, picks[n].0, picks[n].1);
    }
}

} // verus!
