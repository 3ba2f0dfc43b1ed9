//! What a game reads from and writes into the ids of its buttons, which
//! lobby an event belongs to, and how often a failed send is retried.

use vstd::prelude::*;

use crate::text::{char_index, find_char, pieces, split_on, substring, views};

verus! {

/// Whether `c` is an ASCII decimal digit.
pub open spec fn is_digit(c: char) -> bool {
    '0' <= c && c <= '9'
}

/// The value of the digit `c`.
pub open spec fn digit_value(c: char) -> nat {
    (c as nat - '0' as nat) as nat
}

/// The character of the digit `d`.
pub open spec fn digit_char(d: nat) -> char {
    ('0' as nat + d) as char
}

/// The number that the decimal digits `s` spell.
pub open spec fn digits_value(s: Seq<char>) -> nat
    decreases s.len(),
{
    if s.len() == 0 {
        0
    } else {
        digits_value(s.drop_last()) * 10 + digit_value(s.last())
    }
}

/// The digits of an unsigned number in `s`: `s` without one leading `+`.
pub open spec fn unsigned_digits(s: Seq<char>) -> Seq<char> {
    if s.len() > 0 && s[0] == '+' {
        s.skip(1)
    } else {
        s
    }
}

/// The number that `s` spells as an unsigned decimal: an optional `+`
/// followed by at least one ASCII digit, and nothing else.
pub open spec fn spelled_number(s: Seq<char>) -> Option<nat> {
    let d = unsigned_digits(s);
    if d.len() > 0 && forall|i: int| 0 <= i < d.len() ==> is_digit(#[trigger] d[i]) {
        Some(digits_value(d))
    } else {
        None
    }
}

/// The decimal digits of `n`, without leading zeros.
pub open spec fn decimal(n: nat) -> Seq<char>
    decreases n,
{
    if n < 10 {
        seq![digit_char(n)]
    } else {
        decimal(n / 10).push(digit_char(n % 10))
    }
}

/// Parses `s` as an unsigned decimal number no larger than `max`, as the
/// standard library parses unsigned integers: an optional `+`, then ASCII
/// digits only.
pub(crate) fn parse_bounded(s: &str, max: u64) -> (n: Option<u64>)
    ensures
        match n {
            Some(v) => spelled_number(s@) == Some(v as nat),
            None => spelled_number(s@) is None || spelled_number(s@).unwrap() > max,
        },
        n matches Some(v) ==> v <= max,
{
    let chars = crate::text::chars_of(s);
    let ghost d = unsigned_digits(s@);
    let start: usize = if chars.len() > 0 && chars[0] == '+' {
        1
    } else {
        0
    };
    if start >= chars.len() {
        return None;
    }
    let mut acc: u128 = 0;
    let mut over = false;
    let mut i: usize = start;
    proof {
        assert(d =~= chars@.skip(start as int));
        assert(d.take(0) =~= Seq::<char>::empty());
    }
    while i < chars.len()
        invariant
            chars@ == s@,
            d == unsigned_digits(s@),
            d == chars@.skip(start as int),
            start <= i <= chars@.len(),
            forall|j: int| 0 <= j < i - start ==> is_digit(#[trigger] d[j]),
            !over ==> acc == digits_value(d.take(i - start)) && acc <= max,
            over ==> digits_value(d.take(i - start)) > max,
        decreases chars@.len() - i,
    {
        let c = chars[i];
        if !('0' <= c && c <= '9') {
            proof {
                assert(d[i - start] == c);
                assert(!is_digit(d[i - start]));
            }
            return None;
        }
        let ghost prev = digits_value(d.take(i - start));
        proof {
            assert(d.take(i - start + 1).drop_last() =~= d.take(i - start));
            assert(d.take(i - start + 1).last() == c);
        }
        if !over {
            let next = acc * 10 + ((c as u32 - '0' as u32) as u128);
            if next > max as u128 {
                over = true;
            } else {
                acc = next;
            }
        } else {
            assert(prev * 10 + digit_value(c) >= prev) by (nonlinear_arith);
        }
        i = i + 1;
    }
    proof {
        assert(d.take(d.len() as int) =~= d);
    }
    if over {
        None
    } else {
        Some(acc as u64)
    }
}

/// Parses `s` as a `u32`, as the standard library does: an optional `+`,
/// then ASCII digits that spell a number that fits.
pub fn parse_u32(s: &str) -> (n: Option<u32>)
    ensures
        match n {
            Some(v) => spelled_number(s@) == Some(v as nat),
            None => spelled_number(s@) is None || spelled_number(s@).unwrap() > u32::MAX,
        },
{
    match parse_bounded(s, u32::MAX as u64) {
        Some(v) => Some(v as u32),
        None => None,
    }
}

/// Parses `s` as a `usize`, as the standard library does: an optional `+`,
/// then ASCII digits that spell a number that fits.
pub fn parse_usize(s: &str) -> (n: Option<usize>)
    ensures
        match n {
            Some(v) => spelled_number(s@) == Some(v as nat),
            None => spelled_number(s@) is None || spelled_number(s@).unwrap() > usize::MAX,
        },
{
    match parse_bounded(s, usize::MAX as u64) {
        Some(v) => Some(v as usize),
        None => None,
    }
}

/// The one-character string of the digit `d`.
fn digit_str(d: u64) -> (s: &'static str)
    requires
        d < 10,
    ensures
        s@ == seq![digit_char(d as nat)],
{
    proof {
        reveal_strlit("0");
        reveal_strlit("1");
        reveal_strlit("2");
        reveal_strlit("3");
        reveal_strlit("4");
        reveal_strlit("5");
        reveal_strlit("6");
        reveal_strlit("7");
        reveal_strlit("8");
        reveal_strlit("9");
    }
    match d {
        0 => "0",
        1 => "1",
        2 => "2",
        3 => "3",
        4 => "4",
        5 => "5",
        6 => "6",
        7 => "7",
        8 => "8",
        _ => "9",
    }
}

/// Writes `n` in decimal digits.
pub fn write_decimal(n: u64) -> (s: String)
    ensures
        s@ == decimal(n as nat),
    decreases n,
{
    if n < 10 {
        String::from_str(digit_str(n))
    } else {
        let mut s = write_decimal(n / 10);
        s.append(digit_str(n % 10));
        s
    }
}

/// The id of the button of choice `idx` in round `round` of the game
/// `game_id`: the three fields separated by commas.
pub open spec fn spec_choice_id(game_id: Seq<char>, round: u32, idx: usize) -> Seq<char> {
    game_id + seq![','] + decimal(round as nat) + seq![','] + decimal(idx as nat)
}

/// Writes the id of the button of choice `idx` in round `round` of the
/// game `game_id`.
pub fn choice_id(game_id: &str, round: u32, idx: usize) -> (id: String)
    ensures
        id@ == spec_choice_id(game_id@, round, idx),
{
    proof {
        reveal_strlit(",");
    }
    let mut id = String::from_str(game_id);
    id.append(",");
    id.append(write_decimal(round as u64).as_str());
    id.append(",");
    id.append(write_decimal(idx as u64).as_str());
    id
}

/// The choice that a button id picks, for the current `round` of a
/// question with `n` choices: its second comma-separated field must spell
/// `round` and its third a choice below `n`.
pub open spec fn chosen(custom_id: Seq<char>, round: u32, n: usize) -> Option<usize> {
    let f = pieces(custom_id, ',');
    if f.len() >= 3 && spelled_number(f[1]) == Some(round as nat) && spelled_number(f[2]) is Some
        && spelled_number(f[2]).unwrap() < n {
        Some(spelled_number(f[2]).unwrap() as usize)
    } else {
        None
    }
}

/// Reads the choice that the button id `custom_id` picks, if it belongs to
/// the current `round` and picks one of `n` choices.
pub fn parse_choice(custom_id: &str, round: u32, n: usize) -> (choice: Option<usize>)
    ensures
        choice == chosen(custom_id@, round, n),
{
    let fields = split_on(custom_id, ',');
    if fields.len() < 3 {
        return None;
    }
    let r = match parse_u32(fields[1].as_str()) {
        Some(r) => r,
        None => return None,
    };
    let c = match parse_usize(fields[2].as_str()) {
        Some(c) => c,
        None => return None,
    };
    proof {
        assert(views(fields@)[1] == fields@[1]@);
        assert(views(fields@)[2] == fields@[2]@);
    }
    if r != round || c >= n {
        return None;
    }
    Some(c)
}

/// The game that a button id belongs to: its first comma-separated field,
/// or the whole id when there is no comma.
pub open spec fn spec_game_id(custom_id: Seq<char>) -> Seq<char> {
    match char_index(custom_id, ',') {
        Some(i) => custom_id.take(i),
        None => custom_id,
    }
}

/// Extracts the first comma-separated field of `custom_id`, which names the
/// game it is intended for.
pub fn game_id(custom_id: &str) -> (id: String)
    ensures
        id@ == spec_game_id(custom_id@),
{
    match find_char(custom_id, ',') {
        Some(i) => substring(custom_id, 0, i),
        None => String::from_str(custom_id),
    }
}

/// The lobby an interaction belongs to: the guild it comes from, or the
/// user in a direct message.
pub fn lobby_id(guild: Option<u64>, user: u64) -> (id: u64)
    ensures
        id == match guild {
            Some(g) => g,
            None => user,
        },
{
    match guild {
        Some(g) => g,
        None => user,
    }
}

/// The outcome of a try.
#[derive(Debug, Clone, Copy, PartialEq, Eq, Structural)]
pub enum RetryResult {
    /// Action was successful.
    Success,
    /// Action failed but there are retries left.
    Fail,
    /// Action failed and there are no more retries left.
    Terminal,
}

/// How many consecutive failures use the retries up.
pub const MAX_TRIES: u32 = 3;

/// Counts consecutive failures of an action that reports success with a
/// flag.
#[derive(Debug)]
pub struct Retry {
    tries: u32,
}

/// The consecutive failures counted after a try that succeeded or not.
pub open spec fn next_tries(tries: nat, succeeded: bool) -> nat {
    if succeeded {
        0
    } else {
        tries + 1
    }
}

impl Retry {
    /// The consecutive failures so far.
    pub closed spec fn spec_tries(&self) -> nat {
        self.tries as nat
    }

    /// The counter's invariant: it stops at [`MAX_TRIES`].
    pub open spec fn wf(&self) -> bool {
        self.spec_tries() <= MAX_TRIES
    }

    /// A counter with no failures.
    pub fn new() -> (retry: Self)
        ensures
            retry.wf(),
            retry.spec_tries() == 0,
    {
        Retry { tries: 0 }
    }

    /// Whether the retries are used up: [`MAX_TRIES`] consecutive failures.
    pub fn exhausted(&self) -> (done: bool)
        ensures
            done == (self.spec_tries() >= MAX_TRIES),
    {
        self.tries >= MAX_TRIES
    }

    /// What a try is answered before the action runs: [`RetryResult::Terminal`]
    /// once the retries are used up, nothing when the action may run.
    pub fn before_try(&self) -> (early: Option<RetryResult>)
        ensures
            early == if self.spec_tries() >= MAX_TRIES {
                Some(RetryResult::Terminal)
            } else {
                None::<RetryResult>
            },
    {
        if self.exhausted() {
            Some(RetryResult::Terminal)
        } else {
            None
        }
    }

    /// Records the outcome of an action that ran: a success resets the
    /// count, a failure adds to it.
    pub fn settle(&mut self, succeeded: bool) -> (result: RetryResult)
        requires
            old(self).wf(),
            old(self).spec_tries() < MAX_TRIES,
        ensures
            final(self).wf(),
            final(self).spec_tries() == next_tries(old(self).spec_tries(), succeeded),
            result == if succeeded {
                RetryResult::Success
            } else {
                RetryResult::Fail
            },
    {
        if succeeded {
            self.tries = 0;
            RetryResult::Success
        } else {
            self.tries = self.tries + 1;
            RetryResult::Fail
        }
    }

    /// Tries `action` unless the retries are used up. Returns
    /// [`RetryResult::Terminal`] after [`MAX_TRIES`] consecutive failures,
    /// without running the action.
    pub fn try_with<F: FnOnce() -> bool>(&mut self, action: F) -> (result: RetryResult)
        requires
            old(self).wf(),
            call_requires(action, ()),
        ensures
            final(self).wf(),
            old(self).spec_tries() >= MAX_TRIES ==> result == RetryResult::Terminal
                && final(self).spec_tries() == old(self).spec_tries(),
            old(self).spec_tries() < MAX_TRIES ==> exists|ok: bool|
                call_ensures(action, (), ok) && final(self).spec_tries() == next_tries(
                    old(self).spec_tries(),
                    ok,
                ) && result == if ok {
                    RetryResult::Success
                } else {
                    RetryResult::Fail
                },
    {
        match self.before_try() {
            Some(early) => early,
            None => {
                let ok = action();
                self.settle(ok)
            },
        }
    }
}

/// The decimal digits of a number are digits, and they spell it.
pub proof fn lemma_decimal(n: nat)
    ensures
        decimal(n).len() >= 1,
        forall|i: int| 0 <= i < decimal(n).len() ==> is_digit(#[trigger] decimal(n)[i]),
        digits_value(decimal(n)) == n,
    decreases n,
{
    let d = decimal(n);
    if n >= 10 {
        lemma_decimal(n / 10);
        let q = n / 10;
        let r = n % 10;
        assert(d == decimal(q).push(digit_char(r)));
        assert(d.drop_last() =~= decimal(q));
        assert(d.last() == digit_char(r));
        assert(digit_value(digit_char(r)) == r);
        assert(digits_value(d) == digits_value(decimal(q)) * 10 + digit_value(d.last()));
        assert(q * 10 + r == n) by (nonlinear_arith)
            requires
                q == n / 10,
                r == n % 10,
        ;
        assert forall|i: int| 0 <= i < d.len() implies is_digit(#[trigger] d[i]) by {
            if i < d.len() - 1 {
                assert(d[i] == decimal(q)[i]);
            }
        }
    } else {
        assert(d == seq![digit_char(n)]);
        assert(digit_value(digit_char(n)) == n);
        assert(d.drop_last() =~= Seq::<char>::empty());
        assert(digits_value(d) == digits_value(d.drop_last()) * 10 + digit_value(d.last()));
    }
}

/// A text without the separator is one piece.
proof fn lemma_pieces_whole(s: Seq<char>, sep: char)
    requires
        forall|i: int| 0 <= i < s.len() ==> s[i] != sep,
    ensures
        pieces(s, sep) == seq![s],
    decreases s.len(),
{
    if s.len() > 0 {
        lemma_pieces_whole(s.drop_last(), sep);
        assert(s.drop_last().push(s.last()) =~= s);
        assert(pieces(s, sep) =~= seq![s]);
    } else {
        assert(s =~= Seq::<char>::empty());
    }
}

/// Joining two texts with the separator joins their pieces.
proof fn lemma_pieces_join(a: Seq<char>, b: Seq<char>, sep: char)
    ensures
        pieces(a + seq![sep] + b, sep) == pieces(a, sep) + pieces(b, sep),
    decreases b.len(),
{
    crate::text::lemma_pieces_len(b, sep);
    if b.len() == 0 {
        assert(a + seq![sep] + b =~= a.push(sep));
        assert((a + seq![sep] + b).drop_last() =~= a);
        assert(pieces(a, sep) + pieces(b, sep) =~= pieces(a, sep).push(Seq::empty()));
    } else {
        let b0 = b.drop_last();
        lemma_pieces_join(a, b0, sep);
        crate::text::lemma_pieces_len(b0, sep);
        let s = a + seq![sep] + b;
        assert(s.drop_last() =~= a + seq![sep] + b0);
        assert(s.last() == b.last());
        if b.last() == sep {
            assert(pieces(a, sep) + pieces(b, sep) =~= (pieces(a, sep) + pieces(b0, sep)).push(Seq::empty()));
        } else {
            let p = pieces(a, sep) + pieces(b0, sep);
            let q = pieces(b0, sep);
            assert(p.update(p.len() - 1, p.last().push(b.last())) =~= pieces(a, sep) + q.update(
                q.len() - 1,
                q.last().push(b.last()),
            ));
        }
    }
}

/// A number written in decimal digits reads back as itself.
pub proof fn law_decimal_round_trip(n: nat)
    ensures
        spelled_number(decimal(n)) == Some(n),
{
    lemma_decimal(n);
    assert(unsigned_digits(decimal(n)) == decimal(n));
}

/// The fields of a button id whose game id has no comma: the game id and
/// the two numbers, each of which reads back.
proof fn lemma_choice_id_fields(game_id: Seq<char>, round: u32, idx: usize)
    requires
        !game_id.contains(','),
    ensures
        pieces(spec_choice_id(game_id, round, idx), ',') == seq![
            game_id,
            decimal(round as nat),
            decimal(idx as nat),
        ],
        spelled_number(decimal(round as nat)) == Some(round as nat),
        spelled_number(decimal(idx as nat)) == Some(idx as nat),
        spec_game_id(spec_choice_id(game_id, round, idx)) == game_id,
{
    let r = decimal(round as nat);
    let c = decimal(idx as nat);
    lemma_decimal(round as nat);
    lemma_decimal(idx as nat);
    law_decimal_round_trip(round as nat);
    law_decimal_round_trip(idx as nat);
    assert forall|i: int| 0 <= i < game_id.len() implies game_id[i] != ',' by {
        if game_id[i] == ',' {
            assert(game_id.contains(','));
        }
    }
    assert forall|i: int| 0 <= i < r.len() implies r[i] != ',' by {
        assert(is_digit(r[i]));
    }
    assert forall|i: int| 0 <= i < c.len() implies c[i] != ',' by {
        assert(is_digit(c[i]));
    }
    lemma_pieces_whole(game_id, ',');
    lemma_pieces_whole(r, ',');
    lemma_pieces_whole(c, ',');
    lemma_pieces_join(r, c, ',');
    let id = spec_choice_id(game_id, round, idx);
    assert(id =~= game_id + seq![','] + (r + seq![','] + c));
    lemma_pieces_join(game_id, r + seq![','] + c, ',');
    assert(pieces(id, ',') =~= seq![game_id, r, c]);
    let p = crate::text::is_char(',');
    assert(id[game_id.len() as int] == ',');
    assert forall|j: int| 0 <= j < game_id.len() implies !#[trigger] p(id[j]) by {
        assert(id[j] == game_id[j]);
    }
    crate::util::lemma_first_match(id, p, game_id.len() as int);
    assert(id.take(game_id.len() as int) =~= game_id);
}

/// A button id written for choice `idx` in round `round` of a game whose
/// id has no comma reads back as `idx` in that round when `idx` is one of
/// the `n` choices, and as no choice when it is not; and it names that
/// game.
pub proof fn law_choice_id_round_trip(game_id: Seq<char>, round: u32, idx: usize, n: usize)
    requires
        !game_id.contains(','),
    ensures
        chosen(spec_choice_id(game_id, round, idx), round, n) == if idx < n {
            Some(idx)
        } else {
            None
        },
        spec_game_id(spec_choice_id(game_id, round, idx)) == game_id,
{
    lemma_choice_id_fields(game_id, round, idx);
}

/// A button id written for one round picks nothing in another round.
#[verifier::spinoff_prover]
pub proof fn law_stale_round_rejected(game_id: Seq<char>, round: u32, idx: usize, now: u32, n: usize)
    requires
        !game_id.contains(','),
        now != round,
    ensures
        chosen(spec_choice_id(game_id, round, idx), now, n) is None,
{
    lemma_choice_id_fields(game_id, round, idx);
    let f = pieces(spec_choice_id(game_id, round, idx), ',');
    assert(f[1] == decimal(round as nat));
    assert(spelled_number(f[1]) != Some(now as nat));
}

/// The consecutive failures counted after the outcomes `history`, from a
/// new counter.
pub open spec fn tries_after(history: Seq<bool>) -> nat
    decreases history.len(),
{
    if history.len() == 0 {
        0
    } else {
        next_tries(tries_after(history.drop_last()), history.last())
    }
}

/// Each outcome of `history` was recorded while the retries were not used
/// up.
pub open spec fn tried_in_time(history: Seq<bool>) -> bool {
    forall|k: int| 0 <= k < history.len() ==> tries_after(#[trigger] history.take(k)) < MAX_TRIES
}

/// The retries are used up exactly when the last three outcomes were
/// failures.
pub proof fn law_terminal_after_three_failures(history: Seq<bool>)
    requires
        tried_in_time(history),
    ensures
        tries_after(history) >= MAX_TRIES <==> (history.len() >= 3 && !history[history.len() - 1]
            && !history[history.len() - 2] && !history[history.len() - 3]),
{
    let n = history.len() as int;
    if n >= 1 {
        assert(history.take(n - 1) =~= history.drop_last());
    }
    if n >= 2 {
        assert(history.take(n - 2) =~= history.drop_last().drop_last());
        assert(history.take(n - 1).take(n - 2) =~= history.take(n - 2));
    }
    if n >= 3 {
        assert(history.take(n - 3) =~= history.drop_last().drop_last().drop_last());
        assert(history.take(n - 2).take(n - 3) =~= history.take(n - 3));
    }
    if n >= 1 && !history[n - 1] && tries_after(history) >= MAX_TRIES {
        assert(tries_after(history.take(n - 1)) == 2);
        assert(n >= 2);
        assert(!history[n - 2]);
        assert(tries_after(history.take(n - 2)) == 1);
        assert(n >= 3);
        assert(!history[n - 3]);
    }
    if n >= 3 && !history[n - 1] && !history[n - 2] && !history[n - 3] {
        assert(tries_after(history.take(n - 2)) >= 1);
        assert(tries_after(history.take(n - 1)) >= 2);
    }
}

/// What a round of a multiple choice game does after handling a pick.
#[derive(Debug, Clone, Copy, PartialEq, Eq, Structural)]
pub enum RoundHandleResult {
    /// The round goes on: the pick was ignored or wrong.
    ContinueRound,
    /// The round is over: the pick was right.
    NextRound,
    /// Showing a wrong pick failed: the game stops.
    NetError,
}

/// What a round does after a pick was recorded and the prompt was edited
/// to show it: a right pick ends the round whatever the edit did; after a
/// wrong one the round goes on, unless the edit failed.
pub fn after_pick(correct: bool, edit_ok: bool) -> (result: RoundHandleResult)
    ensures
        result == if correct {
            RoundHandleResult::NextRound
        } else if edit_ok {
            RoundHandleResult::ContinueRound
        } else {
            RoundHandleResult::NetError
        },
{
    if correct {
        RoundHandleResult::NextRound
    } else if edit_ok {
        RoundHandleResult::ContinueRound
    } else {
        RoundHandleResult::NetError
    }
}

/// The game that a game event belongs to: its id must be one field,
/// without commas.
pub open spec fn spec_event_game_id(custom_id: Seq<char>) -> Option<Seq<char>> {
    if pieces(custom_id, ',').len() == 1 {
        Some(custom_id)
    } else {
        None
    }
}

/// Reads the game id of an event whose custom id is a single field.
pub fn event_game_id(custom_id: &str) -> (id: Option<String>)
    ensures
        match id {
            Some(g) => spec_event_game_id(custom_id@) == Some(g@),
            None => spec_event_game_id(custom_id@) is None,
        },
{
    let mut fields = split_on(custom_id, ',');
    if fields.len() != 1 {
        return None;
    }
    proof {
        assert(views(fields@)[0] == fields@[0]@);
        lemma_single_piece(custom_id@, ',');
    }
    fields.pop()
}

/// A text that is one piece is the piece itself.
proof fn lemma_single_piece(s: Seq<char>, sep: char)
    requires
        pieces(s, sep).len() == 1,
    ensures
        pieces(s, sep)[0] == s,
    decreases s.len(),
{
    if s.len() > 0 {
        crate::text::lemma_pieces_len(s.drop_last(), sep);
        if s.last() != sep {
            lemma_single_piece(s.drop_last(), sep);
            assert(s.drop_last().push(s.last()) =~= s);
        }
    }
}

} // verus!
