//! The verb transitivity game: each round shows a noun (and for transitive
//! verbs a subject) and asks which verb of a transitivity pair fits.

use std::sync::Arc;

use vstd::prelude::*;

use crate::dictionary::{lemma_level_listed, spec_levels, tagged_with, DictEntry, NLevel};
use crate::catalog::{any_level_in, share};
use crate::question::{guessed, Question};
use crate::random;
use crate::scoreboard::{can_record, recorded_loss, recorded_win, ScoreEntry, Scoreboard};
use crate::text::views;
use crate::tverbs::{PooledView, TVerbPooledPair};

verus! {

/// Which verb of a pair a question asks for.
#[derive(Debug, Clone, Copy, PartialEq, Eq, Structural)]
pub enum VerbType {
    Intrans,
    Trans,
}

/// How a verb is shown as a choice: its kanji, followed by its first
/// reading in brackets when the entry has one.
pub open spec fn shown(kanji: Seq<char>, entry: DictEntry) -> Seq<char> {
    if entry.readings@.len() > 0 {
        kanji + " ("@ + entry.readings@[0].text@ + ")"@
    } else {
        kanji
    }
}

/// The prompt of an intransitive question about `noun`.
pub open spec fn intrans_prompt(noun: Seq<char>) -> Seq<char> {
    noun + " が ___"@
}

/// The prompt of a transitive question with `subject`, `particle` and
/// `noun`.
pub open spec fn trans_prompt(subject: Seq<char>, particle: Seq<char>, noun: Seq<char>) -> Seq<char> {
    subject + " "@ + particle + " "@ + noun + " を ___"@
}

/// `q` offers the two verbs, in either order, and its answer is the first
/// choice that reads as `answer`.
pub open spec fn offers(q: Question<2>, intrans: Seq<char>, trans: Seq<char>, answer: Seq<char>) -> bool {
    let v = views(q.spec_choices());
    &&& (v == seq![intrans, trans] || v == seq![trans, intrans])
    &&& q.spec_answer_idx() == if v[0] == answer {
        0int
    } else {
        1int
    }
}

/// The intransitive verb of `p` as it is shown.
pub open spec fn shown_intrans(p: PooledView) -> Seq<char> {
    shown(p.0.0, *p.0.1)
}

/// The transitive verb of `p` as it is shown.
pub open spec fn shown_trans(p: PooledView) -> Seq<char> {
    shown(p.0.2, *p.0.3)
}

/// `q` asks which verb of `p` goes with one of its intransitive nouns.
pub open spec fn asks_intrans(p: PooledView, q: Question<2>) -> bool {
    &&& exists|i: int| 0 <= i < p.1.len() && q.spec_prompt() == intrans_prompt(#[trigger] p.1[i]@)
    &&& q.spec_difficulty() == spec_levels(&*p.0.1)
    &&& offers(q, shown_intrans(p), shown_trans(p), shown_intrans(p))
}

/// `q` asks which verb of `p` goes with one of its transitive subjects,
/// が or は, and one of its transitive nouns.
pub open spec fn asks_trans(p: PooledView, q: Question<2>) -> bool {
    &&& exists|i: int, k: int|
        0 <= i < p.3.len() && 0 <= k < p.2.len() && (q.spec_prompt() == trans_prompt(
            #[trigger] p.3[i]@,
            "が"@,
            #[trigger] p.2[k]@,
        ) || q.spec_prompt() == trans_prompt(p.3[i]@, "は"@, p.2[k]@))
    &&& q.spec_difficulty() == spec_levels(&*p.0.3)
    &&& offers(q, shown_intrans(p), shown_trans(p), shown_trans(p))
}

/// A question that nobody has guessed at yet.
pub open spec fn fresh(q: Question<2>) -> bool {
    &&& q.wf()
    &&& forall|i: int| 0 <= i < 2 ==> !#[trigger] q.spec_guessed()[i]
}

/// `q` is a new question about the pair `p`, of either kind.
pub open spec fn asks_about(p: PooledView, q: Question<2>) -> bool {
    fresh(q) && (asks_intrans(p, q) || asks_trans(p, q))
}

/// Every pool of `p` has something to pick from.
pub open spec fn pooled(p: PooledView) -> bool {
    p.1.len() > 0 && p.2.len() > 0 && p.3.len() > 0
}

/// A sequence of two holds the same items as `seq![a, b]` only in one of
/// the two orders.
proof fn lemma_two_permutation<T>(s: Seq<T>, a: T, b: T)
    requires
        s.len() == 2,
        s.to_multiset() == seq![a, b].to_multiset(),
    ensures
        s == seq![a, b] || s == seq![b, a],
{
    broadcast use vstd::seq_lib::group_to_multiset_ensures;

    let e = Seq::<T>::empty();
    assert(seq![a, b] =~= e.push(a).push(b));
    assert(s =~= e.push(s[0]).push(s[1]));
    assert(e.to_multiset() =~= vstd::multiset::Multiset::empty());
    let m = seq![a, b].to_multiset();
    assert(m.count(s[0]) > 0);
    if s[0] == a {
        assert(m.count(b) == s.to_multiset().count(b));
        assert(s =~= seq![a, b]);
    } else {
        assert(s[0] == b);
        assert(m.count(a) == s.to_multiset().count(a));
        assert(s =~= seq![b, a]);
    }
}

/// How `kanji` of `entry` is shown as a choice.
fn show(kanji: &str, entry: &DictEntry) -> (s: String)
    ensures
        s@ == shown(kanji@, *entry),
{
    let mut s = kanji.to_string();
    if entry.readings.len() > 0 {
        s.append(" (");
        s.append(entry.readings[0].text.as_str());
        s.append(")");
    }
    s
}

/// The two verbs of `pair` as choices, shuffled, with the index of the one
/// that `verbt` asks for.
fn make_choices(pair: &TVerbPooledPair, verbt: VerbType) -> (made: ([String; 2], usize))
    ensures
        ({
            let v = views(made.0@);
            let i = shown_intrans(pair@);
            let t = shown_trans(pair@);
            let answer = match verbt {
                VerbType::Intrans => i,
                VerbType::Trans => t,
            };
            &&& v == seq![i, t] || v == seq![t, i]
            &&& made.1 == if v[0] == answer {
                0int
            } else {
                1int
            }
        }),
{
    let intrans = show(pair.intrans_kanji(), &**pair.intrans_entry());
    let trans = show(pair.trans_kanji(), &**pair.trans_entry());
    let answer = match verbt {
        VerbType::Intrans => intrans.clone(),
        VerbType::Trans => trans.clone(),
    };
    let ghost (iv, tv) = (intrans, trans);
    let mut choices: [String; 2] = [intrans, trans];
    proof {
        assert(choices@ =~= seq![iv, tv]);
    }
    random::shuffle(&mut choices);
    proof {
        lemma_two_permutation(choices@, iv, tv);
        assert(views(choices@) =~= seq![choices@[0]@, choices@[1]@]);
    }
    let idx: usize = if choices[0] == answer {
        0
    } else {
        1
    };
    (choices, idx)
}

/// Builds the question once its prompt and choices are made.
fn finish(prompt: String, made: ([String; 2], usize), difficulty: Vec<NLevel>) -> (q: Question<2>)
    requires
        made.1 < 2,
    ensures
        fresh(q),
        q.spec_prompt() == prompt@,
        q.spec_choices() == made.0@,
        q.spec_answer_idx() == made.1,
        q.spec_difficulty() == difficulty@,
{
    let (choices, answer) = made;
    Question::new(prompt, choices, answer, difficulty).unwrap()
}

/// Asks which verb goes with an intransitive noun of `pair`, picked at
/// random.
fn make_intrans(pair: &TVerbPooledPair) -> (q: Question<2>)
    requires
        pooled(pair@),
    ensures
        fresh(q),
        asks_intrans(pair@, q),
{
    let noun = random::pick_one(pair.intrans_nouns()).unwrap();
    let mut prompt = noun.clone();
    prompt.append(" が ___");
    let made = make_choices(pair, VerbType::Intrans);
    let difficulty = pair.intrans_entry().levels();
    let q = finish(prompt, made, difficulty);
    proof {
        let i = choose|i: int| 0 <= i < pair@.1.len() && pair@.1[i] == *noun;
        assert(q.spec_prompt() == intrans_prompt(pair@.1[i]@));
    }
    q
}

/// Asks which verb goes with a transitive subject, が or は, and a
/// transitive noun of `pair`, each picked at random.
fn make_trans(pair: &TVerbPooledPair) -> (q: Question<2>)
    requires
        pooled(pair@),
    ensures
        fresh(q),
        asks_trans(pair@, q),
{
    let subject = random::pick_one(pair.trans_subjects()).unwrap();
    let mut particles: Vec<&str> = Vec::new();
    particles.push("が");
    particles.push("は");
    let particle = random::pick_one(particles.as_slice()).unwrap();
    let noun = random::pick_one(pair.trans_nouns()).unwrap();
    let mut prompt = subject.clone();
    prompt.append(" ");
    prompt.append(particle);
    prompt.append(" ");
    prompt.append(noun.as_str());
    prompt.append(" を ___");
    let made = make_choices(pair, VerbType::Trans);
    let difficulty = pair.trans_entry().levels();
    let q = finish(prompt, made, difficulty);
    proof {
        let i = choose|i: int| 0 <= i < pair@.3.len() && pair@.3[i] == *subject;
        let k = choose|k: int| 0 <= k < pair@.2.len() && pair@.2[k] == *noun;
        assert(particle@ == "が"@ || particle@ == "は"@);
        assert(q.spec_prompt() == trans_prompt(pair@.3[i]@, particle@, pair@.2[k]@));
    }
    q
}

/// Asks about `pair`: an intransitive or a transitive question, decided by
/// a coin toss.
fn make_question(pair: &TVerbPooledPair) -> (q: Question<2>)
    requires
        pooled(pair@),
    ensures
        asks_about(pair@, q),
{
    if random::coin_toss() {
        make_intrans(pair)
    } else {
        make_trans(pair)
    }
}

/// Whether `p` has a verb with one of `levels`.
pub open spec fn at_levels(p: PooledView, levels: Seq<NLevel>) -> bool {
    ||| exists|i: int|
        0 <= i < spec_levels(&*p.0.1).len() && levels.contains(#[trigger] spec_levels(&*p.0.1)[i])
    ||| exists|i: int|
        0 <= i < spec_levels(&*p.0.3).len() && levels.contains(#[trigger] spec_levels(&*p.0.3)[i])
}

/// Whether a shared pair has a verb with one of `levels`.
pub open spec fn pair_at_levels(levels: Seq<NLevel>) -> spec_fn(Arc<TVerbPooledPair>) -> bool {
    |a: Arc<TVerbPooledPair>| at_levels((*a)@, levels)
}

/// The state of one verb transitivity game: the pairs left to ask about,
/// the current question and the scores.
#[derive(Debug)]
pub struct Service {
    tverbs: Vec<Arc<TVerbPooledPair>>,
    levels: Vec<NLevel>,
    question: Option<Question<2>>,
    scoreboard: Scoreboard,
}

impl Service {
    /// The pairs left to ask about; the last one is asked next.
    pub closed spec fn spec_tverbs(&self) -> Seq<Arc<TVerbPooledPair>> {
        self.tverbs@
    }

    pub closed spec fn spec_level_filter(&self) -> Seq<NLevel> {
        self.levels@
    }

    pub closed spec fn spec_question(&self) -> Option<Question<2>> {
        self.question
    }

    pub closed spec fn spec_scoreboard(&self) -> Scoreboard {
        self.scoreboard
    }

    /// The game's invariant: the scores are well formed, a question is
    /// well formed, and every pair left has something in each pool.
    pub open spec fn wf(&self) -> bool {
        &&& self.spec_scoreboard().wf()
        &&& self.spec_question() matches Some(q) ==> q.wf()
        &&& forall|i: int| 0 <= i < self.spec_tverbs().len() ==> pooled((*#[trigger] self.spec_tverbs()[i])@)
    }

    /// Sets up a game over the pairs of `tverbs` with a verb of one of
    /// `levels`, shuffled. No question is asked yet.
    pub fn new(tverbs: &[Arc<TVerbPooledPair>], levels: Vec<NLevel>) -> (service: Self)
        requires
            forall|i: int| 0 <= i < tverbs@.len() ==> pooled((*#[trigger] tverbs@[i])@),
        ensures
            service.wf(),
            service.spec_tverbs().to_multiset() == tverbs@.filter(pair_at_levels(levels@)).to_multiset(),
            service.spec_level_filter() == levels@,
            service.spec_question() is None,
            service.spec_scoreboard().spec_rounds() == 0,
            service.spec_scoreboard().players() == Map::<u64, ScoreEntry>::empty(),
    {
        let ghost keep = pair_at_levels(levels@);
        let mut chosen: Vec<Arc<TVerbPooledPair>> = Vec::new();
        let mut i: usize = 0;
        proof {
            reveal_with_fuel(Seq::filter, 1);
            assert(tverbs@.take(0).filter(keep) =~= Seq::<Arc<TVerbPooledPair>>::empty());
        }
        while i < tverbs.len()
            invariant
                keep == pair_at_levels(levels@),
                i <= tverbs@.len(),
                chosen@ == tverbs@.take(i as int).filter(keep),
            decreases tverbs@.len() - i,
        {
            let tverb = &tverbs[i];
            let wanted = any_level_in(&tverb.intrans_entry().levels(), levels.as_slice())
                || any_level_in(&tverb.trans_entry().levels(), levels.as_slice());
            proof {
                assert(tverbs@.take(i + 1) =~= tverbs@.take(i as int).push(tverbs@[i as int]));
                tverbs@.take(i as int).lemma_filter_push(tverbs@[i as int], keep);
            }
            if wanted {
                chosen.push(share(tverb));
            }
            i = i + 1;
        }
        proof {
            assert(tverbs@.take(tverbs@.len() as int) =~= tverbs@);
            assert forall|j: int| 0 <= j < chosen@.len() implies pooled((*#[trigger] chosen@[j])@) by {
                tverbs@.lemma_filter_contains_rev(keep, chosen@[j]);
                assert(tverbs@.filter(keep).contains(chosen@[j]));
            }
        }
        let ghost before = chosen@;
        random::shuffle(chosen.as_mut_slice());
        proof {
            broadcast use vstd::seq_lib::group_to_multiset_ensures;

            assert forall|j: int| 0 <= j < chosen@.len() implies pooled((*#[trigger] chosen@[j])@) by {
                assert(chosen@.contains(chosen@[j]));
                assert(before.to_multiset().count(chosen@[j]) > 0);
                assert(before.contains(chosen@[j]));
            }
        }
        Service { tverbs: chosen, levels, question: None, scoreboard: Scoreboard::new() }
    }

    /// Moves on to a question about the next pair, which leaves the pool.
    /// With no pair left there is no question any more.
    pub fn next_round(&mut self)
        requires
            old(self).wf(),
        ensures
            final(self).wf(),
            final(self).spec_level_filter() == old(self).spec_level_filter(),
            final(self).spec_scoreboard() == old(self).spec_scoreboard(),
            old(self).spec_tverbs().len() == 0 ==> final(self).spec_question() is None
                && final(self).spec_tverbs() == old(self).spec_tverbs(),
            old(self).spec_tverbs().len() > 0 ==> {
                &&& final(self).spec_tverbs() == old(self).spec_tverbs().drop_last()
                &&& final(self).spec_question() matches Some(q) && asks_about(
                    (*old(self).spec_tverbs().last())@,
                    q,
                )
            },
    {
        match self.tverbs.pop() {
            Some(pair) => {
                let q = make_question(&*pair);
                self.question = Some(q);
            },
            None => {
                self.question = None;
            },
        }
    }

    pub fn levels(&self) -> (levels: &[NLevel])
        ensures
            levels@ == self.spec_level_filter(),
    {
        self.levels.as_slice()
    }

    pub fn question(&self) -> (question: Option<&Question<2>>)
        ensures
            match question {
                Some(q) => self.spec_question() == Some(*q),
                None => self.spec_question() is None,
            },
    {
        self.question.as_ref()
    }

    pub fn scoreboard(&self) -> (board: &Scoreboard)
        ensures
            *board == self.spec_scoreboard(),
    {
        &self.scoreboard
    }

    /// The number of the current round: the rounds played so far.
    pub fn round(&self) -> (round: u32)
        ensures
            round == self.spec_scoreboard().spec_rounds(),
    {
        self.scoreboard.rounds()
    }

    /// Records `user`'s pick of `choice`. The game is 50/50, so every
    /// choice is marked as guessed after the first pick; the pick is a win
    /// when it is the answer and a loss otherwise. Without a question
    /// nothing happens and the pick does not count.
    pub fn select_choice(&mut self, user: u64, choice: usize) -> (correct: bool)
        requires
            old(self).wf(),
            old(self).spec_question() is Some ==> can_record(old(self).spec_scoreboard(), user),
        ensures
            final(self).wf(),
            final(self).spec_tverbs() == old(self).spec_tverbs(),
            final(self).spec_level_filter() == old(self).spec_level_filter(),
            match old(self).spec_question() {
                None => !correct && *final(self) == *old(self),
                Some(q) => {
                    &&& correct == (choice == q.spec_answer_idx())
                    &&& final(self).spec_question() matches Some(q2) && guessed(
                        q,
                        q2,
                        q.spec_answer_idx() as usize,
                    )
                    &&& correct ==> recorded_win(
                        old(self).spec_scoreboard(),
                        final(self).spec_scoreboard(),
                        user,
                    )
                    &&& !correct ==> recorded_loss(
                        old(self).spec_scoreboard(),
                        final(self).spec_scoreboard(),
                        user,
                    )
                },
            },
    {
        let correct = match self.question.as_mut() {
            Some(question) => {
                let answer = question.answer_idx();
                question.guess(answer);
                choice == answer
            },
            None => return false,
        };
        if correct {
            self.scoreboard.add_win(user);
        } else {
            self.scoreboard.add_loss(user);
        }
        assert forall|i: int| 0 <= i < self.spec_tverbs().len() implies pooled(
            (*#[trigger] self.spec_tverbs()[i])@,
        ) by {
            assert(self.spec_tverbs()[i] == old(self).spec_tverbs()[i]);
        }
        correct
    }
}

/// A game only asks about pairs with a verb at one of its levels, and each
/// such pair at most as often as it was handed in.
pub proof fn law_game_pairs_at_levels(tverbs: Seq<Arc<TVerbPooledPair>>, levels: Seq<NLevel>, kept: Seq<Arc<TVerbPooledPair>>, i: int)
    requires
        kept.to_multiset() == tverbs.filter(pair_at_levels(levels)).to_multiset(),
        0 <= i < kept.len(),
    ensures
        at_levels((*kept[i])@, levels),
        tverbs.contains(kept[i]),
{
    broadcast use vstd::seq_lib::group_to_multiset_ensures;
    broadcast use vstd::seq_lib::group_filter_ensures;

    let p = pair_at_levels(levels);
    assert(kept.contains(kept[i]));
    assert(kept.to_multiset().count(kept[i]) > 0);
    assert(tverbs.filter(p).contains(kept[i]));
    tverbs.lemma_filter_contains_rev(p, kept[i]);
    let j = choose|j: int| 0 <= j < tverbs.filter(p).len() && tverbs.filter(p)[j] == kept[i];
    assert(p(tverbs.filter(p)[j]));
}

/// The game is 50/50: after the first pick of a question every choice is
/// marked as guessed, right or wrong.
pub proof fn law_first_pick_closes_question(before: Question<2>, after: Question<2>)
    requires
        before.wf(),
        guessed(before, after, before.spec_answer_idx() as usize),
    ensures
        forall|i: int| 0 <= i < 2 ==> #[trigger] after.spec_guessed()[i],
{
}

/// A game at `levels` keeps a pair exactly when its intransitive verb or
/// its transitive verb is tagged, on a reading or a kanji, with one of
/// `levels`.
pub proof fn law_pair_kept_by_either_verb(p: PooledView, levels: Seq<NLevel>)
    ensures
        at_levels(p, levels) <==> (exists|l: NLevel| #[trigger] levels.contains(l) && tagged_with(&*p.0.1, l))
            || (exists|l: NLevel| #[trigger] levels.contains(l) && tagged_with(&*p.0.3, l)),
{
    let a = spec_levels(&*p.0.1);
    let b = spec_levels(&*p.0.3);
    if exists|i: int| 0 <= i < a.len() && levels.contains(#[trigger] a[i]) {
        let i = choose|i: int| 0 <= i < a.len() && levels.contains(#[trigger] a[i]);
        assert(a.contains(a[i]));
        lemma_level_listed(&*p.0.1, a[i]);
    }
    if exists|i: int| 0 <= i < b.len() && levels.contains(#[trigger] b[i]) {
        let i = choose|i: int| 0 <= i < b.len() && levels.contains(#[trigger] b[i]);
        assert(b.contains(b[i]));
        lemma_level_listed(&*p.0.3, b[i]);
    }
    if exists|l: NLevel| #[trigger] levels.contains(l) && tagged_with(&*p.0.1, l) {
        let l = choose|l: NLevel| #[trigger] levels.contains(l) && tagged_with(&*p.0.1, l);
        lemma_level_listed(&*p.0.1, l);
        let i = choose|i: int| 0 <= i < a.len() && a[i] == l;
        assert(levels.contains(a[i]));
    }
    if exists|l: NLevel| #[trigger] levels.contains(l) && tagged_with(&*p.0.3, l) {
        let l = choose|l: NLevel| #[trigger] levels.contains(l) && tagged_with(&*p.0.3, l);
        lemma_level_listed(&*p.0.3, l);
        let i = choose|i: int| 0 <= i < b.len() && b[i] == l;
        assert(levels.contains(b[i]));
    }
}

} // verus!
