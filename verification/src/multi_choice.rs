//! The multiple choice game: translating Kanji/Reading to English and
//! vice-versa, with five choices per question.

use std::sync::Arc;

use vstd::prelude::*;

use crate::catalog::{share, spec_as_pos, Dictionary, PosFilter};
use crate::dictionary::{
    contains_string, has_pos, spec_levels, strings_contain, DictEntry, Kanji, NLevel, Pos,
    Reading, Sense,
};
use crate::modes::MultiChoiceMode;
use crate::question::{guessed, Question};
use crate::random;
use crate::scoreboard::Scoreboard;
use crate::util::{first_match, lemma_first_match, lemma_no_match};

verus! {

/// A sense tagged with `pos` that has at least one gloss.
pub open spec fn glossed_sense(pos: Pos) -> spec_fn(Sense) -> bool {
    |s: Sense| s.pos@.contains(pos) && s.gloss@.len() > 0
}

/// A sense tagged with `pos`.
pub open spec fn tagged_sense(pos: Pos) -> spec_fn(Sense) -> bool {
    |s: Sense| s.pos@.contains(pos)
}

/// A reading that `sense` applies to.
pub open spec fn reading_of_sense(sense: Sense) -> spec_fn(Reading) -> bool {
    |r: Reading|
        sense.relevant_reading@.len() == 0 || strings_contain(sense.relevant_reading@, r.text@)
}

/// A reading that belongs to `kanji` and that `sense` applies to.
pub open spec fn reading_of_kanji_and_sense(kanji: Kanji, sense: Sense) -> spec_fn(Reading) -> bool {
    |r: Reading|
        (r.relevant_to@.len() == 0 || strings_contain(r.relevant_to@, kanji.text@)) && (
        sense.relevant_reading@.len() == 0 || strings_contain(sense.relevant_reading@, r.text@))
}

/// The first sense tagged with `pos` that has a gloss, and the first reading
/// it applies to.
#[verifier::opaque]
pub open spec fn spec_reading_sense_pair(entry: DictEntry, pos: Pos) -> Option<(Reading, Sense)> {
    match first_match(entry.senses@, glossed_sense(pos)) {
        None => None,
        Some(s) => {
            let sense = entry.senses@[s];
            match first_match(entry.readings@, reading_of_sense(sense)) {
                None => None,
                Some(r) => Some((entry.readings@[r], sense)),
            }
        },
    }
}

/// The first kanji, and the first reading that belongs to it and that the
/// first sense tagged with `pos` applies to.
#[verifier::opaque]
pub open spec fn spec_kanji_reading_pair(entry: DictEntry, pos: Pos) -> Option<(Kanji, Reading)> {
    match first_match(entry.senses@, tagged_sense(pos)) {
        None => None,
        Some(s) => if entry.kanjis@.len() == 0 {
            None
        } else {
            let kanji = entry.kanjis@[0];
            match first_match(
                entry.readings@,
                reading_of_kanji_and_sense(kanji, entry.senses@[s]),
            ) {
                None => None,
                Some(r) => Some((kanji, entry.readings@[r])),
            }
        },
    }
}

/// The first kanji, and the first sense tagged with `pos` that has a gloss.
#[verifier::opaque]
pub open spec fn spec_kanji_sense_pair(entry: DictEntry, pos: Pos) -> Option<(Kanji, Sense)> {
    match first_match(entry.senses@, glossed_sense(pos)) {
        None => None,
        Some(s) => if entry.kanjis@.len() == 0 {
            None
        } else {
            Some((entry.kanjis@[0], entry.senses@[s]))
        },
    }
}

/// The prompt and the answer of a question of `mode` about `entry` with
/// `pos`, if the entry has what the mode needs.
pub open spec fn spec_prompt_answer(mode: MultiChoiceMode, entry: DictEntry, pos: Pos) -> Option<
    (String, String),
> {
    match mode {
        MultiChoiceMode::EngToHir => match spec_reading_sense_pair(entry, pos) {
            Some((r, s)) => Some((s.gloss@[0].content, r.text)),
            None => None,
        },
        MultiChoiceMode::HirToEng => match spec_reading_sense_pair(entry, pos) {
            Some((r, s)) => Some((r.text, s.gloss@[0].content)),
            None => None,
        },
        MultiChoiceMode::HirToKan => match spec_kanji_reading_pair(entry, pos) {
            Some((k, r)) => Some((r.text, k.text)),
            None => None,
        },
        MultiChoiceMode::KanToHir => match spec_kanji_reading_pair(entry, pos) {
            Some((k, r)) => Some((k.text, r.text)),
            None => None,
        },
        MultiChoiceMode::KanToEng => match spec_kanji_sense_pair(entry, pos) {
            Some((k, s)) => Some((k.text, s.gloss@[0].content)),
            None => None,
        },
        MultiChoiceMode::EngToKan => match spec_kanji_sense_pair(entry, pos) {
            Some((k, s)) => Some((s.gloss@[0].content, k.text)),
            None => None,
        },
    }
}

/// The answers that the other entries of the dictionary give in `mode`
/// with `pos`, in dictionary order: the pool that wrong choices come from.
pub open spec fn spec_other_answers(
    mode: MultiChoiceMode,
    entry: DictEntry,
    pos: Pos,
    entries: Seq<Arc<DictEntry>>,
) -> Seq<String> {
    entries.filter_map(
        |e: Arc<DictEntry>|
            if e.id == entry.id {
                None
            } else {
                match spec_prompt_answer(mode, *e, pos) {
                    Some(pa) => Some(pa.1),
                    None => None,
                }
            },
    )
}

/// The fewer of `a` and `b`.
pub open spec fn fewer(a: int, b: int) -> int {
    if a < b {
        a
    } else {
        b
    }
}

/// What holds of every question made from `prompt`, `answer` and the pool
/// `others` of wrong choices: the answer is one of five choices, the
/// others are up to four distinct picks from the pool, and the rest of the
/// choices are empty.
pub open spec fn drawn_from<const N: usize>(
    q: Question<N>,
    prompt: Seq<char>,
    answer: String,
    others: Seq<String>,
    difficulty: Seq<NLevel>,
) -> bool {
    &&& N == 5
    &&& q.wf()
    &&& q.spec_prompt() == prompt
    &&& q.spec_choices()[q.spec_answer_idx()]@ == answer@
    &&& q.spec_difficulty() == difficulty
    &&& forall|i: int| 0 <= i < N ==> !(#[trigger] q.spec_guessed()[i])
    &&& exists|picked: Seq<String>, blank: Seq<String>|
        {
            &&& picked.len() == fewer(4, others.len() as int)
            &&& picked.to_multiset().subset_of(others.to_multiset())
            &&& picked.len() + blank.len() == 4
            &&& forall|i: int| 0 <= i < blank.len() ==> (#[trigger] blank[i])@ == Seq::<char>::empty()
            &&& q.spec_choices().to_multiset() == (seq![answer] + picked + blank).to_multiset()
        }
}

/// Searches the senses of `entry` for the first one tagged with `pos`,
/// which must also have a gloss when `glossed` is set.
fn find_sense(entry: &DictEntry, pos: Pos, glossed: bool) -> (found: Option<usize>)
    ensures
        found matches Some(i) ==> i < entry.senses@.len() && entry.senses@[i as int].pos@.contains(pos)
            && (glossed ==> entry.senses@[i as int].gloss@.len() > 0),
        glossed ==> first_match(entry.senses@, glossed_sense(pos)) == match found {
            None => None,
            Some(i) => Some(i as int),
        },
        !glossed ==> first_match(entry.senses@, tagged_sense(pos)) == match found {
            None => None,
            Some(i) => Some(i as int),
        },
{
    let ghost p = if glossed {
        glossed_sense(pos)
    } else {
        tagged_sense(pos)
    };
    let mut i: usize = 0;
    while i < entry.senses.len()
        invariant
            p == (if glossed {
                glossed_sense(pos)
            } else {
                tagged_sense(pos)
            }),
            i <= entry.senses@.len(),
            forall|j: int| 0 <= j < i ==> !#[trigger] p(entry.senses@[j]),
        decreases entry.senses@.len() - i,
    {
        let sense = &entry.senses[i];
        if has_pos(&sense.pos, pos) && (!glossed || sense.gloss.len() > 0) {
            proof {
                lemma_first_match(entry.senses@, p, i as int);
            }
            return Some(i);
        }
        i = i + 1;
    }
    proof {
        lemma_no_match(entry.senses@, p);
    }
    None
}

/// Searches the readings of `entry` for the first one that belongs to
/// `kanji` (when given) and that `sense` applies to.
fn find_reading_for(entry: &DictEntry, kanji: Option<&Kanji>, sense: &Sense) -> (found: Option<
    usize,
>)
    ensures
        found matches Some(i) ==> i < entry.readings@.len(),
        kanji is None ==> first_match(entry.readings@, reading_of_sense(*sense)) == match found {
            None => None,
            Some(i) => Some(i as int),
        },
        kanji matches Some(k) ==> first_match(
            entry.readings@,
            reading_of_kanji_and_sense(*k, *sense),
        ) == match found {
            None => None,
            Some(i) => Some(i as int),
        },
{
    let ghost p = match kanji {
        None => reading_of_sense(*sense),
        Some(k) => reading_of_kanji_and_sense(*k, *sense),
    };
    let mut i: usize = 0;
    while i < entry.readings.len()
        invariant
            p == (match kanji {
                None => reading_of_sense(*sense),
                Some(k) => reading_of_kanji_and_sense(*k, *sense),
            }),
            i <= entry.readings@.len(),
            forall|j: int| 0 <= j < i ==> !#[trigger] p(entry.readings@[j]),
        decreases entry.readings@.len() - i,
    {
        let reading = &entry.readings[i];
        let of_kanji = match kanji {
            None => true,
            Some(k) => reading.relevant_to.len() == 0 || contains_string(
                &reading.relevant_to,
                &k.text,
            ),
        };
        if of_kanji && (sense.relevant_reading.len() == 0 || contains_string(
            &sense.relevant_reading,
            &reading.text,
        )) {
            proof {
                lemma_first_match(entry.readings@, p, i as int);
            }
            return Some(i);
        }
        i = i + 1;
    }
    proof {
        lemma_no_match(entry.readings@, p);
    }
    None
}

/// Conveniently extracts a [`Reading`] and correlated [`Sense`] from a
/// [`DictEntry`] where the sense has the `pos` tag and is guaranteed to have
/// at least one gloss.
///
/// Returns [`None`] if no possible extraction.
fn reading_sense_pair(entry: &DictEntry, pos: Pos) -> (pair: Option<(&Reading, &Sense)>)
    ensures
        match spec_reading_sense_pair(*entry, pos) {
            None => pair is None,
            Some((r, s)) => pair matches Some((a, b)) && *a == r && *b == s,
        },
        pair matches Some((_, s)) ==> s.gloss@.len() > 0,
{
    reveal(spec_reading_sense_pair);
    let s = find_sense(entry, pos, true)?;
    let sense = &entry.senses[s];
    let r = find_reading_for(entry, None, sense)?;
    Some((&entry.readings[r], sense))
}

/// Conveniently extracts a [`Kanji`] and correlated [`Reading`] from a
/// [`DictEntry`] where the reading has the `pos` tag.
///
/// Returns [`None`] if no possible extraction.
fn kanji_reading_pair(entry: &DictEntry, pos: Pos) -> (pair: Option<(&Kanji, &Reading)>)
    ensures
        match spec_kanji_reading_pair(*entry, pos) {
            None => pair is None,
            Some((k, r)) => pair matches Some((a, b)) && *a == k && *b == r,
        },
{
    reveal(spec_kanji_reading_pair);
    let s = find_sense(entry, pos, false)?;
    let sense = &entry.senses[s];
    if entry.kanjis.len() == 0 {
        return None;
    }
    let kanji = &entry.kanjis[0];
    let r = find_reading_for(entry, Some(kanji), sense)?;
    Some((kanji, &entry.readings[r]))
}

/// Conveniently extracts a [`Kanji`] and correlated [`Sense`] from a
/// [`DictEntry`] where the sense has the `pos` tag and is guaranteed to have
/// at least one gloss.
///
/// Returns [`None`] if no possible extraction.
fn kanji_sense_pair(entry: &DictEntry, pos: Pos) -> (pair: Option<(&Kanji, &Sense)>)
    ensures
        match spec_kanji_sense_pair(*entry, pos) {
            None => pair is None,
            Some((k, s)) => pair matches Some((a, b)) && *a == k && *b == s,
        },
        pair matches Some((_, s)) ==> s.gloss@.len() > 0,
{
    reveal(spec_kanji_sense_pair);
    let s = find_sense(entry, pos, true)?;
    if entry.kanjis.len() == 0 {
        return None;
    }
    Some((&entry.kanjis[0], &entry.senses[s]))
}

/// The answer of a question of `mode` about `entry` with `pos`, if the entry
/// has what the mode needs.
pub open spec fn spec_answer_of(mode: MultiChoiceMode, entry: DictEntry, pos: Pos) -> Option<String> {
    match spec_prompt_answer(mode, entry, pos) {
        Some(pa) => Some(pa.1),
        None => None,
    }
}

/// Whether a question of `mode` can be asked about `entry` with `pos`.
pub open spec fn askable(mode: MultiChoiceMode, entry: DictEntry, pos: Pos) -> bool {
    spec_prompt_answer(mode, entry, pos) is Some
}

/// The answer a question of `mode` about `entry` with `pos` would have.
fn answer_of(mode: MultiChoiceMode, entry: &DictEntry, pos: Pos) -> (answer: Option<String>)
    ensures
        answer == spec_answer_of(mode, *entry, pos),
{
    match mode {
        MultiChoiceMode::EngToHir => match reading_sense_pair(entry, pos) {
            Some((reading, _)) => Some(reading.text.clone()),
            None => None,
        },
        MultiChoiceMode::HirToEng => match reading_sense_pair(entry, pos) {
            Some((_, sense)) => Some(sense.gloss[0].content.clone()),
            None => None,
        },
        MultiChoiceMode::HirToKan => match kanji_reading_pair(entry, pos) {
            Some((kanji, _)) => Some(kanji.text.clone()),
            None => None,
        },
        MultiChoiceMode::KanToHir => match kanji_reading_pair(entry, pos) {
            Some((_, reading)) => Some(reading.text.clone()),
            None => None,
        },
        MultiChoiceMode::KanToEng => match kanji_sense_pair(entry, pos) {
            Some((_, sense)) => Some(sense.gloss[0].content.clone()),
            None => None,
        },
        MultiChoiceMode::EngToKan => match kanji_sense_pair(entry, pos) {
            Some((kanji, _)) => Some(kanji.text.clone()),
            None => None,
        },
    }
}

/// The answers of the dictionary's other entries in `mode` with `pos`.
fn other_answers(mode: MultiChoiceMode, entry: &DictEntry, pos: Pos, dictionary: &Dictionary) -> (others: Vec<String>)
    ensures
        others@ == spec_other_answers(mode, *entry, pos, dictionary.entries@),
{
    let ghost f = |e: Arc<DictEntry>|
        if e.id == entry.id {
            None
        } else {
            match spec_prompt_answer(mode, *e, pos) {
                Some(pa) => Some(pa.1),
                None => None,
            }
        };
    let ghost all = dictionary.entries@;
    let mut others: Vec<String> = Vec::new();
    let mut i: usize = 0;
    proof {
        assert(all.take(0).filter_map(f) =~= Seq::<String>::empty());
    }
    while i < dictionary.entries.len()
        invariant
            f == (|e: Arc<DictEntry>|
                if e.id == entry.id {
                    None
                } else {
                    match spec_prompt_answer(mode, *e, pos) {
                        Some(pa) => Some(pa.1),
                        None => None,
                    }
                }),
            all == dictionary.entries@,
            i <= all.len(),
            others@ == all.take(i as int).filter_map(f),
        decreases all.len() - i,
    {
        let e = &dictionary.entries[i];
        proof {
            all.lemma_filter_map_take_succ(f, i as int);
        }
        if e.id != entry.id {
            match answer_of(mode, e, pos) {
                Some(a) => {
                    others.push(a);
                },
                None => {},
            }
        }
        assert(others@ =~= all.take(i + 1).filter_map(f));
        i = i + 1;
    }
    proof {
        assert(all.take(all.len() as int) =~= all);
    }
    others
}

/// The index of the first of `choices` with the same text as `answer`.
fn position_of(choices: &[String; 5], answer: &String) -> (idx: usize)
    requires
        exists|i: int| 0 <= i < 5 && (#[trigger] choices@[i])@ == answer@,
    ensures
        idx < 5,
        choices@[idx as int]@ == answer@,
{
    let mut i: usize = 0;
    while i < 5
        invariant
            i <= 5,
            exists|k: int| i <= k < 5 && (#[trigger] choices@[k])@ == answer@,
        decreases 5 - i,
    {
        if choices[i] == *answer {
            return i;
        }
        i = i + 1;
    }
    i
}

/// Makes a question that asks for `answer` given `prompt`, with four wrong
/// choices picked at random from `others` (or left empty when `others` has
/// fewer), all five choices shuffled.
fn assemble(prompt: String, answer: String, others: Vec<String>, difficulty: Vec<NLevel>) -> (q: Question<5>)
    ensures
        drawn_from(q, prompt@, answer, others@, difficulty@),
{
    broadcast use vstd::seq_lib::group_to_multiset_ensures;

    let ghost pool = others@;
    let mut rest: Vec<String> = Vec::new();
    rest.push(String::new());
    rest.push(String::new());
    rest.push(String::new());
    rest.push(String::new());
    let ghost blanks = rest@;
    let filled = random::choose_multiple_fill(others, rest.as_mut_slice());
    let ghost after = rest@;
    let d3 = rest.pop().unwrap();
    let d2 = rest.pop().unwrap();
    let d1 = rest.pop().unwrap();
    let d0 = rest.pop().unwrap();
    let first = answer.clone();
    let mut choices: [String; 5] = [first, d0, d1, d2, d3];
    proof {
        assert(choices@ =~= seq![answer] + after);
    }
    let ghost unshuffled = choices@;
    random::shuffle(&mut choices);
    proof {
        let picked = after.take(filled as int);
        let blank = after.skip(filled as int);
        assert(after =~= picked + blank);
        assert(seq![answer] + picked + blank =~= seq![answer] + after);
        assert forall|i: int| 0 <= i < blank.len() implies (#[trigger] blank[i])@
            == Seq::<char>::empty() by {
            assert(blank[i] == blanks.skip(filled as int)[i]);
        }
        assert(unshuffled.contains(answer)) by {
            assert(unshuffled[0] == answer);
        }
        assert(choices@.to_multiset().count(answer) > 0);
        assert(choices@.contains(answer));
        let k = choose|k: int| 0 <= k < choices@.len() && choices@[k] == answer;
        assert(choices@[k]@ == answer@);
    }
    let idx = position_of(&choices, &answer);
    let q = Question::new(prompt, choices, idx, difficulty).unwrap();
    proof {
        let picked = after.take(filled as int);
        let blank = after.skip(filled as int);
        assert(picked.len() == fewer(4, pool.len() as int));
        assert(q.spec_choices().to_multiset() == (seq![answer] + picked + blank).to_multiset());
    }
    q
}

/// `made` is what making a question of `mode` about `entry` with `pos`
/// may give: nothing when the entry lacks what the mode needs, otherwise a
/// question drawn from the entry's prompt and answer and the other entries'
/// answers, with the entry's levels as its difficulty.
pub open spec fn made_question(
    mode: MultiChoiceMode,
    entry: DictEntry,
    pos: Pos,
    entries: Seq<Arc<DictEntry>>,
    made: Option<Question<5>>,
) -> bool {
    match spec_prompt_answer(mode, entry, pos) {
        None => made is None,
        Some(pa) => made matches Some(q) && drawn_from(
            q,
            pa.0@,
            pa.1,
            spec_other_answers(mode, entry, pos, entries),
            spec_levels(&entry),
        ),
    }
}

/// Makes a question that shows an English gloss and asks for its reading.
fn new_eng_to_hir(entry: &DictEntry, pos: Pos, dictionary: &Dictionary) -> (q: Option<Question<5>>)
    ensures
        made_question(MultiChoiceMode::EngToHir, *entry, pos, dictionary.entries@, q),
{
    let (reading, sense) = reading_sense_pair(entry, pos)?;
    let others = other_answers(MultiChoiceMode::EngToHir, entry, pos, dictionary);
    Some(assemble(sense.gloss[0].content.clone(), reading.text.clone(), others, entry.levels()))
}

/// Makes a question that shows a reading and asks for its English gloss.
fn new_hir_to_eng(entry: &DictEntry, pos: Pos, dictionary: &Dictionary) -> (q: Option<Question<5>>)
    ensures
        made_question(MultiChoiceMode::HirToEng, *entry, pos, dictionary.entries@, q),
{
    let (reading, sense) = reading_sense_pair(entry, pos)?;
    let others = other_answers(MultiChoiceMode::HirToEng, entry, pos, dictionary);
    Some(assemble(reading.text.clone(), sense.gloss[0].content.clone(), others, entry.levels()))
}

/// Makes a question that shows a reading and asks for its kanji.
fn new_hir_to_kan(entry: &DictEntry, pos: Pos, dictionary: &Dictionary) -> (q: Option<Question<5>>)
    ensures
        made_question(MultiChoiceMode::HirToKan, *entry, pos, dictionary.entries@, q),
{
    let (kanji, reading) = kanji_reading_pair(entry, pos)?;
    let others = other_answers(MultiChoiceMode::HirToKan, entry, pos, dictionary);
    Some(assemble(reading.text.clone(), kanji.text.clone(), others, entry.levels()))
}

/// Makes a question that shows a kanji and asks for its reading.
fn new_kan_to_hir(entry: &DictEntry, pos: Pos, dictionary: &Dictionary) -> (q: Option<Question<5>>)
    ensures
        made_question(MultiChoiceMode::KanToHir, *entry, pos, dictionary.entries@, q),
{
    let (kanji, reading) = kanji_reading_pair(entry, pos)?;
    let others = other_answers(MultiChoiceMode::KanToHir, entry, pos, dictionary);
    Some(assemble(kanji.text.clone(), reading.text.clone(), others, entry.levels()))
}

/// Makes a question that shows a kanji and asks for its English gloss.
fn new_kan_to_eng(entry: &DictEntry, pos: Pos, dictionary: &Dictionary) -> (q: Option<Question<5>>)
    ensures
        made_question(MultiChoiceMode::KanToEng, *entry, pos, dictionary.entries@, q),
{
    let (kanji, sense) = kanji_sense_pair(entry, pos)?;
    let others = other_answers(MultiChoiceMode::KanToEng, entry, pos, dictionary);
    Some(assemble(kanji.text.clone(), sense.gloss[0].content.clone(), others, entry.levels()))
}

/// Makes a question that shows an English gloss and asks for its kanji.
fn new_eng_to_kan(entry: &DictEntry, pos: Pos, dictionary: &Dictionary) -> (q: Option<Question<5>>)
    ensures
        made_question(MultiChoiceMode::EngToKan, *entry, pos, dictionary.entries@, q),
{
    let (kanji, sense) = kanji_sense_pair(entry, pos)?;
    let others = other_answers(MultiChoiceMode::EngToKan, entry, pos, dictionary);
    Some(assemble(sense.gloss[0].content.clone(), kanji.text.clone(), others, entry.levels()))
}

/// Makes a question of `mode` about `entry` with `pos`, if the entry has
/// what the mode needs.
pub(crate) fn make_question(mode: MultiChoiceMode, entry: &DictEntry, pos: Pos, dictionary: &Dictionary) -> (q:
    Option<Question<5>>)
    ensures
        made_question(mode, *entry, pos, dictionary.entries@, q),
{
    match mode {
        MultiChoiceMode::EngToHir => new_eng_to_hir(entry, pos, dictionary),
        MultiChoiceMode::HirToEng => new_hir_to_eng(entry, pos, dictionary),
        MultiChoiceMode::HirToKan => new_hir_to_kan(entry, pos, dictionary),
        MultiChoiceMode::KanToHir => new_kan_to_hir(entry, pos, dictionary),
        MultiChoiceMode::KanToEng => new_kan_to_eng(entry, pos, dictionary),
        MultiChoiceMode::EngToKan => new_eng_to_kan(entry, pos, dictionary),
    }
}

/// The part-of-speech tags that `filters` stand for, filter by filter.
pub open spec fn spec_filters_pos(filters: Seq<PosFilter>) -> Seq<Pos>
    decreases filters.len(),
{
    if filters.len() == 0 {
        Seq::empty()
    } else {
        spec_filters_pos(filters.drop_last()) + spec_as_pos(filters.last())
    }
}

/// The tags of all of `filters`, in their order, with the filters' own order.
pub fn filters_to_pos(filters: &Vec<PosFilter>) -> (pos: Vec<Pos>)
    ensures
        pos@ == spec_filters_pos(filters@),
{
    let mut pos: Vec<Pos> = Vec::new();
    let mut i: usize = 0;
    while i < filters.len()
        invariant
            i <= filters@.len(),
            pos@ == spec_filters_pos(filters@.take(i as int)),
        decreases filters@.len() - i,
    {
        let mut tags = filters[i].as_pos();
        proof {
            assert(filters@.take(i + 1).drop_last() =~= filters@.take(i as int));
        }
        pos.append(&mut tags);
        i = i + 1;
    }
    proof {
        assert(filters@.take(filters@.len() as int) =~= filters@);
    }
    pos
}

/// The settings a multiple choice game is created with.
#[derive(Debug)]
pub struct GameSettings {
    pub mode: MultiChoiceMode,
    pub levels: Vec<NLevel>,
    pub filters: Vec<PosFilter>,
}

/// The state of one multiple choice game: the shuffled sample of entries
/// it asks about, the current question and the scores.
#[derive(Debug)]
pub struct Service {
    dictionary: Arc<Dictionary>,
    pos: Vec<Pos>,
    levels: Vec<NLevel>,
    sample: Vec<Arc<DictEntry>>,
    sample_idx: usize,
    mode: MultiChoiceMode,
    question: Option<Question<5>>,
    scoreboard: Scoreboard,
}

/// The entries of `dictionary` that a game with `levels` and `pos` asks
/// about, in dictionary order.
pub open spec fn spec_subset(dictionary: Dictionary, levels: Seq<NLevel>, pos: Seq<Pos>) -> Seq<
    Arc<DictEntry>,
> {
    dictionary.entries@.filter(|e: Arc<DictEntry>| crate::catalog::in_subset(*e, levels, pos))
}

/// Whether no tag of `pos` lets a question of `mode` be asked about `entry`.
pub open spec fn unaskable(mode: MultiChoiceMode, entry: DictEntry, pos: Seq<Pos>) -> bool {
    forall|j: int| 0 <= j < pos.len() ==> !askable(mode, entry, #[trigger] pos[j])
}

impl Service {
    pub closed spec fn spec_dictionary(&self) -> Dictionary {
        *self.dictionary
    }

    /// The part-of-speech tags the game draws from, in their current order.
    pub closed spec fn spec_pos(&self) -> Seq<Pos> {
        self.pos@
    }

    pub closed spec fn spec_level_filter(&self) -> Seq<NLevel> {
        self.levels@
    }

    /// The entries the game asks about, in the order it asks them.
    pub closed spec fn spec_sample(&self) -> Seq<Arc<DictEntry>> {
        self.sample@
    }

    /// How many entries of the sample were used up.
    pub closed spec fn spec_sample_idx(&self) -> int {
        self.sample_idx as int
    }

    pub closed spec fn spec_mode(&self) -> MultiChoiceMode {
        self.mode
    }

    pub closed spec fn spec_question(&self) -> Option<Question<5>> {
        self.question
    }

    pub closed spec fn spec_scoreboard(&self) -> Scoreboard {
        self.scoreboard
    }

    /// The game's invariant.
    pub open spec fn wf(&self) -> bool {
        &&& 0 <= self.spec_sample_idx() <= self.spec_sample().len()
        &&& self.spec_scoreboard().wf()
        &&& self.spec_question() matches Some(q) ==> q.wf()
    }

    /// Sets up a game over the entries of `dictionary` that have one of the
    /// settings' levels and a sense with a tag of one of its filters. The
    /// entries are shuffled; no question is asked yet.
    pub fn new(dictionary: Arc<Dictionary>, settings: GameSettings) -> (service: Self)
        ensures
            service.wf(),
            service.spec_dictionary() == *dictionary,
            service.spec_pos() == spec_filters_pos(settings.filters@),
            service.spec_level_filter() == settings.levels@,
            service.spec_mode() == settings.mode,
            service.spec_sample().to_multiset() == spec_subset(
                *dictionary,
                settings.levels@,
                service.spec_pos(),
            ).to_multiset(),
            service.spec_sample_idx() == 0,
            service.spec_question() is None,
            service.spec_scoreboard().spec_rounds() == 0,
            service.spec_scoreboard().players() == Map::<u64, crate::scoreboard::ScoreEntry>::empty(),
    {
        let GameSettings { mode, levels, filters } = settings;
        let pos = filters_to_pos(&filters);
        let mut sample = dictionary.subset(levels.as_slice(), pos.as_slice());
        random::shuffle(sample.as_mut_slice());
        Service {
            dictionary,
            pos,
            levels,
            sample,
            sample_idx: 0,
            mode,
            question: None,
            scoreboard: Scoreboard::new(),
        }
    }

    pub fn levels(&self) -> (levels: &Vec<NLevel>)
        ensures
            levels@ == self.spec_level_filter(),
    {
        &self.levels
    }

    /// The number of the current round: the rounds played so far.
    pub fn round(&self) -> (round: u32)
        ensures
            round == self.spec_scoreboard().spec_rounds(),
    {
        self.scoreboard.rounds()
    }

    pub fn mode(&self) -> (mode: MultiChoiceMode)
        ensures
            mode == self.spec_mode(),
    {
        self.mode
    }

    pub fn question(&self) -> (question: Option<&Question<5>>)
        ensures
            match question {
                Some(q) => self.spec_question() == Some(*q),
                None => self.spec_question() is None,
            },
    {
        self.question.as_ref()
    }

    pub fn scoreboard(&self) -> (board: &Scoreboard)
        ensures
            *board == self.spec_scoreboard(),
    {
        &self.scoreboard
    }

    /// Takes the next entry of the sample, if any is left.
    fn next_entry(&mut self) -> (entry: Option<Arc<DictEntry>>)
        requires
            old(self).wf(),
        ensures
            final(self).wf(),
            final(self).dictionary == old(self).dictionary,
            final(self).pos == old(self).pos,
            final(self).levels == old(self).levels,
            final(self).sample == old(self).sample,
            final(self).mode == old(self).mode,
            final(self).question == old(self).question,
            final(self).scoreboard == old(self).scoreboard,
            old(self).sample_idx < old(self).sample@.len() ==> final(self).sample_idx
                == old(self).sample_idx + 1 && entry == Some(old(self).sample@[old(self).sample_idx as int]),
            old(self).sample_idx >= old(self).sample@.len() ==> final(self).sample_idx
                == old(self).sample_idx && entry is None,
    {
        if self.sample_idx < self.sample.len() {
            let entry = share(&self.sample[self.sample_idx]);
            self.sample_idx = self.sample_idx + 1;
            return Some(entry);
        }
        None
    }

    /// Moves on to a question about the next entry of the sample that one
    /// of the game's tags lets a question be asked about, skipping the
    /// entries none does. The tags are shuffled before each entry, so which
    /// of the fitting tags is used rests on chance. With no such entry left
    /// there is no question any more.
    pub fn next_round(&mut self)
        requires
            old(self).wf(),
        ensures
            final(self).wf(),
            final(self).spec_dictionary() == old(self).spec_dictionary(),
            final(self).spec_level_filter() == old(self).spec_level_filter(),
            final(self).spec_mode() == old(self).spec_mode(),
            final(self).spec_sample() == old(self).spec_sample(),
            final(self).spec_scoreboard() == old(self).spec_scoreboard(),
            final(self).spec_pos().to_multiset() == old(self).spec_pos().to_multiset(),
            old(self).spec_sample_idx() <= final(self).spec_sample_idx(),
            final(self).spec_question() is None ==> final(self).spec_sample_idx()
                == final(self).spec_sample().len(),
            forall|k: int|
                old(self).spec_sample_idx() <= k < final(self).spec_sample_idx() - (if final(self).spec_question() is Some {
                    1int
                } else {
                    0int
                }) ==> unaskable(
                    old(self).spec_mode(),
                    *#[trigger] old(self).spec_sample()[k],
                    old(self).spec_pos(),
                ),
            final(self).spec_question() is Some ==> {
                let entry = *old(self).spec_sample()[final(self).spec_sample_idx() - 1];
                &&& old(self).spec_sample_idx() < final(self).spec_sample_idx()
                &&& exists|p: Pos|
                    old(self).spec_pos().contains(p) && askable(old(self).spec_mode(), entry, p)
                        && made_question(
                        old(self).spec_mode(),
                        entry,
                        p,
                        old(self).spec_dictionary().entries@,
                        final(self).spec_question(),
                    )
            },
    {
        broadcast use vstd::seq_lib::group_to_multiset_ensures;

        let ghost start = self.sample_idx as int;
        let ghost pos0 = self.pos@;
        while self.sample_idx < self.sample.len()
            invariant
                self.wf(),
                self.dictionary == old(self).dictionary,
                self.levels == old(self).levels,
                self.mode == old(self).mode,
                self.sample == old(self).sample,
                self.scoreboard == old(self).scoreboard,
                self.pos@.to_multiset() == pos0.to_multiset(),
                pos0 == old(self).pos@,
                start == old(self).sample_idx,
                start <= self.sample_idx,
                forall|k: int|
                    start <= k < self.sample_idx ==> unaskable(
                        self.mode,
                        *#[trigger] self.sample@[k],
                        pos0,
                    ),
            decreases self.sample@.len() - self.sample_idx,
        {
            let entry = match self.next_entry() {
                Some(e) => e,
                None => {
                    self.question = None;
                    return ;
                },
            };
            let ghost idx_now = self.sample_idx;
            random::shuffle(self.pos.as_mut_slice());
            let mut j: usize = 0;
            while j < self.pos.len()
                invariant
                    self.wf(),
                    self.dictionary == old(self).dictionary,
                    self.levels == old(self).levels,
                    self.mode == old(self).mode,
                    self.sample == old(self).sample,
                    self.scoreboard == old(self).scoreboard,
                    self.pos@.to_multiset() == pos0.to_multiset(),
                    pos0 == old(self).pos@,
                    start == old(self).sample_idx,
                    start < self.sample_idx,
                    self.sample_idx == idx_now,
                    entry == self.sample@[self.sample_idx - 1],
                    forall|k: int|
                        start <= k < self.sample_idx - 1 ==> unaskable(
                            self.mode,
                            *#[trigger] self.sample@[k],
                            pos0,
                        ),
                    j <= self.pos@.len(),
                    forall|b: int| 0 <= b < j ==> !askable(self.mode, *entry, #[trigger] self.pos@[b]),
                decreases self.pos@.len() - j,
            {
                let p = self.pos[j];
                let made = make_question(self.mode, &entry, p, &self.dictionary);
                match made {
                    Some(q) => {
                        proof {
                            broadcast use vstd::seq_lib::group_to_multiset_ensures;

                            assert(self.pos@.contains(p));
                            assert(self.pos@.to_multiset().count(p) > 0);
                            assert(pos0.contains(p));
                        }
                        self.question = Some(q);
                        return ;
                    },
                    None => {},
                }
                j = j + 1;
            }
            proof {
                broadcast use vstd::seq_lib::group_to_multiset_ensures;

                assert forall|b: int| 0 <= b < pos0.len() implies !askable(
                    self.mode,
                    *entry,
                    #[trigger] pos0[b],
                ) by {
                    assert(pos0.contains(pos0[b]));
                    assert(self.pos@.to_multiset().count(pos0[b]) > 0);
                    assert(self.pos@.contains(pos0[b]));
                    let c = choose|c: int| 0 <= c < self.pos@.len() && self.pos@[c] == pos0[b];
                    assert(!askable(self.mode, *entry, self.pos@[c]));
                }
            }
        }
        self.question = None;
    }

    /// Records `user`'s pick of `choice` for the current question: a win
    /// when it is the answer, a loss otherwise. Without a question nothing
    /// happens and the pick does not count.
    pub fn select_choice(&mut self, user: u64, choice: usize) -> (correct: bool)
        requires
            old(self).wf(),
            old(self).spec_question() is Some ==> crate::scoreboard::can_record(
                old(self).spec_scoreboard(),
                user,
            ),
        ensures
            final(self).wf(),
            final(self).spec_dictionary() == old(self).spec_dictionary(),
            final(self).spec_pos() == old(self).spec_pos(),
            final(self).spec_level_filter() == old(self).spec_level_filter(),
            final(self).spec_mode() == old(self).spec_mode(),
            final(self).spec_sample() == old(self).spec_sample(),
            final(self).spec_sample_idx() == old(self).spec_sample_idx(),
            match old(self).spec_question() {
                None => !correct && *final(self) == *old(self),
                Some(q) => {
                    &&& correct == (choice == q.spec_answer_idx())
                    &&& final(self).spec_question() matches Some(q2) && guessed(q, q2, choice)
                    &&& correct ==> crate::scoreboard::recorded_win(
                        old(self).spec_scoreboard(),
                        final(self).spec_scoreboard(),
                        user,
                    )
                    &&& !correct ==> crate::scoreboard::recorded_loss(
                        old(self).spec_scoreboard(),
                        final(self).spec_scoreboard(),
                        user,
                    )
                },
            },
    {
        let correct = match self.question.as_mut() {
            Some(question) => question.guess(choice),
            None => return false,
        };
        if correct {
            self.scoreboard.add_win(user);
        } else {
            self.scoreboard.add_loss(user);
        }
        correct
    }
}

} // verus!
