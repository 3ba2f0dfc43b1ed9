//! What each multiple choice mode shows and asks for, stated over the
//! entry itself: its readings, its first kanji and the glosses of its
//! senses.

use std::sync::Arc;

use vstd::prelude::*;

use crate::dictionary::{strings_contain, DictEntry, Pos};
use crate::modes::MultiChoiceMode;
use crate::multi_choice::{
    drawn_from, glossed_sense, made_question, spec_answer_of, spec_other_answers, spec_prompt_answer, reading_of_kanji_and_sense, reading_of_sense,
    spec_kanji_reading_pair, spec_kanji_sense_pair, spec_reading_sense_pair, tagged_sense,
};
use crate::question::Question;
use crate::util::{first_match, lemma_first_match_is_first};

verus! {

/// `s` is the first sense of `entry` tagged with `pos`, and it has a gloss
/// when `glossed` is set (the senses before it fail that test).
pub open spec fn is_first_sense(entry: DictEntry, pos: Pos, glossed: bool, s: int) -> bool {
    &&& 0 <= s < entry.senses@.len()
    &&& entry.senses@[s].pos@.contains(pos)
    &&& (glossed ==> entry.senses@[s].gloss@.len() > 0)
    &&& forall|j: int|
        0 <= j < s ==> !((#[trigger] entry.senses@[j]).pos@.contains(pos) && (glossed
            ==> entry.senses@[j].gloss@.len() > 0))
}

/// Whether reading `r` of `entry` goes with sense `s` and, when given, with
/// the kanji written `kanji`: each list of relevant texts is empty or
/// names the other.
pub open spec fn reading_fits(entry: DictEntry, s: int, kanji: Option<Seq<char>>, r: int) -> bool {
    let reading = entry.readings@[r];
    let sense = entry.senses@[s];
    &&& (sense.relevant_reading@.len() == 0 || exists|k: int|
        0 <= k < sense.relevant_reading@.len() && (#[trigger] sense.relevant_reading@[k])@
            == reading.text@)
    &&& kanji matches Some(kt) ==> (reading.relevant_to@.len() == 0 || exists|k: int|
        0 <= k < reading.relevant_to@.len() && (#[trigger] reading.relevant_to@[k])@ == kt)
}

/// `r` is the first reading of `entry` that fits sense `s` (and `kanji`).
pub open spec fn is_first_reading(entry: DictEntry, s: int, kanji: Option<Seq<char>>, r: int) -> bool {
    &&& 0 <= r < entry.readings@.len()
    &&& reading_fits(entry, s, kanji, r)
    &&& forall|j: int| 0 <= j < r ==> !#[trigger] reading_fits(entry, s, kanji, j)
}

/// The text that question `q` asks for.
pub open spec fn answer_text<const N: usize>(q: Question<N>) -> Seq<char> {
    q.spec_choices()[q.spec_answer_idx()]@
}

/// Each mode asks what its name says. A reading is shown or asked for in
/// the modes with "Hir", the entry's first kanji in those with "Kan", and
/// the first gloss of a sense in those with "Eng"; the first part of the
/// name is the prompt and the second the answer. The sense is the entry's
/// first one tagged with `pos` (with a gloss when one is shown or asked
/// for), and the reading the first one that goes with it (and with the
/// kanji, when one is involved).
pub proof fn law_modes_ask_what_they_say(
    mode: MultiChoiceMode,
    entry: DictEntry,
    pos: Pos,
    entries: Seq<Arc<DictEntry>>,
    q: Question<5>,
)
    requires
        made_question(mode, entry, pos, entries, Some(q)),
    ensures
        mode == MultiChoiceMode::EngToHir ==> exists|s: int, r: int|
            is_first_sense(entry, pos, true, s) && is_first_reading(entry, s, None, r)
                && q.spec_prompt() == entry.senses@[s].gloss@[0].content@ && answer_text(q)
                == entry.readings@[r].text@,
        mode == MultiChoiceMode::HirToEng ==> exists|s: int, r: int|
            is_first_sense(entry, pos, true, s) && is_first_reading(entry, s, None, r)
                && q.spec_prompt() == entry.readings@[r].text@ && answer_text(q)
                == entry.senses@[s].gloss@[0].content@,
        mode == MultiChoiceMode::HirToKan ==> entry.kanjis@.len() > 0 && exists|s: int, r: int|
            is_first_sense(entry, pos, false, s) && is_first_reading(
                entry,
                s,
                Some(entry.kanjis@[0].text@),
                r,
            ) && q.spec_prompt() == entry.readings@[r].text@ && answer_text(q)
                == entry.kanjis@[0].text@,
        mode == MultiChoiceMode::KanToHir ==> entry.kanjis@.len() > 0 && exists|s: int, r: int|
            is_first_sense(entry, pos, false, s) && is_first_reading(
                entry,
                s,
                Some(entry.kanjis@[0].text@),
                r,
            ) && q.spec_prompt() == entry.kanjis@[0].text@ && answer_text(q)
                == entry.readings@[r].text@,
        mode == MultiChoiceMode::KanToEng ==> entry.kanjis@.len() > 0 && exists|s: int|
            is_first_sense(entry, pos, true, s) && q.spec_prompt() == entry.kanjis@[0].text@
                && answer_text(q) == entry.senses@[s].gloss@[0].content@,
        mode == MultiChoiceMode::EngToKan ==> entry.kanjis@.len() > 0 && exists|s: int|
            is_first_sense(entry, pos, true, s) && q.spec_prompt()
                == entry.senses@[s].gloss@[0].content@ && answer_text(q) == entry.kanjis@[0].text@,
{
    reveal(spec_reading_sense_pair);
    reveal(spec_kanji_reading_pair);
    reveal(spec_kanji_sense_pair);
    let glossed = mode == MultiChoiceMode::EngToHir || mode == MultiChoiceMode::HirToEng || mode
        == MultiChoiceMode::KanToEng || mode == MultiChoiceMode::EngToKan;
    let sp = if glossed {
        glossed_sense(pos)
    } else {
        tagged_sense(pos)
    };
    assert(first_match(entry.senses@, sp) is Some);
    lemma_first_match_is_first(entry.senses@, sp);
    let s = first_match(entry.senses@, sp).unwrap();
    assert(is_first_sense(entry, pos, glossed, s)) by {
        assert forall|j: int| 0 <= j < s implies !((#[trigger] entry.senses@[j]).pos@.contains(pos)
            && (glossed ==> entry.senses@[j].gloss@.len() > 0)) by {
            assert(!sp(entry.senses@[j]));
        }
    }
    let sense = entry.senses@[s];
    if mode == MultiChoiceMode::KanToEng || mode == MultiChoiceMode::EngToKan {
        assert(entry.kanjis@.len() > 0);
    } else {
        let kanji: Option<Seq<char>> = if glossed {
            None
        } else {
            Some(entry.kanjis@[0].text@)
        };
        let rp = if glossed {
            reading_of_sense(sense)
        } else {
            reading_of_kanji_and_sense(entry.kanjis@[0], sense)
        };
        assert(first_match(entry.readings@, rp) is Some);
        lemma_first_match_is_first(entry.readings@, rp);
        let r = first_match(entry.readings@, rp).unwrap();
        assert forall|j: int| 0 <= j < entry.readings@.len() implies rp(entry.readings@[j])
            == reading_fits(entry, s, kanji, j) by {
            let rd = entry.readings@[j];
            if strings_contain(sense.relevant_reading@, rd.text@) {
                let k = choose|k: int|
                    0 <= k < sense.relevant_reading@.len() && (#[trigger] sense.relevant_reading@[k])@
                        == rd.text@;
                assert(sense.relevant_reading@[k]@ == rd.text@);
            }
            if !glossed && strings_contain(rd.relevant_to@, entry.kanjis@[0].text@) {
                let k = choose|k: int|
                    0 <= k < rd.relevant_to@.len() && (#[trigger] rd.relevant_to@[k])@
                        == entry.kanjis@[0].text@;
                assert(rd.relevant_to@[k]@ == entry.kanjis@[0].text@);
            }
        }
        assert(is_first_reading(entry, s, kanji, r)) by {
            assert forall|j: int| 0 <= j < r implies !#[trigger] reading_fits(entry, s, kanji, j) by {
                assert(!rp(entry.readings@[j]));
            }
        }
    }
}

/// Every choice of a question is its answer, a blank, or the answer that
/// another entry of the dictionary (one with a different id) gives in the
/// same mode with the same tag: wrong choices are real words of the game.
pub proof fn law_wrong_choices_come_from_other_entries(
    mode: MultiChoiceMode,
    entry: DictEntry,
    pos: Pos,
    entries: Seq<Arc<DictEntry>>,
    q: Question<5>,
    c: String,
)
    requires
        made_question(mode, entry, pos, entries, Some(q)),
        q.spec_choices().contains(c),
    ensures
        c@ == answer_text(q) || c@ == Seq::<char>::empty() || exists|e: Arc<DictEntry>|
            #[trigger] entries.contains(e) && e.id != entry.id && spec_answer_of(mode, *e, pos) == Some(
                c,
            ),
{
    broadcast use vstd::seq_lib::group_to_multiset_ensures;

    let pa = spec_prompt_answer(mode, entry, pos).unwrap();
    let others = spec_other_answers(mode, entry, pos, entries);
    assert(drawn_from(q, pa.0@, pa.1, others, crate::dictionary::spec_levels(&entry)));
    let (picked, blank) = choose|picked: Seq<String>, blank: Seq<String>|
        {
            &&& picked.len() == crate::multi_choice::fewer(4, others.len() as int)
            &&& picked.to_multiset().subset_of(others.to_multiset())
            &&& picked.len() + blank.len() == 4
            &&& forall|i: int| 0 <= i < blank.len() ==> (#[trigger] blank[i])@ == Seq::<char>::empty()
            &&& q.spec_choices().to_multiset() == (seq![pa.1] + picked + blank).to_multiset()
        };
    let all = seq![pa.1] + picked + blank;
    assert(q.spec_choices().to_multiset().count(c) > 0);
    assert(all.to_multiset().count(c) > 0);
    assert(all.contains(c));
    let k = choose|k: int| 0 <= k < all.len() && all[k] == c;
    if k == 0 {
        assert(c == pa.1);
    } else if k < 1 + picked.len() {
        assert(picked[k - 1] == c);
        assert(picked.contains(c));
        assert(picked.to_multiset().count(c) > 0);
        assert(others.to_multiset().count(c) > 0);
        assert(others.contains(c));
        let f = |e: Arc<DictEntry>|
            if e.id == entry.id {
                None
            } else {
                match spec_prompt_answer(mode, *e, pos) {
                    Some(x) => Some(x.1),
                    None => None,
                }
            };
        assert(others == entries.filter_map(f));
        entries.lemma_filter_map_contains(f, c);
        let e = choose|e: Arc<DictEntry>| #[trigger] entries.contains(e) && f(e) == Some(c);
        assert(spec_answer_of(mode, *e, pos) == Some(c));
    } else {
        assert(blank[k - 1 - picked.len()] == c);
    }
}

} // verus!
