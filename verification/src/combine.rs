//! Combining JMdict with the JLPT vocabulary lists: annotating entries
//! with the levels of the words that name them, and keeping the entries
//! that got a level.

use vstd::hash_map::{HashMapWithView, StringHashMap};
use vstd::prelude::*;

use crate::dictionary::{level_added, spec_is_annotated, trimmed_entry, DictEntry, Kanji, Reading};
use crate::jlpt::JlptEntry;

verus! {

/// For each entry, the texts of its readings.
pub open spec fn reading_texts(entries: Seq<DictEntry>) -> Seq<Seq<Seq<char>>> {
    entries.map_values(|e: DictEntry| e.readings@.map_values(|r: Reading| r.text@))
}

/// For each entry, the texts of its kanjis.
pub open spec fn kanji_texts(entries: Seq<DictEntry>) -> Seq<Seq<Seq<char>>> {
    entries.map_values(|e: DictEntry| e.kanjis@.map_values(|k: Kanji| k.text@))
}

/// How many of `texts` are `h`.
pub open spec fn occurrences(texts: Seq<Seq<char>>, h: Seq<char>) -> nat
    decreases texts.len(),
{
    if texts.len() == 0 {
        0
    } else {
        occurrences(texts.drop_last(), h) + if texts.last() == h {
            1nat
        } else {
            0nat
        }
    }
}

/// The index of each entry once per reading of it written `h`, in order:
/// the entries a word written `h` may name.
pub open spec fn hits(rt: Seq<Seq<Seq<char>>>, h: Seq<char>) -> Seq<usize>
    decreases rt.len(),
{
    if rt.len() == 0 {
        Seq::empty()
    } else {
        hits(rt.drop_last(), h) + Seq::new(
            occurrences(rt.last(), h),
            |k: int| (rt.len() - 1) as usize,
        )
    }
}

/// An entry index whose entry has a kanji written `k`.
pub open spec fn with_kanji(kt: Seq<Seq<Seq<char>>>, k: Seq<char>) -> spec_fn(usize) -> bool {
    |i: usize| kt[i as int].contains(k)
}

/// An entry index whose entry has no kanji.
pub open spec fn kanjiless(kt: Seq<Seq<Seq<char>>>) -> spec_fn(usize) -> bool {
    |i: usize| kt[i as int].len() == 0
}

/// The entries a word with kanji `kanji` (or none) can name.
pub open spec fn kanji_filter(kt: Seq<Seq<Seq<char>>>, kanji: Option<Seq<char>>) -> spec_fn(usize) -> bool {
    match kanji {
        Some(k) => with_kanji(kt, k),
        None => kanjiless(kt),
    }
}

/// The characters of a word's kanji, if it has one.
pub open spec fn word_kanji(word: JlptEntry) -> Option<Seq<char>> {
    match word.kanji {
        Some(k) => Some(k@),
        None => None,
    }
}

/// The entry that a word written `h` (with kanji `kanji`, if any) names:
/// the one entry with a reading `h`, or else the one such entry with the
/// kanji (or, for a word without kanji, the one such entry without kanji).
/// `None` when there is no such single entry.
pub open spec fn target(
    rt: Seq<Seq<Seq<char>>>,
    kt: Seq<Seq<Seq<char>>>,
    h: Seq<char>,
    kanji: Option<Seq<char>>,
) -> Option<usize> {
    let m = hits(rt, h);
    if m.len() == 1 {
        Some(m[0])
    } else {
        let f = m.filter(kanji_filter(kt, kanji));
        if f.len() == 1 {
            Some(f[0])
        } else {
            None
        }
    }
}

/// The entries that a word names in `entries`.
pub open spec fn word_target(entries: Seq<DictEntry>, word: JlptEntry) -> Option<usize> {
    target(
        reading_texts(entries),
        kanji_texts(entries),
        word.hiragana@,
        word_kanji(word),
    )
}

/// `after` is `before` once `word` was annotated: its level was added to
/// the entry it names, if there is one.
pub open spec fn annotated_step(before: Seq<DictEntry>, after: Seq<DictEntry>, word: JlptEntry) -> bool {
    match word_target(before, word) {
        None => after == before,
        Some(t) => {
            &&& t < before.len()
            &&& after.len() == before.len()
            &&& forall|i: int| 0 <= i < before.len() && i != t ==> #[trigger] after[i] == before[i]
            &&& level_added(before[t as int], after[t as int], word.hiragana@, word.level)
        },
    }
}

/// The index of each reading text: the value under `h` lists the entries
/// a word written `h` may name.
pub open spec fn indexes(index: Map<Seq<char>, Vec<usize>>, rt: Seq<Seq<Seq<char>>>) -> bool {
    forall|h: Seq<char>|
        #![trigger index.contains_key(h)]
        #![trigger hits(rt, h)]
        (index.contains_key(h) <==> hits(rt, h).len() > 0) && (index.contains_key(h) ==> index[h]@
            == hits(rt, h))
}

/// Counting the texts of a prefix one more.
proof fn lemma_occurrences_step(texts: Seq<Seq<char>>, j: int, h: Seq<char>)
    requires
        0 <= j < texts.len(),
    ensures
        occurrences(texts.take(j + 1), h) == occurrences(texts.take(j), h) + if texts[j] == h {
            1nat
        } else {
            0nat
        },
{
    assert(texts.take(j + 1).drop_last() =~= texts.take(j));
}

/// Builds the index of the entries' reading texts.
pub fn dict_index(entries: &Vec<DictEntry>) -> (index: StringHashMap<Vec<usize>>)
    ensures
        indexes(index@, reading_texts(entries@)),
{
    let ghost rt = reading_texts(entries@);
    let mut index: StringHashMap<Vec<usize>> = StringHashMap::new();
    let mut i: usize = 0;
    proof {
        assert forall|h: Seq<char>| hits(rt.take(0), h) == Seq::<usize>::empty() by {
            assert(rt.take(0).len() == 0);
        }
    }
    while i < entries.len()
        invariant
            rt == reading_texts(entries@),
            i <= entries@.len(),
            indexes(index@, rt.take(i as int)),
        decreases entries@.len() - i,
    {
        let readings = &entries[i].readings;
        let ghost texts = rt[i as int];
        assert(texts == readings@.map_values(|r: Reading| r.text@));
        let mut j: usize = 0;
        proof {
            assert forall|h: Seq<char>| occurrences(texts.take(0), h) == 0 by {
                assert(texts.take(0).len() == 0);
            }
            assert forall|h: Seq<char>| #[trigger] hits(rt.take(i as int), h) + Seq::new(
                occurrences(texts.take(0), h),
                |k: int| i,
            ) == hits(rt.take(i as int), h) by {
                assert(hits(rt.take(i as int), h) + Seq::new(
                    occurrences(texts.take(0), h),
                    |k: int| i,
                ) =~= hits(rt.take(i as int), h));
            }
        }
        while j < readings.len()
            invariant
                rt == reading_texts(entries@),
                i < entries@.len(),
                texts == rt[i as int],
                texts == readings@.map_values(|r: Reading| r.text@),
                j <= readings@.len(),
                forall|h: Seq<char>|
                    #![trigger index@.contains_key(h)]
                    #![trigger hits(rt.take(i as int), h)]
                    (index@.contains_key(h) <==> (hits(rt.take(i as int), h) + Seq::new(
                        occurrences(texts.take(j as int), h),
                        |k: int| i,
                    )).len() > 0) && (index@.contains_key(h) ==> index@[h]@ == hits(
                        rt.take(i as int),
                        h,
                    ) + Seq::new(occurrences(texts.take(j as int), h), |k: int| i)),
            decreases readings@.len() - j,
        {
            let key = readings[j].text.clone();
            let mut ids: Vec<usize> = match index.get(key.as_str()) {
                Some(v) => v.clone(),
                None => Vec::new(),
            };
            ids.push(i);
            let ghost h0 = key@;
            index.insert(key, ids);
            proof {
                assert forall|h: Seq<char>|
                    #![trigger index@.contains_key(h)]
                    #![trigger hits(rt.take(i as int), h)]
                    (index@.contains_key(h) <==> (hits(rt.take(i as int), h) + Seq::new(
                        occurrences(texts.take(j + 1), h),
                        |k: int| i,
                    )).len() > 0) && (index@.contains_key(h) ==> index@[h]@ == hits(
                        rt.take(i as int),
                        h,
                    ) + Seq::new(occurrences(texts.take(j + 1), h), |k: int| i)) by {
                    lemma_occurrences_step(texts, j as int, h);
                    if h == h0 {
                        assert(hits(rt.take(i as int), h) + Seq::new(
                            occurrences(texts.take(j + 1), h),
                            |k: int| i,
                        ) =~= (hits(rt.take(i as int), h) + Seq::new(
                            occurrences(texts.take(j as int), h),
                            |k: int| i,
                        )).push(i));
                    }
                }
            }
            j = j + 1;
        }
        proof {
            assert(texts.take(readings@.len() as int) =~= texts);
            assert(rt.take(i + 1).drop_last() =~= rt.take(i as int));
            assert forall|h: Seq<char>| #[trigger]
                hits(rt.take(i + 1), h) == hits(rt.take(i as int), h) + Seq::new(
                    occurrences(texts, h),
                    |k: int| i,
                ) by {
                assert(hits(rt.take(i + 1), h) =~= hits(rt.take(i as int), h) + Seq::new(
                    occurrences(texts, h),
                    |k: int| i,
                ));
            }
        }
        i = i + 1;
    }
    proof {
        assert(rt.take(entries@.len() as int) =~= rt);
    }
    index
}

/// Every index that `hits` lists is an index of an entry.
proof fn lemma_hits_bounded(rt: Seq<Seq<Seq<char>>>, h: Seq<char>)
    ensures
        forall|k: int| 0 <= k < hits(rt, h).len() ==> #[trigger] hits(rt, h)[k] < rt.len(),
    decreases rt.len(),
{
    if rt.len() > 0 {
        lemma_hits_bounded(rt.drop_last(), h);
        let a = hits(rt.drop_last(), h);
        assert forall|k: int| 0 <= k < hits(rt, h).len() implies #[trigger] hits(rt, h)[k]
            < rt.len() by {
            if k < a.len() {
                assert(hits(rt, h)[k] == a[k]);
            }
        }
    }
}

/// Whether `entry` has a kanji written like `text`.
fn has_kanji_text(entry: &DictEntry, text: &String) -> (found: bool)
    ensures
        found == entry.kanjis@.map_values(|k: Kanji| k.text@).contains(text@),
{
    let ghost texts = entry.kanjis@.map_values(|k: Kanji| k.text@);
    let mut i: usize = 0;
    while i < entry.kanjis.len()
        invariant
            texts == entry.kanjis@.map_values(|k: Kanji| k.text@),
            i <= entry.kanjis@.len(),
            forall|j: int| 0 <= j < i ==> texts[j] != text@,
        decreases entry.kanjis@.len() - i,
    {
        if entry.kanjis[i].text == *text {
            assert(texts[i as int] == text@);
            return true;
        }
        i = i + 1;
    }
    false
}

/// Finds the entry that `word` names.
fn find_target(entries: &Vec<DictEntry>, index: &StringHashMap<Vec<usize>>, word: &JlptEntry) -> (t:
    Option<usize>)
    requires
        indexes(index@, reading_texts(entries@)),
    ensures
        t == word_target(entries@, *word),
        t matches Some(x) ==> x < entries@.len(),
{
    let ghost rt = reading_texts(entries@);
    let ghost kt = kanji_texts(entries@);
    let ghost h = word.hiragana@;
    proof {
        lemma_hits_bounded(rt, h);
    }
    let matches = match index.get(word.hiragana.as_str()) {
        Some(m) => m,
        None => {
            proof {
                assert(hits(rt, h).len() == 0);
                reveal_with_fuel(Seq::filter, 1);
            }
            return None;
        },
    };
    assert(matches@ == hits(rt, h));
    if matches.len() == 1 {
        return Some(matches[0]);
    }
    let ghost p = kanji_filter(kt, word_kanji(*word));
    let mut found: Vec<usize> = Vec::new();
    let mut i: usize = 0;
    proof {
        assert(matches@.take(0).filter(p) =~= Seq::<usize>::empty()) by {
            reveal_with_fuel(Seq::filter, 1);
        }
    }
    while i < matches.len()
        invariant
            p == kanji_filter(kt, word_kanji(*word)),
            kt == kanji_texts(entries@),
            matches@ == hits(rt, h),
            forall|k: int| 0 <= k < hits(rt, h).len() ==> #[trigger] hits(rt, h)[k] < rt.len(),
            rt.len() == entries@.len(),
            i <= matches@.len(),
            found@ == matches@.take(i as int).filter(p),
        decreases matches@.len() - i,
    {
        let e = matches[i];
        assert(e < entries@.len());
        let keep = match &word.kanji {
            Some(k) => has_kanji_text(&entries[e], k),
            None => entries[e].kanjis.len() == 0,
        };
        proof {
            assert(kt[e as int] == entries@[e as int].kanjis@.map_values(|k: Kanji| k.text@));
            assert(matches@.take(i + 1) =~= matches@.take(i as int).push(matches@[i as int]));
            matches@.take(i as int).lemma_filter_push(matches@[i as int], p);
        }
        if keep {
            found.push(e);
        }
        i = i + 1;
    }
    proof {
        assert(matches@.take(matches@.len() as int) =~= matches@);
    }
    if found.len() == 1 {
        proof {
            matches@.lemma_filter_contains_rev(p, found@[0]);
        }
        Some(found[0])
    } else {
        None
    }
}

/// Adding a level changes no reading or kanji text.
proof fn lemma_level_added_keeps_texts(
    before: Seq<DictEntry>,
    t: int,
    after: DictEntry,
    h: Seq<char>,
    level: crate::dictionary::NLevel,
)
    requires
        0 <= t < before.len(),
        level_added(before[t], after, h, level),
    ensures
        reading_texts(before.update(t, after)) == reading_texts(before),
        kanji_texts(before.update(t, after)) == kanji_texts(before),
{
    let b = before[t];
    assert(after.readings@.map_values(|r: Reading| r.text@) =~= b.readings@.map_values(
        |r: Reading| r.text@,
    ));
    assert(after.kanjis@.map_values(|k: Kanji| k.text@) =~= b.kanjis@.map_values(
        |k: Kanji| k.text@,
    ));
    assert(reading_texts(before.update(t, after)) =~= reading_texts(before));
    assert(kanji_texts(before.update(t, after)) =~= kanji_texts(before));
}

/// Annotates `entries` with the levels of `words`, word by word in order:
/// each word's level is added to the entry it names, if any.
pub fn annotate(entries: &mut Vec<DictEntry>, words: &[JlptEntry])
    ensures
        exists|states: Seq<Seq<DictEntry>>|
            {
                &&& states.len() == words@.len() + 1
                &&& states[0] == old(entries)@
                &&& states[words@.len() as int] == final(entries)@
                &&& forall|k: int|
                    0 <= k < words@.len() ==> annotated_step(
                        #[trigger] states[k],
                        states[k + 1],
                        words@[k],
                    )
            },
{
    let index = dict_index(entries);
    let ghost rt = reading_texts(entries@);
    let ghost kt = kanji_texts(entries@);
    let ghost mut states: Seq<Seq<DictEntry>> = seq![entries@];
    let mut w: usize = 0;
    while w < words.len()
        invariant
            w <= words@.len(),
            indexes(index@, rt),
            rt == reading_texts(entries@),
            kt == kanji_texts(entries@),
            states.len() == w + 1,
            states[0] == old(entries)@,
            states[w as int] == entries@,
            forall|k: int|
                0 <= k < w ==> annotated_step(#[trigger] states[k], states[k + 1], words@[k]),
        decreases words@.len() - w,
    {
        let word = &words[w];
        let ghost before = entries@;
        match find_target(entries, &index, word) {
            Some(t) => {
                entries[t].add_level(word.hiragana.as_str(), word.level);
                proof {
                    assert(entries@ == before.update(t as int, entries@[t as int]));
                    lemma_level_added_keeps_texts(before, t as int, entries@[t as int], word.hiragana@, word.level);
                }
            },
            None => {},
        }
        proof {
            states = states.push(entries@);
            assert(annotated_step(states[w as int], states[w + 1], words@[w as int]));
        }
        w = w + 1;
    }
}

/// The id of the one entry that is never kept.
pub const BLACKLISTED_ID: u32 = 1577100;

/// Whether an entry may be kept: it has a reading, some kanji or reading
/// of it has a level, and it is not blacklisted.
pub open spec fn eligible(e: DictEntry) -> bool {
    &&& e.readings@.len() > 0
    &&& spec_is_annotated(&e)
    &&& e.id != BLACKLISTED_ID
}

/// Whether the entry at `i` is kept: it is eligible, and no later eligible
/// entry has its id.
pub open spec fn keeps(entries: Seq<DictEntry>) -> spec_fn(int) -> bool {
    |i: int|
        eligible(entries[i]) && forall|j: int|
            i < j < entries.len() ==> !(eligible(#[trigger] entries[j]) && entries[j].id
                == entries[i].id)
}

/// The indices of the kept entries, in order.
pub open spec fn kept_indices(entries: Seq<DictEntry>) -> Seq<int> {
    Seq::new(entries.len(), |i: int| i).filter(keeps(entries))
}

/// The last eligible entry with each id, among the first `n`.
pub open spec fn last_of_id(entries: Seq<DictEntry>, n: int, m: Map<u32, usize>) -> bool {
    forall|id: u32|
        #![trigger m.contains_key(id)]
        (m.contains_key(id) <==> exists|j: int|
            0 <= j < n && eligible(#[trigger] entries[j]) && entries[j].id == id) && (
        m.contains_key(id) ==> {
            let j = m[id] as int;
            &&& 0 <= j < n
            &&& eligible(entries[j])
            &&& entries[j].id == id
            &&& forall|k: int|
                j < k < n ==> !(eligible(#[trigger] entries[k]) && entries[k].id == id)
        })
}

/// Whether `entry` may be kept.
fn is_eligible(entry: &DictEntry) -> (ok: bool)
    ensures
        ok == eligible(*entry),
{
    entry.readings.len() > 0 && entry.is_annotated() && entry.id != BLACKLISTED_ID
}

/// The entries to write out: each kept entry, trimmed of the kanjis and
/// readings without a level, in order. Of eligible entries that share an
/// id, the last one is kept.
pub fn dict_entries(entries: Vec<DictEntry>) -> (out: Vec<DictEntry>)
    ensures
        out@.len() == kept_indices(entries@).len(),
        forall|k: int|
            0 <= k < out@.len() ==> trimmed_entry(
                entries@[kept_indices(entries@)[k]],
                #[trigger] out@[k],
            ),
{
    broadcast use vstd::std_specs::hash::group_hash_axioms;

    let ghost orig = entries@;
    let n = entries.len();
    let mut last: HashMapWithView<u32, usize> = HashMapWithView::new();
    let mut i: usize = 0;
    while i < n
        invariant
            n == orig.len(),
            orig == entries@,
            i <= n,
            last_of_id(orig, i as int, last@),
        decreases n - i,
    {
        let ok = is_eligible(&entries[i]);
        if ok {
            last.insert(entries[i].id, i);
        }
        proof {
            assert forall|id: u32| #[trigger] last@.contains_key(id) == exists|j: int|
                0 <= j < i + 1 && eligible(#[trigger] orig[j]) && orig[j].id == id by {
                if ok && orig[i as int].id == id {
                    assert(eligible(orig[i as int]) && orig[i as int].id == id);
                }
            }
        }
        i = i + 1;
    }
    let ghost all_idx = Seq::new(orig.len(), |x: int| x);
    let ghost p = keeps(orig);
    let mut entries = entries;
    let mut out: Vec<DictEntry> = Vec::new();
    let ghost mut picked: Seq<int> = Seq::empty();
    let mut i: usize = 0;
    proof {
        assert(all_idx.take(0).filter(p) =~= Seq::<int>::empty()) by {
            reveal_with_fuel(Seq::filter, 1);
        }
    }
    while i < n
        invariant
            n == orig.len(),
            entries@.len() == n,
            forall|k: int| i <= k < n ==> #[trigger] entries@[k] == orig[k],
            i <= n,
            last_of_id(orig, n as int, last@),
            all_idx == Seq::new(orig.len(), |x: int| x),
            p == keeps(orig),
            picked == all_idx.take(i as int).filter(p),
            out@.len() == picked.len(),
            forall|k: int|
                0 <= k < out@.len() ==> trimmed_entry(orig[picked[k]], #[trigger] out@[k]),
        decreases n - i,
    {
        let mut entry = DictEntry { id: 0, kanjis: Vec::new(), readings: Vec::new(), senses: Vec::new() };
        std::mem::swap(&mut entries[i], &mut entry);
        assert(entry == orig[i as int]);
        let keep = if is_eligible(&entry) {
            match last.get(&entry.id) {
                Some(j) => *j == i,
                None => false,
            }
        } else {
            false
        };
        proof {
            let e = orig[i as int];
            if eligible(e) {
                assert(last@.contains_key(e.id));
                let j = last@[e.id] as int;
                if j == i {
                    assert(p(i as int));
                } else {
                    assert(j > i) by {
                        if j < i {
                            assert(!(eligible(orig[i as int]) && orig[i as int].id == e.id));
                        }
                    }
                    assert(!p(i as int)) by {
                        assert(eligible(orig[j]) && orig[j].id == e.id);
                    }
                }
            }
            assert(keep == p(i as int));
            assert(all_idx.take(i + 1) =~= all_idx.take(i as int).push(i as int));
            all_idx.take(i as int).lemma_filter_push(i as int, p);
        }
        if keep {
            entry.trim();
            out.push(entry);
            proof {
                picked = picked.push(i as int);
            }
        }
        i = i + 1;
    }
    proof {
        assert(all_idx.take(n as int) =~= all_idx);
    }
    out
}

/// What a filter keeps of a strictly rising sequence of indices rises
/// strictly too, and comes from the sequence.
proof fn lemma_filter_rising_indices(s: Seq<int>, p: spec_fn(int) -> bool)
    requires
        forall|i: int, j: int| 0 <= i < j < s.len() ==> s[i] < s[j],
    ensures
        forall|i: int, j: int| 0 <= i < j < s.filter(p).len() ==> s.filter(p)[i] < s.filter(p)[j],
    decreases s.len(),
{
    reveal_with_fuel(Seq::filter, 1);
    if s.len() > 0 {
        let rest = s.drop_last();
        lemma_filter_rising_indices(rest, p);
        let f = rest.filter(p);
        if p(s.last()) {
            assert(s.filter(p) == f.push(s.last()));
            assert forall|i: int, j: int| 0 <= i < j < s.filter(p).len() implies s.filter(p)[i] < s.filter(
                p,
            )[j] by {
                if j == f.len() {
                    assert(f.contains(f[i]));
                    rest.lemma_filter_contains_rev(p, f[i]);
                    let k = choose|k: int| 0 <= k < rest.len() && rest[k] == f[i];
                    assert(s[k] == rest[k]);
                    assert(s.last() == s[s.len() - 1]);
                }
            }
        }
    }
}

/// The written dictionary has one entry per id, and every entry in it is
/// annotated and not blacklisted.
pub proof fn law_written_entries_distinct(entries: Seq<DictEntry>, out: Seq<DictEntry>)
    requires
        out.len() == kept_indices(entries).len(),
        forall|k: int|
            0 <= k < out.len() ==> trimmed_entry(entries[kept_indices(entries)[k]], #[trigger] out[k]),
    ensures
        forall|a: int, b: int| 0 <= a < b < out.len() ==> out[a].id != out[b].id,
        forall|k: int|
            0 <= k < out.len() ==> spec_is_annotated(&#[trigger] out[k]) && out[k].id != BLACKLISTED_ID,
{
    broadcast use vstd::seq_lib::group_filter_ensures;

    let idx = Seq::new(entries.len(), |i: int| i);
    let keep = keeps(entries);
    let kept = kept_indices(entries);
    lemma_filter_rising_indices(idx, keep);
    assert forall|k: int| 0 <= k < kept.len() implies 0 <= #[trigger] kept[k] < entries.len() && keep(
        kept[k],
    ) by {
        assert(kept.contains(kept[k]));
        idx.lemma_filter_contains_rev(keep, kept[k]);
    }
    assert forall|a: int, b: int| 0 <= a < b < out.len() implies out[a].id != out[b].id by {
        assert(trimmed_entry(entries[kept[a]], out[a]));
        assert(trimmed_entry(entries[kept[b]], out[b]));
        assert(kept[a] < kept[b]);
        assert(keep(kept[a]));
        assert(keep(kept[b]));
        assert(eligible(entries[kept[b]]));
    }
    assert forall|k: int| 0 <= k < out.len() implies spec_is_annotated(&#[trigger] out[k]) && out[k].id
        != BLACKLISTED_ID by {
        assert(trimmed_entry(entries[kept[k]], out[k]));
        assert(keep(kept[k]));
        crate::dictionary::law_trim_keeps_levels(entries[kept[k]], out[k]);
    }
}

/// Texts without `h` count no `h`.
proof fn lemma_occurrences_none(texts: Seq<Seq<char>>, h: Seq<char>)
    requires
        forall|j: int| 0 <= j < texts.len() ==> texts[j] != h,
    ensures
        occurrences(texts, h) == 0,
    decreases texts.len(),
{
    if texts.len() > 0 {
        lemma_occurrences_none(texts.drop_last(), h);
    }
}

/// Texts with `h` at `r` alone count one `h`.
proof fn lemma_occurrences_one(texts: Seq<Seq<char>>, h: Seq<char>, r: int)
    requires
        0 <= r < texts.len(),
        texts[r] == h,
        forall|j: int| 0 <= j < texts.len() && j != r ==> texts[j] != h,
    ensures
        occurrences(texts, h) == 1,
    decreases texts.len(),
{
    let d = texts.drop_last();
    if r == texts.len() - 1 {
        lemma_occurrences_none(d, h);
    } else {
        lemma_occurrences_one(d, h, r);
    }
}

/// No entry with a reading `h` means no hit.
proof fn lemma_hits_none(rt: Seq<Seq<Seq<char>>>, h: Seq<char>)
    requires
        forall|i: int| 0 <= i < rt.len() ==> occurrences(#[trigger] rt[i], h) == 0,
    ensures
        hits(rt, h) == Seq::<usize>::empty(),
    decreases rt.len(),
{
    if rt.len() > 0 {
        let d = rt.drop_last();
        assert forall|i: int| 0 <= i < d.len() implies occurrences(#[trigger] d[i], h) == 0 by {
            assert(d[i] == rt[i]);
        }
        lemma_hits_none(d, h);
        assert(occurrences(rt[rt.len() - 1], h) == 0);
        assert(hits(rt, h) =~= Seq::<usize>::empty());
    }
}

/// One reading `h` in entry `t` and none elsewhere means the one hit `t`.
proof fn lemma_hits_single(rt: Seq<Seq<Seq<char>>>, h: Seq<char>, t: int)
    requires
        0 <= t < rt.len(),
        occurrences(rt[t], h) == 1,
        forall|i: int| 0 <= i < rt.len() && i != t ==> occurrences(#[trigger] rt[i], h) == 0,
    ensures
        hits(rt, h) == seq![t as usize],
    decreases rt.len(),
{
    let d = rt.drop_last();
    let n = rt.len() - 1;
    if t == n {
        assert forall|i: int| 0 <= i < d.len() implies occurrences(#[trigger] d[i], h) == 0 by {
            assert(d[i] == rt[i]);
        }
        lemma_hits_none(d, h);
        assert(hits(rt, h) =~= seq![t as usize]);
    } else {
        assert forall|i: int| 0 <= i < d.len() && i != t implies occurrences(#[trigger] d[i], h) == 0 by {
            assert(d[i] == rt[i]);
        }
        assert(d[t] == rt[t]);
        lemma_hits_single(d, h, t);
        assert(occurrences(rt[n], h) == 0);
        assert(hits(rt, h) =~= seq![t as usize]);
    }
}

/// A word whose hiragana is the reading of exactly one entry, once, names
/// that entry, whatever its kanji field says: annotating with it adds its
/// level to that entry and leaves every other entry as it was.
pub proof fn law_unique_reading_is_annotated(entries: Seq<DictEntry>, word: JlptEntry, t: int, r: int, after: Seq<DictEntry>)
    requires
        entries.len() <= usize::MAX,
        0 <= t < entries.len(),
        0 <= r < entries[t].readings@.len(),
        entries[t].readings@[r].text@ == word.hiragana@,
        forall|j: int|
            0 <= j < entries[t].readings@.len() && j != r ==> (#[trigger] entries[t].readings@[j]).text@
                != word.hiragana@,
        forall|i: int, j: int|
            0 <= i < entries.len() && i != t && 0 <= j < entries[i].readings@.len() ==> (
            #[trigger] entries[i].readings@[j]).text@ != word.hiragana@,
        annotated_step(entries, after, word),
    ensures
        word_target(entries, word) == Some(t as usize),
        after.len() == entries.len(),
        level_added(entries[t], after[t], word.hiragana@, word.level),
        forall|i: int| 0 <= i < entries.len() && i != t ==> #[trigger] after[i] == entries[i],
{
    let rt = reading_texts(entries);
    let h = word.hiragana@;
    assert forall|i: int| 0 <= i < rt.len() && i != t implies occurrences(#[trigger] rt[i], h) == 0 by {
        let texts = rt[i];
        assert(texts == entries[i].readings@.map_values(|x: Reading| x.text@));
        assert forall|j: int| 0 <= j < texts.len() implies texts[j] != h by {
            assert(texts[j] == entries[i].readings@[j].text@);
        }
        lemma_occurrences_none(texts, h);
    }
    let tt = rt[t];
    assert(tt == entries[t].readings@.map_values(|x: Reading| x.text@));
    assert forall|j: int| 0 <= j < tt.len() && j != r implies tt[j] != h by {
        assert(tt[j] == entries[t].readings@[j].text@);
    }
    lemma_occurrences_one(tt, h, r);
    lemma_hits_single(rt, h, t);
    assert(word_target(entries, word) == Some(t as usize));
    assert((t as usize) as int == t);
}

/// A run of `i`s keeps none of them when `p` fails on `i`, and all of them
/// when it holds.
proof fn lemma_filter_run(n: nat, i: usize, p: spec_fn(usize) -> bool)
    ensures
        !p(i) ==> Seq::new(n, |k: int| i).filter(p) == Seq::<usize>::empty(),
        p(i) ==> Seq::new(n, |k: int| i).filter(p) == Seq::new(n, |k: int| i),
    decreases n,
{
    reveal_with_fuel(Seq::filter, 1);
    if n > 0 {
        lemma_filter_run((n - 1) as nat, i, p);
        assert(Seq::new(n, |k: int| i).drop_last() =~= Seq::new((n - 1) as nat, |k: int| i));
        if p(i) {
            assert(Seq::new((n - 1) as nat, |k: int| i).push(i) =~= Seq::new(n, |k: int| i));
        }
    } else {
        assert(Seq::new(n, |k: int| i) =~= Seq::<usize>::empty());
    }
}

/// Of the hits of `h`, `p` keeps entry `t` alone, once, when `t` has one
/// reading `h` and `p` holds of it, and `p` fails on every other entry
/// with a reading `h`.
proof fn lemma_hits_filter_single(rt: Seq<Seq<Seq<char>>>, h: Seq<char>, t: int, p: spec_fn(usize) -> bool)
    requires
        rt.len() <= usize::MAX,
        0 <= t < rt.len(),
        occurrences(rt[t], h) == 1,
        p(t as usize),
        forall|i: int| 0 <= i < rt.len() && i != t && occurrences(#[trigger] rt[i], h) > 0 ==> !p(i as usize),
    ensures
        hits(rt, h).filter(p) == seq![t as usize],
    decreases rt.len(),
{
    broadcast use Seq::filter_distributes_over_add;

    let d = rt.drop_last();
    let n = rt.len() - 1;
    let last = Seq::new(occurrences(rt[n], h), |k: int| n as usize);
    assert(hits(rt, h) == hits(d, h) + last);
    if t == n {
        assert forall|i: int| 0 <= i < d.len() && occurrences(#[trigger] d[i], h) > 0 implies !p(i as usize) by {
            assert(d[i] == rt[i]);
        }
        lemma_hits_filter_none(d, h, p);
        lemma_filter_run(1, n as usize, p);
        assert(Seq::new(1, |k: int| n as usize) =~= seq![t as usize]);
        assert(hits(rt, h).filter(p) =~= seq![t as usize]);
    } else {
        assert forall|i: int| 0 <= i < d.len() && i != t && occurrences(#[trigger] d[i], h) > 0 implies !p(i as usize) by {
            assert(d[i] == rt[i]);
        }
        assert(d[t] == rt[t]);
        lemma_hits_filter_single(d, h, t, p);
        if occurrences(rt[n], h) > 0 {
            assert(!p(n as usize));
        }
        lemma_filter_run(occurrences(rt[n], h), n as usize, p);
        if occurrences(rt[n], h) == 0 {
            assert(last =~= Seq::<usize>::empty());
        }
        assert(hits(rt, h).filter(p) =~= seq![t as usize]);
    }
}

/// `p` keeps none of the hits of `h` when it fails on every entry with a
/// reading `h`.
proof fn lemma_hits_filter_none(rt: Seq<Seq<Seq<char>>>, h: Seq<char>, p: spec_fn(usize) -> bool)
    requires
        rt.len() <= usize::MAX,
        forall|i: int| 0 <= i < rt.len() && occurrences(#[trigger] rt[i], h) > 0 ==> !p(i as usize),
    ensures
        hits(rt, h).filter(p) == Seq::<usize>::empty(),
    decreases rt.len(),
{
    broadcast use Seq::filter_distributes_over_add;

    reveal_with_fuel(Seq::filter, 1);
    if rt.len() > 0 {
        let d = rt.drop_last();
        let n = rt.len() - 1;
        assert forall|i: int| 0 <= i < d.len() && occurrences(#[trigger] d[i], h) > 0 implies !p(i as usize) by {
            assert(d[i] == rt[i]);
        }
        lemma_hits_filter_none(d, h, p);
        lemma_filter_run(occurrences(rt[n], h), n as usize, p);
        if occurrences(rt[n], h) == 0 {
            assert(Seq::new(occurrences(rt[n], h), |k: int| n as usize) =~= Seq::<usize>::empty());
        }
        assert(hits(rt, h).filter(p) =~= Seq::<usize>::empty());
    }
}

/// Whether entry `e` has a kanji written `k` (for a word with kanji `k`),
/// or no kanji at all (for a word without kanji).
pub open spec fn fits_kanji(e: DictEntry, kanji: Option<Seq<char>>) -> bool {
    match kanji {
        Some(k) => exists|j: int| 0 <= j < e.kanjis@.len() && (#[trigger] e.kanjis@[j]).text@ == k,
        None => e.kanjis@.len() == 0,
    }
}

/// Among several entries with the word's hiragana, the word names the one
/// that has its kanji (for a word without kanji, the one that has no
/// kanji), when exactly one does and has the hiragana once: annotating adds
/// the word's level to that entry and leaves the others as they were.
pub proof fn law_kanji_picks_the_entry(entries: Seq<DictEntry>, word: JlptEntry, t: int, r: int, after: Seq<DictEntry>)
    requires
        entries.len() <= usize::MAX,
        0 <= t < entries.len(),
        0 <= r < entries[t].readings@.len(),
        entries[t].readings@[r].text@ == word.hiragana@,
        forall|j: int|
            0 <= j < entries[t].readings@.len() && j != r ==> (#[trigger] entries[t].readings@[j]).text@
                != word.hiragana@,
        fits_kanji(entries[t], word_kanji(word)),
        forall|i: int, j: int|
            0 <= i < entries.len() && i != t && 0 <= j < entries[i].readings@.len() && (
            #[trigger] entries[i].readings@[j]).text@ == word.hiragana@ ==> !fits_kanji(
                entries[i],
                word_kanji(word),
            ),
        annotated_step(entries, after, word),
    ensures
        word_target(entries, word) == Some(t as usize),
        after.len() == entries.len(),
        level_added(entries[t], after[t], word.hiragana@, word.level),
        forall|i: int| 0 <= i < entries.len() && i != t ==> #[trigger] after[i] == entries[i],
{
    let rt = reading_texts(entries);
    let kt = kanji_texts(entries);
    let h = word.hiragana@;
    let kanji = word_kanji(word);
    let p = kanji_filter(kt, kanji);
    assert forall|i: int| 0 <= i < entries.len() implies #[trigger] p(i as usize) == fits_kanji(entries[i], kanji) by {
        let texts = kt[i];
        assert(texts == entries[i].kanjis@.map_values(|x: Kanji| x.text@));
        assert((i as usize) as int == i);
        match kanji {
            Some(k) => {
                if texts.contains(k) {
                    let j = choose|j: int| 0 <= j < texts.len() && texts[j] == k;
                    assert(entries[i].kanjis@[j].text@ == k);
                }
                if fits_kanji(entries[i], kanji) {
                    let j = choose|j: int| 0 <= j < entries[i].kanjis@.len() && (#[trigger] entries[i].kanjis@[j]).text@ == k;
                    assert(texts[j] == k);
                }
            },
            None => {},
        }
    }
    assert forall|i: int| 0 <= i < rt.len() && i != t && occurrences(#[trigger] rt[i], h) > 0 implies !p(i as usize) by {
        let texts = rt[i];
        assert(texts == entries[i].readings@.map_values(|x: Reading| x.text@));
        if forall|j: int| 0 <= j < texts.len() ==> texts[j] != h {
            lemma_occurrences_none(texts, h);
        }
        let j = choose|j: int| 0 <= j < texts.len() && texts[j] == h;
        assert(entries[i].readings@[j].text@ == h);
    }
    let tt = rt[t];
    assert(tt == entries[t].readings@.map_values(|x: Reading| x.text@));
    assert forall|j: int| 0 <= j < tt.len() && j != r implies tt[j] != h by {
        assert(tt[j] == entries[t].readings@[j].text@);
    }
    lemma_occurrences_one(tt, h, r);
    lemma_hits_filter_single(rt, h, t, p);
    let m = hits(rt, h);
    if m.len() == 1 {
        assert(m.filter(p).len() == 1);
        lemma_hits_bounded(rt, h);
        reveal_with_fuel(Seq::filter, 2);
        assert(m =~= seq![m[0]]);
        assert(seq![m[0]].drop_last() =~= Seq::<usize>::empty());
        if !p(m[0]) {
            assert(m.filter(p) =~= Seq::<usize>::empty());
        }
        assert(m.filter(p) =~= seq![m[0]]);
        assert(m[0] == t as usize);
    }
    assert(word_target(entries, word) == Some(t as usize));
    assert((t as usize) as int == t);
}

/// Of the eligible entries with `id` from `i` on, some one is the last.
proof fn lemma_last_of_id(entries: Seq<DictEntry>, i: int, id: u32)
    requires
        0 <= i < entries.len(),
        eligible(entries[i]),
        entries[i].id == id,
    ensures
        exists|j: int|
            i <= j < entries.len() && eligible(entries[j]) && entries[j].id == id && forall|k: int|
                j < k < entries.len() ==> !(eligible(#[trigger] entries[k]) && entries[k].id == id),
    decreases entries.len() - i,
{
    if exists|k: int| i < k < entries.len() && eligible(#[trigger] entries[k]) && entries[k].id == id {
        let k = choose|k: int| i < k < entries.len() && eligible(#[trigger] entries[k]) && entries[k].id == id;
        lemma_last_of_id(entries, k, id);
    } else {
        assert(i <= i < entries.len() && eligible(entries[i]) && entries[i].id == id && forall|k: int|
            i < k < entries.len() ==> !(eligible(#[trigger] entries[k]) && entries[k].id == id));
    }
}

/// Every id of an eligible entry (one with a reading and a level, and not
/// blacklisted) is written out: as the trimmed last eligible entry with
/// that id.
pub proof fn law_every_eligible_id_written(entries: Seq<DictEntry>, out: Seq<DictEntry>, i: int)
    requires
        out.len() == kept_indices(entries).len(),
        forall|k: int|
            0 <= k < out.len() ==> trimmed_entry(entries[kept_indices(entries)[k]], #[trigger] out[k]),
        0 <= i < entries.len(),
        entries[i].readings@.len() > 0,
        spec_is_annotated(&entries[i]),
        entries[i].id != BLACKLISTED_ID,
    ensures
        exists|k: int, j: int|
            0 <= k < out.len() && i <= j < entries.len() && out[k].id == entries[i].id
                && trimmed_entry(entries[j], out[k]) && forall|l: int|
                j < l < entries.len() ==> (#[trigger] entries[l]).id != entries[i].id || entries[l].readings@.len() == 0
                    || !spec_is_annotated(&entries[l]) || entries[l].id == BLACKLISTED_ID,
{
    let id = entries[i].id;
    lemma_last_of_id(entries, i, id);
    let j = choose|j: int|
        i <= j < entries.len() && eligible(entries[j]) && entries[j].id == id && forall|k: int|
            j < k < entries.len() ==> !(eligible(#[trigger] entries[k]) && entries[k].id == id);
    let idx = Seq::new(entries.len(), |x: int| x);
    let keep = keeps(entries);
    assert(keep(j));
    assert(idx[j] == j);
    idx.lemma_filter_contains(keep, j);
    let kept = kept_indices(entries);
    let k = choose|k: int| 0 <= k < kept.len() && kept[k] == j;
    assert(trimmed_entry(entries[j], out[k]));
    assert forall|l: int|
        j < l < entries.len() implies (#[trigger] entries[l]).id != entries[i].id || entries[l].readings@.len() == 0
            || !spec_is_annotated(&entries[l]) || entries[l].id == BLACKLISTED_ID by {
        assert(!(eligible(entries[l]) && entries[l].id == id));
    }
}

} // verus!
