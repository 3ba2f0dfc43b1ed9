//! Transitivity verb pairs: an intransitive verb and its transitive
//! counterpart, found in the dictionary through their kanji spellings, with
//! nouns and subjects that fit each verb in a prompt.

use std::sync::Arc;

use vstd::laws_eq::obeys_view_eq;
use vstd::prelude::*;
use vstd::std_specs::cmp::PartialEqSpecImpl;

use crate::catalog::{share, Dictionary};
use crate::dictionary::{has_pos, DictEntry, Kanji, Pos};
use crate::text::{chars_of, pieces, split_on, substring, trim, trimmed, views};
use crate::util::IndexMap;

verus! {

/// The kanji spellings of an intransitive verb and its transitive
/// counterpart: the key the context pools are stored under.
#[derive(Debug, Clone)]
pub struct VerbKey {
    pub intrans: String,
    pub trans: String,
}

impl View for VerbKey {
    type V = (Seq<char>, Seq<char>);

    open spec fn view(&self) -> (Seq<char>, Seq<char>) {
        (self.intrans@, self.trans@)
    }
}

impl PartialEq for VerbKey {
    fn eq(&self, other: &Self) -> (same: bool) {
        self.intrans == other.intrans && self.trans == other.trans
    }
}

impl PartialEqSpecImpl for VerbKey {
    open spec fn obeys_eq_spec() -> bool {
        true
    }

    open spec fn eq_spec(&self, other: &VerbKey) -> bool {
        self@ == other@
    }
}

/// Keys are equal exactly when their spellings are.
pub proof fn lemma_verb_key_obeys_view_eq()
    ensures
        obeys_view_eq::<VerbKey>(),
{
    reveal(obeys_view_eq);
}

/// An intransitive suffix that is commonly interchanged with a transitive
/// suffix.
#[derive(Debug, Clone)]
pub struct TSuffix {
    pub intrans: String,
    pub trans: String,
}

/// Nouns that fit an intransitive verb.
#[derive(Debug, Clone)]
pub struct IntransPool {
    pub intrans_nouns: Vec<String>,
}

/// Nouns and subjects that fit a transitive verb.
#[derive(Debug, Clone)]
pub struct TransPool {
    pub trans_nouns: Vec<String>,
    pub trans_subjects: Vec<String>,
}

/// One row of the context pools table.
#[derive(Debug, Clone)]
pub struct ContextPoolRecord {
    pub intrans: String,
    pub trans: String,
    pub intrans_nouns: Vec<String>,
    pub trans_nouns: Vec<String>,
    pub trans_subjects: Vec<String>,
}

/// The comma-separated items of `s`, each trimmed of whitespace.
pub open spec fn spec_string_to_vec(s: Seq<char>) -> Seq<Seq<char>> {
    pieces(s, ',').map_values(|p: Seq<char>| trimmed(p))
}

/// Splits `s` on commas and trims each item of whitespace. There is always
/// at least one item.
pub fn string_to_vec(s: &str) -> (items: Vec<String>)
    ensures
        views(items@) == spec_string_to_vec(s@),
        items@.len() >= 1,
{
    let parts = split_on(s, ',');
    proof {
        crate::text::lemma_pieces_len(s@, ',');
    }
    let mut items: Vec<String> = Vec::new();
    let mut i: usize = 0;
    while i < parts.len()
        invariant
            views(parts@) == pieces(s@, ','),
            i <= parts@.len(),
            views(items@) == views(parts@).take(i as int).map_values(|p: Seq<char>| trimmed(p)),
        decreases parts@.len() - i,
    {
        let item = trim(parts[i].as_str());
        let ghost prev = items@;
        items.push(item);
        proof {
            assert(views(items@) =~= views(prev).push(trimmed(parts@[i as int]@)));
            assert(views(parts@).take(i + 1) =~= views(parts@).take(i as int).push(parts@[i as int]@));
            assert(views(items@) =~= views(parts@).take(i + 1).map_values(|p: Seq<char>| trimmed(p)));
        }
        i = i + 1;
    }
    proof {
        assert(views(parts@).take(parts@.len() as int) =~= views(parts@));
    }
    items
}

/// Whether some sense of `entry` is tagged with `tag`.
pub open spec fn tagged(entry: DictEntry, tag: Pos) -> bool {
    exists|s: int| 0 <= s < entry.senses@.len() && (#[trigger] entry.senses@[s]).pos@.contains(tag)
}

/// An entry that is an intransitive verb and not a transitive one.
pub open spec fn only_intrans(e: Arc<DictEntry>) -> bool {
    tagged(*e, Pos::Vi) && !tagged(*e, Pos::Vt)
}

/// An entry that is a transitive verb and not an intransitive one.
pub open spec fn only_trans(e: Arc<DictEntry>) -> bool {
    tagged(*e, Pos::Vt) && !tagged(*e, Pos::Vi)
}

/// Whether some sense of `entry` is tagged with `tag`.
fn is_tagged(entry: &DictEntry, tag: Pos) -> (found: bool)
    ensures
        found == tagged(*entry, tag),
{
    let mut s: usize = 0;
    while s < entry.senses.len()
        invariant
            s <= entry.senses@.len(),
            forall|j: int| 0 <= j < s ==> !(#[trigger] entry.senses@[j]).pos@.contains(tag),
        decreases entry.senses@.len() - s,
    {
        if has_pos(&entry.senses[s].pos, tag) {
            return true;
        }
        s = s + 1;
    }
    false
}

/// Gets all entries tagged with [`Pos::Vi`] and not with [`Pos::Vt`], and
/// all entries tagged with [`Pos::Vt`] and not with [`Pos::Vi`].
fn tverbs(dictionary: &Dictionary) -> (split: (Vec<Arc<DictEntry>>, Vec<Arc<DictEntry>>))
    ensures
        split.0@ == dictionary.entries@.filter(|e: Arc<DictEntry>| only_intrans(e)),
        split.1@ == dictionary.entries@.filter(|e: Arc<DictEntry>| only_trans(e)),
{
    let ghost all = dictionary.entries@;
    let ghost pi = |e: Arc<DictEntry>| only_intrans(e);
    let ghost pt = |e: Arc<DictEntry>| only_trans(e);
    let mut intrans: Vec<Arc<DictEntry>> = Vec::new();
    let mut trans: Vec<Arc<DictEntry>> = Vec::new();
    let mut i: usize = 0;
    proof {
        reveal_with_fuel(Seq::filter, 1);
        assert(all.take(0).filter(pi) =~= Seq::<Arc<DictEntry>>::empty());
        assert(all.take(0).filter(pt) =~= Seq::<Arc<DictEntry>>::empty());
    }
    while i < dictionary.entries.len()
        invariant
            all == dictionary.entries@,
            pi == (|e: Arc<DictEntry>| only_intrans(e)),
            pt == (|e: Arc<DictEntry>| only_trans(e)),
            i <= all.len(),
            intrans@ == all.take(i as int).filter(pi),
            trans@ == all.take(i as int).filter(pt),
        decreases all.len() - i,
    {
        let entry = &dictionary.entries[i];
        let vi = is_tagged(entry, Pos::Vi);
        let vt = is_tagged(entry, Pos::Vt);
        proof {
            assert(all.take(i + 1) =~= all.take(i as int).push(all[i as int]));
            all.take(i as int).lemma_filter_push(all[i as int], pi);
            all.take(i as int).lemma_filter_push(all[i as int], pt);
        }
        if vi && !vt {
            intrans.push(share(entry));
        } else if vt && !vi {
            trans.push(share(entry));
        }
        i = i + 1;
    }
    proof {
        assert(all.take(all.len() as int) =~= all);
    }
    (intrans, trans)
}

/// Whether `w` ends with `suf`.
pub open spec fn ends_with(w: Seq<char>, suf: Seq<char>) -> bool {
    suf.len() <= w.len() && w.skip(w.len() - suf.len()) == suf
}

/// For each suffix of `sufs` that `word` ends with, in order, `word` and
/// `word` with that suffix swapped for its transitive counterpart.
pub open spec fn suffix_swaps(word: Seq<char>, sufs: Seq<TSuffix>) -> Seq<(Seq<char>, Seq<char>)>
    decreases sufs.len(),
{
    if sufs.len() == 0 {
        Seq::empty()
    } else {
        let rest = suffix_swaps(word, sufs.drop_last());
        let t = sufs.last();
        if ends_with(word, t.intrans@) {
            rest.push((word, word.take(word.len() - t.intrans@.len()) + t.trans@))
        } else {
            rest
        }
    }
}

/// The suffix swaps of each kanji spelling of `kanjis`, spelling by spelling.
pub open spec fn possible_pairs(kanjis: Seq<Kanji>, sufs: Seq<TSuffix>) -> Seq<(Seq<char>, Seq<char>)>
    decreases kanjis.len(),
{
    if kanjis.len() == 0 {
        Seq::empty()
    } else {
        possible_pairs(kanjis.drop_last(), sufs) + suffix_swaps(kanjis.last().text@, sufs)
    }
}

/// The characters of each pair of strings.
pub open spec fn pair_views(pairs: Seq<(String, String)>) -> Seq<(Seq<char>, Seq<char>)> {
    pairs.map_values(|p: (String, String)| (p.0@, p.1@))
}

/// `word` without its suffix `suf`, if it ends with it.
fn strip_suffix(word: &str, suf: &str) -> (root: Option<String>)
    ensures
        ends_with(word@, suf@) <==> root is Some,
        root matches Some(r) ==> r@ == word@.take(word@.len() - suf@.len()),
{
    let w = chars_of(word);
    let t = chars_of(suf);
    if t.len() > w.len() {
        return None;
    }
    let start = w.len() - t.len();
    let mut i: usize = 0;
    while i < t.len()
        invariant
            w@ == word@,
            t@ == suf@,
            start == w@.len() - t@.len(),
            start + t.len() == w.len(),
            i <= t@.len(),
            forall|j: int| 0 <= j < i ==> w@[start + j] == t@[j],
        decreases t@.len() - i,
    {
        if w[start + i] != t[i] {
            assert(word@.skip(start as int)[i as int] != suf@[i as int]);
            return None;
        }
        i = i + 1;
    }
    assert(word@.skip(start as int) =~= suf@);
    Some(substring(word, 0, start))
}

/// Creates (intransitive, possible transitive) pairings. Each intransitive
/// verb in kanji in the given entry has its intransitive suffix replaced
/// by a possible transitive suffix.
fn intrans_possible_pairs(intrans: &DictEntry, suffixes: &[TSuffix]) -> (pairs: Vec<(String, String)>)
    ensures
        pair_views(pairs@) == possible_pairs(intrans.kanjis@, suffixes@),
{
    let mut pairs: Vec<(String, String)> = Vec::new();
    let mut k: usize = 0;
    while k < intrans.kanjis.len()
        invariant
            k <= intrans.kanjis@.len(),
            pair_views(pairs@) == possible_pairs(intrans.kanjis@.take(k as int), suffixes@),
        decreases intrans.kanjis@.len() - k,
    {
        let word = &intrans.kanjis[k].text;
        let ghost base = pair_views(pairs@);
        let mut j: usize = 0;
        proof {
            assert(suffixes@.take(0) =~= Seq::<TSuffix>::empty());
            assert(base + suffix_swaps(word@, suffixes@.take(0)) =~= base);
        }
        while j < suffixes.len()
            invariant
                k < intrans.kanjis@.len(),
                *word == intrans.kanjis@[k as int].text,
                j <= suffixes@.len(),
                base == possible_pairs(intrans.kanjis@.take(k as int), suffixes@),
                pair_views(pairs@) == base + suffix_swaps(word@, suffixes@.take(j as int)),
            decreases suffixes@.len() - j,
        {
            let suffix = &suffixes[j];
            proof {
                assert(suffixes@.take(j + 1).drop_last() =~= suffixes@.take(j as int));
            }
            match strip_suffix(word.as_str(), suffix.intrans.as_str()) {
                Some(root) => {
                    let mut possible_trans = root;
                    possible_trans.append(suffix.trans.as_str());
                    let ghost prev = pairs@;
                    let ghost item = (word@, possible_trans@);
                    pairs.push((word.clone(), possible_trans));
                    proof {
                        assert(pair_views(pairs@) =~= pair_views(prev).push(item));
                        assert(pair_views(pairs@) =~= base + suffix_swaps(word@, suffixes@.take(j + 1)));
                    }
                },
                None => {
                    assert(pair_views(pairs@) =~= base + suffix_swaps(word@, suffixes@.take(j + 1)));
                },
            }
            j = j + 1;
        }
        proof {
            assert(suffixes@.take(suffixes@.len() as int) =~= suffixes@);
            assert(intrans.kanjis@.take(k + 1).drop_last() =~= intrans.kanjis@.take(k as int));
        }
        k = k + 1;
    }
    proof {
        assert(intrans.kanjis@.take(intrans.kanjis@.len() as int) =~= intrans.kanjis@);
    }
    pairs
}

/// What a pair holds: the intransitive spelling and entry, then the
/// transitive spelling and entry.
pub type PairView = (Seq<char>, Arc<DictEntry>, Seq<char>, Arc<DictEntry>);

/// Contains an intransitive verb and its transitive counterpart.
#[derive(Debug)]
pub struct TVerbPair {
    /// The intransitive verb in kanji and its entry.
    intrans: (String, Arc<DictEntry>),
    /// The transitive verb in kanji and its entry.
    trans: (String, Arc<DictEntry>),
}

impl View for TVerbPair {
    type V = PairView;

    closed spec fn view(&self) -> PairView {
        (self.intrans.0@, self.intrans.1, self.trans.0@, self.trans.1)
    }
}

impl TVerbPair {
    /// The intransitive verb in kanji.
    pub fn intrans_kanji(&self) -> (k: &str)
        ensures
            k@ == self@.0,
    {
        self.intrans.0.as_str()
    }

    /// The transitive verb in kanji.
    pub fn trans_kanji(&self) -> (k: &str)
        ensures
            k@ == self@.2,
    {
        self.trans.0.as_str()
    }

    /// The dictionary entry of the intransitive verb.
    pub fn intrans_entry(&self) -> (e: &Arc<DictEntry>)
        ensures
            *e == self@.1,
    {
        &self.intrans.1
    }

    /// The dictionary entry of the transitive verb.
    pub fn trans_entry(&self) -> (e: &Arc<DictEntry>)
        ensures
            *e == self@.3,
    {
        &self.trans.1
    }
}

/// The views of a sequence of pairs.
pub open spec fn pair_seq(pairs: Seq<TVerbPair>) -> Seq<PairView> {
    pairs.map_values(|p: TVerbPair| p@)
}

/// Whether some kanji spelling of `entry` is `word`.
pub open spec fn spelled(entry: DictEntry, word: Seq<char>) -> bool {
    exists|k: int| 0 <= k < entry.kanjis@.len() && (#[trigger] entry.kanjis@[k]).text@ == word
}

/// Whether an entry is spelled `word`.
pub open spec fn spelled_as(word: Seq<char>) -> spec_fn(Arc<DictEntry>) -> bool {
    |t: Arc<DictEntry>| spelled(*t, word)
}

/// The pair that `words` makes with a transitive entry.
pub open spec fn pair_with(intrans: Arc<DictEntry>, words: (Seq<char>, Seq<char>)) -> spec_fn(Arc<DictEntry>) -> PairView {
    |t: Arc<DictEntry>| (words.0, intrans, words.1, t)
}

/// Every pair that the possible pairings `words` of `intrans` make with the
/// transitive entries `trans` that are spelled as the transitive word:
/// pairing by pairing, and entry by entry within one pairing.
pub open spec fn candidates(intrans: Arc<DictEntry>, words: Seq<(Seq<char>, Seq<char>)>, trans: Seq<Arc<DictEntry>>) -> Seq<PairView>
    decreases words.len(),
{
    if words.len() == 0 {
        Seq::empty()
    } else {
        candidates(intrans, words.drop_last(), trans) + trans.filter(spelled_as(words.last().1)).map_values(
            pair_with(intrans, words.last()),
        )
    }
}

/// The first of `c` when every pair of `c` has the same transitive entry,
/// and nothing when `c` is empty or ambiguous.
pub open spec fn unambiguous(c: Seq<PairView>) -> Option<PairView> {
    if c.len() > 0 && forall|i: int| 0 <= i < c.len() ==> (#[trigger] c[i]).3.id == c[0].3.id {
        Some(c[0])
    } else {
        None
    }
}

/// The pair made for one intransitive entry.
pub open spec fn pair_for(trans: Seq<Arc<DictEntry>>, sufs: Seq<TSuffix>) -> spec_fn(Arc<DictEntry>) -> Option<PairView> {
    |e: Arc<DictEntry>| unambiguous(candidates(e, possible_pairs(e.kanjis@, sufs), trans))
}

/// The transitivity pairs of a dictionary: one for each intransitive-only
/// entry, in dictionary order, whose possible pairings find transitive-only
/// entries that all are the same entry.
pub open spec fn spec_tverb_pairs(entries: Seq<Arc<DictEntry>>, sufs: Seq<TSuffix>) -> Seq<PairView> {
    entries.filter(|e: Arc<DictEntry>| only_intrans(e)).filter_map(
        pair_for(entries.filter(|e: Arc<DictEntry>| only_trans(e)), sufs),
    )
}

/// Whether some kanji spelling of `entry` is `word`.
fn is_spelled(entry: &DictEntry, word: &String) -> (found: bool)
    ensures
        found == spelled(*entry, word@),
{
    let mut k: usize = 0;
    while k < entry.kanjis.len()
        invariant
            k <= entry.kanjis@.len(),
            forall|j: int| 0 <= j < k ==> (#[trigger] entry.kanjis@[j]).text@ != word@,
        decreases entry.kanjis@.len() - k,
    {
        if entry.kanjis[k].text == *word {
            return true;
        }
        k = k + 1;
    }
    false
}

/// All pairs that the possible pairings `words` of `intrans` make with the
/// entries of `trans`.
fn candidates_of(intrans: &Arc<DictEntry>, words: &Vec<(String, String)>, trans: &Vec<Arc<DictEntry>>) -> (c: Vec<TVerbPair>)
    ensures
        pair_seq(c@) == candidates(*intrans, pair_views(words@), trans@),
{
    let ghost ws = pair_views(words@);
    let mut c: Vec<TVerbPair> = Vec::new();
    let mut w: usize = 0;
    while w < words.len()
        invariant
            ws == pair_views(words@),
            w <= words@.len(),
            pair_seq(c@) == candidates(*intrans, ws.take(w as int), trans@),
        decreases words@.len() - w,
    {
        let ghost base = pair_seq(c@);
        let ghost wv = ws[w as int];
        let ghost p = spelled_as(wv.1);
        let ghost f = pair_with(*intrans, wv);
        let mut t: usize = 0;
        proof {
            reveal_with_fuel(Seq::filter, 1);
            assert(trans@.take(0).filter(p) =~= Seq::<Arc<DictEntry>>::empty());
            assert(base + trans@.take(0).filter(p).map_values(f) =~= base);
        }
        while t < trans.len()
            invariant
                ws == pair_views(words@),
                w < words@.len(),
                wv == ws[w as int],
                wv == (words@[w as int].0@, words@[w as int].1@),
                p == spelled_as(wv.1),
                f == pair_with(*intrans, wv),
                t <= trans@.len(),
                base == candidates(*intrans, ws.take(w as int), trans@),
                pair_seq(c@) == base + trans@.take(t as int).filter(p).map_values(f),
            decreases trans@.len() - t,
        {
            let entry = &trans[t];
            proof {
                assert(trans@.take(t + 1) =~= trans@.take(t as int).push(trans@[t as int]));
                trans@.take(t as int).lemma_filter_push(trans@[t as int], p);
            }
            if is_spelled(entry, &words[w].1) {
                let ghost prev = c@;
                let pair = TVerbPair {
                    intrans: (words[w].0.clone(), share(intrans)),
                    trans: (words[w].1.clone(), share(entry)),
                };
                c.push(pair);
                proof {
                    let fl = trans@.take(t as int).filter(p);
                    assert(fl.push(trans@[t as int]).map_values(f) =~= fl.map_values(f).push(f(trans@[t as int])));
                    assert(pair_seq(c@) =~= pair_seq(prev).push(pair@));
                }
            }
            t = t + 1;
        }
        proof {
            assert(trans@.take(trans@.len() as int) =~= trans@);
            assert(ws.take(w + 1).drop_last() =~= ws.take(w as int));
            assert(ws.take(w + 1).last() == wv);
        }
        w = w + 1;
    }
    proof {
        assert(ws.take(words@.len() as int) =~= ws);
    }
    c
}

/// The first candidate when all candidates pair with the same transitive
/// entry; nothing when there is none or the match is ambiguous.
fn pick_unambiguous(c: Vec<TVerbPair>) -> (picked: Option<TVerbPair>)
    ensures
        match picked {
            Some(p) => unambiguous(pair_seq(c@)) == Some(p@),
            None => unambiguous(pair_seq(c@)) is None,
        },
{
    if c.len() == 0 {
        return None;
    }
    let id = c[0].trans.1.id;
    let mut i: usize = 1;
    while i < c.len()
        invariant
            0 < c@.len(),
            id == c@[0]@.3.id,
            1 <= i <= c@.len(),
            forall|j: int| 0 <= j < i ==> (#[trigger] c@[j])@.3.id == id,
        decreases c@.len() - i,
    {
        if c[i].trans.1.id != id {
            assert(pair_seq(c@)[i as int].3.id != pair_seq(c@)[0].3.id);
            return None;
        }
        i = i + 1;
    }
    assert(forall|j: int| 0 <= j < c@.len() ==> (#[trigger] pair_seq(c@)[j]).3.id == c@[j]@.3.id);
    let mut c = c;
    let first = c.swap_remove(0);
    Some(first)
}

/// Collects transitivity verb pairs from `dictionary`. Pairs are made from
/// each intransitive verb: its kanji spellings with an intransitive
/// `suffixes` ending swapped for the transitive ending must spell
/// transitive verbs, all one entry.
pub fn tverb_pairs(dictionary: &Dictionary, suffixes: &[TSuffix]) -> (pairs: Vec<TVerbPair>)
    ensures
        pair_seq(pairs@) == spec_tverb_pairs(dictionary.entries@, suffixes@),
{
    let (intrans, trans) = tverbs(dictionary);
    let ghost g = pair_for(trans@, suffixes@);
    let mut pairs: Vec<TVerbPair> = Vec::new();
    let mut i: usize = 0;
    proof {
        assert(intrans@.take(0) =~= Seq::<Arc<DictEntry>>::empty());
    }
    while i < intrans.len()
        invariant
            g == pair_for(trans@, suffixes@),
            trans@ == dictionary.entries@.filter(|e: Arc<DictEntry>| only_trans(e)),
            i <= intrans@.len(),
            pair_seq(pairs@) == intrans@.take(i as int).filter_map(g),
        decreases intrans@.len() - i,
    {
        let entry = &intrans[i];
        let words = intrans_possible_pairs(entry, suffixes);
        let c = candidates_of(entry, &words, &trans);
        let picked = pick_unambiguous(c);
        let ghost prev = pairs@;
        proof {
            let s = intrans@.take(i + 1);
            assert(s.drop_last() =~= intrans@.take(i as int));
            assert(s.last() == *entry);
        }
        match picked {
            Some(p) => {
                pairs.push(p);
                assert(pair_seq(pairs@) =~= pair_seq(prev) + seq![p@]);
            },
            None => {},
        }
        i = i + 1;
    }
    proof {
        assert(intrans@.take(intrans@.len() as int) =~= intrans@);
    }
    pairs
}

/// The pools of each pair of spellings: each record's pools under its
/// spellings, a later record replacing an earlier one with the same key.
pub open spec fn pools_of(records: Seq<ContextPoolRecord>) -> Map<(Seq<char>, Seq<char>), (IntransPool, TransPool)>
    decreases records.len(),
{
    if records.len() == 0 {
        Map::empty()
    } else {
        let r = records.last();
        pools_of(records.drop_last()).insert(
            (r.intrans@, r.trans@),
            (
                IntransPool { intrans_nouns: r.intrans_nouns },
                TransPool { trans_nouns: r.trans_nouns, trans_subjects: r.trans_subjects },
            ),
        )
    }
}

/// Gathers the context pools of `records` under their verb spellings.
fn context_pools(records: Vec<ContextPoolRecord>) -> (map: IndexMap<VerbKey, (IntransPool, TransPool)>)
    ensures
        map.wf(),
        map@ == pools_of(records@),
{
    proof {
        lemma_verb_key_obeys_view_eq();
    }
    let ghost all = records@;
    let mut map: IndexMap<VerbKey, (IntransPool, TransPool)> = IndexMap::new();
    let mut records = records;
    proof {
        assert(pools_of(all.take(0)) =~= map@);
        assert(all.skip(0) =~= all);
    }
    while records.len() > 0
        invariant
            obeys_view_eq::<VerbKey>(),
            map.wf(),
            records@.len() <= all.len(),
            records@ == all.skip(all.len() - records@.len()),
            map@ == pools_of(all.take(all.len() - records@.len())),
        decreases records@.len(),
    {
        let ghost n = all.len() - records@.len();
        let record = records.remove(0);
        proof {
            assert(record == all[n]);
            assert(all.take(n + 1).drop_last() =~= all.take(n));
            assert(records@ =~= all.skip(all.len() - records@.len()));
        }
        let ContextPoolRecord { intrans, trans, intrans_nouns, trans_nouns, trans_subjects } = record;
        let key = VerbKey { intrans, trans };
        let intrans_pool = IntransPool { intrans_nouns };
        let trans_pool = TransPool { trans_nouns, trans_subjects };
        map.insert((key, (intrans_pool, trans_pool)));
    }
    proof {
        assert(all.take(all.len() as int) =~= all);
    }
    map
}

/// A transitivity pair with nouns and subjects that fit its verbs.
#[derive(Debug)]
pub struct TVerbPooledPair {
    pair: TVerbPair,
    intrans_nouns: Vec<String>,
    trans_nouns: Vec<String>,
    trans_subjects: Vec<String>,
}

/// What a pooled pair holds: the pair, the nouns of the intransitive verb,
/// and the nouns and subjects of the transitive verb.
pub type PooledView = (PairView, Seq<String>, Seq<String>, Seq<String>);

impl View for TVerbPooledPair {
    type V = PooledView;

    closed spec fn view(&self) -> PooledView {
        (self.pair@, self.intrans_nouns@, self.trans_nouns@, self.trans_subjects@)
    }
}

impl TVerbPooledPair {
    /// The intransitive verb in kanji.
    pub fn intrans_kanji(&self) -> (k: &str)
        ensures
            k@ == self@.0.0,
    {
        self.pair.intrans_kanji()
    }

    /// The transitive verb in kanji.
    pub fn trans_kanji(&self) -> (k: &str)
        ensures
            k@ == self@.0.2,
    {
        self.pair.trans_kanji()
    }

    /// The dictionary entry of the intransitive verb.
    pub fn intrans_entry(&self) -> (e: &Arc<DictEntry>)
        ensures
            *e == self@.0.1,
    {
        self.pair.intrans_entry()
    }

    /// The dictionary entry of the transitive verb.
    pub fn trans_entry(&self) -> (e: &Arc<DictEntry>)
        ensures
            *e == self@.0.3,
    {
        self.pair.trans_entry()
    }

    /// Nouns that fit the intransitive verb.
    pub fn intrans_nouns(&self) -> (n: &[String])
        ensures
            n@ == self@.1,
    {
        self.intrans_nouns.as_slice()
    }

    /// Nouns that fit the transitive verb.
    pub fn trans_nouns(&self) -> (n: &[String])
        ensures
            n@ == self@.2,
    {
        self.trans_nouns.as_slice()
    }

    /// Subjects that fit the transitive verb.
    pub fn trans_subjects(&self) -> (s: &[String])
        ensures
            s@ == self@.3,
    {
        self.trans_subjects.as_slice()
    }
}

/// The views of a sequence of pooled pairs.
pub open spec fn pooled_seq(pairs: Seq<TVerbPooledPair>) -> Seq<PooledView> {
    pairs.map_values(|p: TVerbPooledPair| p@)
}

/// A pair with the pools stored under its spellings, if there are any.
pub open spec fn with_pools(pools: Map<(Seq<char>, Seq<char>), (IntransPool, TransPool)>) -> spec_fn(PairView) -> Option<PooledView> {
    |p: PairView|
        if pools.contains_key((p.0, p.2)) {
            let pool = pools[(p.0, p.2)];
            Some((p, pool.0.intrans_nouns@, pool.1.trans_nouns@, pool.1.trans_subjects@))
        } else {
            None
        }
}

/// The intransitive entry whose spelling is corrected by hand.
pub const AMENDED_INTRANS_ID: u32 = 1593430;

/// The transitive entry of the pair whose spelling is corrected by hand.
pub const AMENDED_TRANS_ID: u32 = 1170650;

/// Whether `p` is the pair whose intransitive spelling is corrected by hand.
pub open spec fn amended(p: PooledView) -> bool {
    p.0.1.id == AMENDED_INTRANS_ID && p.0.3.id == AMENDED_TRANS_ID
}

/// A pooled pair after the corrections made by hand: the pair of
/// [`AMENDED_INTRANS_ID`] and [`AMENDED_TRANS_ID`] is spelled 籠る.
pub open spec fn corrected(p: PooledView) -> PooledView {
    if amended(p) {
        (("籠る"@, p.0.1, p.0.2, p.0.3), p.1, p.2, p.3)
    } else {
        p
    }
}

/// The pooled pairs of a dictionary: its transitivity pairs that have
/// pools, in order, with the corrections made by hand.
pub open spec fn spec_pooled_pairs(
    entries: Seq<Arc<DictEntry>>,
    sufs: Seq<TSuffix>,
    records: Seq<ContextPoolRecord>,
) -> Seq<PooledView> {
    spec_tverb_pairs(entries, sufs).filter_map(with_pools(pools_of(records))).map_values(
        |p: PooledView| corrected(p),
    )
}

/// A copy of `strings`.
fn copy_strings(strings: &Vec<String>) -> (copy: Vec<String>)
    ensures
        copy@ == strings@,
{
    let copy = strings.clone();
    assert(copy@ =~= strings@);
    copy
}

/// Collects transitivity verb pairs from `dictionary` and annotates them
/// with nouns and subjects usable in their context. Pairs whose spellings
/// have no pool are left out.
pub fn tverb_pooled_pairs(
    dictionary: &Dictionary,
    suffixes: &[TSuffix],
    records: Vec<ContextPoolRecord>,
) -> (pooled: Vec<TVerbPooledPair>)
    ensures
        pooled_seq(pooled@) == spec_pooled_pairs(dictionary.entries@, suffixes@, records@),
{
    let pairs = tverb_pairs(dictionary, suffixes);
    let pools = context_pools(records);
    proof {
        lemma_verb_key_obeys_view_eq();
    }
    let ghost all = pair_seq(pairs@);
    let ghost h = with_pools(pools@);
    let mut res: Vec<TVerbPooledPair> = Vec::new();
    let mut pairs = pairs;
    proof {
        assert(all.take(0).filter_map(h) =~= Seq::<PooledView>::empty());
        assert(all.skip(0) =~= all);
    }
    while pairs.len() > 0
        invariant
            obeys_view_eq::<VerbKey>(),
            pools.wf(),
            h == with_pools(pools@),
            pairs@.len() <= all.len(),
            pair_seq(pairs@) == all.skip(all.len() - pairs@.len()),
            pooled_seq(res@) == all.take(all.len() - pairs@.len()).filter_map(h),
        decreases pairs@.len(),
    {
        let ghost n = all.len() - pairs@.len();
        let ghost before = pairs@;
        let pair = pairs.remove(0);
        proof {
            assert(pair_seq(before)[0] == pair@);
            assert(pair@ == all[n]);
            assert(all.take(n + 1).drop_last() =~= all.take(n));
            assert(all.take(n + 1).last() == all[n]);
            assert forall|j: int| 0 <= j < pairs@.len() implies #[trigger] pair_seq(pairs@)[j] == all.skip(
                all.len() - pairs@.len(),
            )[j] by {
                assert(pairs@[j] == before[j + 1]);
                assert(pair_seq(before)[j + 1] == all.skip(all.len() - before.len())[j + 1]);
            }
            assert(pair_seq(pairs@) =~= all.skip(all.len() - pairs@.len()));
        }
        let key = VerbKey { intrans: pair.intrans_kanji().to_string(), trans: pair.trans_kanji().to_string() };
        let ghost prev = res@;
        match pools.get(&key) {
            Some(found) => {
                let item = TVerbPooledPair {
                    pair,
                    intrans_nouns: copy_strings(&found.0.intrans_nouns),
                    trans_nouns: copy_strings(&found.1.trans_nouns),
                    trans_subjects: copy_strings(&found.1.trans_subjects),
                };
                res.push(item);
                assert(pooled_seq(res@) =~= pooled_seq(prev) + seq![item@]);
            },
            None => {},
        }
    }
    proof {
        assert(all.take(all.len() as int) =~= all);
    }
    apply_manual_changes(&mut res);
    res
}

/// Makes the corrections by hand to the pairs they concern.
fn apply_manual_changes(pairs: &mut Vec<TVerbPooledPair>)
    ensures
        pooled_seq(final(pairs)@) == pooled_seq(old(pairs)@).map_values(|p: PooledView| corrected(p)),
{
    let ghost start = pooled_seq(pairs@);
    let mut i: usize = 0;
    while i < pairs.len()
        invariant
            start == pooled_seq(old(pairs)@),
            pairs@.len() == start.len(),
            i <= pairs@.len(),
            forall|j: int| 0 <= j < i ==> (#[trigger] pairs@[j])@ == corrected(start[j]),
            forall|j: int| i <= j < pairs@.len() ==> (#[trigger] pairs@[j])@ == start[j],
        decreases pairs@.len() - i,
    {
        if pairs[i].pair.intrans.1.id == AMENDED_INTRANS_ID && pairs[i].pair.trans.1.id == AMENDED_TRANS_ID {
            pairs[i].pair.intrans.0 = String::from_str("籠る");
        }
        i = i + 1;
    }
    assert(pooled_seq(pairs@) =~= start.map_values(|p: PooledView| corrected(p)));
}

/// Every candidate pair is made with `intrans` and an entry of `trans`
/// spelled as the pair's transitive word.
proof fn lemma_candidates_sound(intrans: Arc<DictEntry>, words: Seq<(Seq<char>, Seq<char>)>, trans: Seq<Arc<DictEntry>>)
    ensures
        forall|i: int|
            0 <= i < candidates(intrans, words, trans).len() ==> {
                let c = #[trigger] candidates(intrans, words, trans)[i];
                &&& c.1 == intrans
                &&& trans.contains(c.3)
                &&& spelled(*c.3, c.2)
            },
    decreases words.len(),
{
    broadcast use vstd::seq_lib::group_filter_ensures;

    if words.len() > 0 {
        let rest = words.drop_last();
        lemma_candidates_sound(intrans, rest, trans);
        let w = words.last();
        let found = trans.filter(spelled_as(w.1));
        let made = found.map_values(pair_with(intrans, w));
        let all = candidates(intrans, words, trans);
        assert(all == candidates(intrans, rest, trans) + made);
        assert forall|i: int| 0 <= i < all.len() implies {
            let c = #[trigger] all[i];
            &&& c.1 == intrans
            &&& trans.contains(c.3)
            &&& spelled(*c.3, c.2)
        } by {
            let before = candidates(intrans, rest, trans);
            if i >= before.len() {
                let j = i - before.len();
                assert(all[i] == made[j]);
                assert(made[j] == pair_with(intrans, w)(found[j]));
                assert(spelled_as(w.1)(found[j]));
                assert(found.contains(found[j]));
                trans.lemma_filter_contains_rev(spelled_as(w.1), found[j]);
            } else {
                assert(all[i] == before[i]);
            }
        }
    }
}

/// Every transitivity pair joins an intransitive-only entry and a
/// transitive-only entry of the dictionary, and the transitive entry is
/// spelled as the pair's transitive word.
pub proof fn law_pairs_join_opposites(entries: Seq<Arc<DictEntry>>, sufs: Seq<TSuffix>, k: int)
    requires
        0 <= k < spec_tverb_pairs(entries, sufs).len(),
    ensures
        ({
            let p = spec_tverb_pairs(entries, sufs)[k];
            &&& only_intrans(p.1)
            &&& only_trans(p.3)
            &&& spelled(*p.3, p.2)
            &&& entries.contains(p.1)
            &&& entries.contains(p.3)
        }),
{
    broadcast use vstd::seq_lib::group_filter_ensures;

    let pi = |e: Arc<DictEntry>| only_intrans(e);
    let pt = |e: Arc<DictEntry>| only_trans(e);
    let intrans = entries.filter(pi);
    let trans = entries.filter(pt);
    let g = pair_for(trans, sufs);
    let pairs = spec_tverb_pairs(entries, sufs);
    let p = pairs[k];
    assert(pairs == intrans.filter_map(g));
    assert(pairs.contains(p));
    intrans.lemma_filter_map_contains(g, p);
    let e = choose|e: Arc<DictEntry>| #[trigger] intrans.contains(e) && g(e) == Some(p);
    entries.lemma_filter_contains_rev(pi, e);
    let ie = choose|i: int| 0 <= i < intrans.len() && intrans[i] == e;
    assert(pi(intrans[ie]));
    let c = candidates(e, possible_pairs(e.kanjis@, sufs), trans);
    assert(unambiguous(c) == Some(p));
    assert(c.len() > 0 && p == c[0]);
    lemma_candidates_sound(e, possible_pairs(e.kanjis@, sufs), trans);
    assert(trans.contains(p.3));
    entries.lemma_filter_contains_rev(pt, p.3);
    let it = choose|i: int| 0 <= i < trans.len() && trans[i] == p.3;
    assert(pt(trans[it]));
}

/// When several records name the same pair of spellings, the last one's
/// pools are the ones kept.
pub proof fn law_later_record_wins(records: Seq<ContextPoolRecord>, last: ContextPoolRecord)
    ensures
        pools_of(records.push(last))[(last.intrans@, last.trans@)] == (
            IntransPool { intrans_nouns: last.intrans_nouns },
            TransPool { trans_nouns: last.trans_nouns, trans_subjects: last.trans_subjects },
        ),
{
    assert(records.push(last).drop_last() =~= records);
}

/// Pairs spelled alike share their pools, even when their intransitive
/// verbs are different entries: pools are found by spelling alone.
pub proof fn law_same_spellings_share_pools(
    pairs: Seq<PairView>,
    pools: Map<(Seq<char>, Seq<char>), (IntransPool, TransPool)>,
    i: int,
    j: int,
)
    requires
        0 <= i < pairs.filter_map(with_pools(pools)).len(),
        0 <= j < pairs.filter_map(with_pools(pools)).len(),
        pairs.filter_map(with_pools(pools))[i].0.0 == pairs.filter_map(with_pools(pools))[j].0.0,
        pairs.filter_map(with_pools(pools))[i].0.2 == pairs.filter_map(with_pools(pools))[j].0.2,
    ensures
        ({
            let a = pairs.filter_map(with_pools(pools))[i];
            let b = pairs.filter_map(with_pools(pools))[j];
            a.1 == b.1 && a.2 == b.2 && a.3 == b.3
        }),
{
    let h = with_pools(pools);
    let all = pairs.filter_map(h);
    let a = all[i];
    let b = all[j];
    assert(all.contains(a));
    assert(all.contains(b));
    pairs.lemma_filter_map_contains(h, a);
    pairs.lemma_filter_map_contains(h, b);
    let pa = choose|t: PairView| #[trigger] pairs.contains(t) && h(t) == Some(a);
    let pb = choose|t: PairView| #[trigger] pairs.contains(t) && h(t) == Some(b);
    assert(a.0 == pa && b.0 == pb);
}

/// A transitive entry pairs with a possible transitive word exactly when
/// one of its kanji spellings, whichever it is, is that word: the pairing
/// `words` of `intrans` meets, among `trans`, the entries with a spelling
/// `words.1`, and only those.
pub proof fn law_candidates_match_any_spelling(
    intrans: Arc<DictEntry>,
    words: (Seq<char>, Seq<char>),
    trans: Seq<Arc<DictEntry>>,
    t: Arc<DictEntry>,
)
    ensures
        candidates(intrans, seq![words], trans).contains((words.0, intrans, words.1, t)) <==> (
        trans.contains(t) && exists|k: int|
            0 <= k < t.kanjis@.len() && (#[trigger] t.kanjis@[k]).text@ == words.1),
{
    broadcast use vstd::seq_lib::group_filter_ensures;

    let ws = seq![words];
    let sp = spelled_as(words.1);
    let f = trans.filter(sp);
    let m = f.map_values(pair_with(intrans, words));
    assert(ws.drop_last() =~= Seq::<(Seq<char>, Seq<char>)>::empty());
    assert(ws.last() == words);
    assert(candidates(intrans, ws.drop_last(), trans) == Seq::<PairView>::empty());
    assert(candidates(intrans, ws, trans) =~= m);
    let target = (words.0, intrans, words.1, t);
    if m.contains(target) {
        let i = choose|i: int| 0 <= i < m.len() && m[i] == target;
        assert(m[i] == pair_with(intrans, words)(f[i]));
        assert(f[i] == t);
        assert(f.contains(t));
        trans.lemma_filter_contains_rev(sp, t);
        assert(spelled(*t, words.1));
    }
    if trans.contains(t) && exists|k: int|
        0 <= k < t.kanjis@.len() && (#[trigger] t.kanjis@[k]).text@ == words.1 {
        assert(sp(t));
        let j = choose|j: int| 0 <= j < trans.len() && trans[j] == t;
        trans.lemma_filter_contains(sp, j);
        let i = choose|i: int| 0 <= i < f.len() && f[i] == t;
        assert(m[i] == target);
    }
}

/// An intransitive entry gets a pair exactly when its possible pairings
/// find some transitive entry and no two of the pairs found name different
/// transitive entries; the pair is then the first one found.
pub proof fn law_ambiguous_pairings_dropped(trans: Seq<Arc<DictEntry>>, sufs: Seq<TSuffix>, e: Arc<DictEntry>)
    ensures
        ({
            let c = candidates(e, possible_pairs(e.kanjis@, sufs), trans);
            &&& pair_for(trans, sufs)(e) is Some <==> (c.len() > 0 && forall|i: int, j: int|
                0 <= i < c.len() && 0 <= j < c.len() ==> (#[trigger] c[i]).3.id == (#[trigger] c[j]).3.id)
            &&& pair_for(trans, sufs)(e) matches Some(p) ==> p == c[0]
        }),
{
    let c = candidates(e, possible_pairs(e.kanjis@, sufs), trans);
    if c.len() > 0 && forall|i: int| 0 <= i < c.len() ==> (#[trigger] c[i]).3.id == c[0].3.id {
        assert forall|i: int, j: int| 0 <= i < c.len() && 0 <= j < c.len() implies (#[trigger] c[i]).3.id
            == (#[trigger] c[j]).3.id by {
            assert(c[i].3.id == c[0].3.id);
            assert(c[j].3.id == c[0].3.id);
        }
    }
    if c.len() > 0 && forall|i: int, j: int|
        0 <= i < c.len() && 0 <= j < c.len() ==> (#[trigger] c[i]).3.id == (#[trigger] c[j]).3.id {
        assert forall|i: int| 0 <= i < c.len() implies (#[trigger] c[i]).3.id == c[0].3.id by {
            assert(c[i].3.id == c[0].3.id);
        }
    }
}

} // verus!
