//! Entries of the JMdict dictionary, annotated with JLPT levels.
//!
//! See also <https://en.wikipedia.org/wiki/JMdict>.

use vstd::prelude::*;
use vstd::std_specs::cmp::PartialEqSpecImpl;
use vstd::std_specs::convert::FromSpecImpl;
use vstd::string::StringExecFns;

verus! {

/// A JLPT level. `N1` is the hardest, `N4` the easiest the sources cover.
#[derive(Debug, Hash, PartialEq, Eq, Structural, PartialOrd, Ord, Clone, Copy)]
pub enum NLevel {
    N1,
    N2,
    N3,
    N4,
}

/// The level's number: 1 for `N1`, up to 4 for `N4`.
pub open spec fn level_number(level: NLevel) -> int {
    match level {
        NLevel::N1 => 1,
        NLevel::N2 => 2,
        NLevel::N3 => 3,
        NLevel::N4 => 4,
    }
}

impl From<NLevel> for i32 {
    /// The level's number, e.g. 3 for `N3`.
    fn from(value: NLevel) -> (n: i32) {
        match value {
            NLevel::N1 => 1,
            NLevel::N2 => 2,
            NLevel::N3 => 3,
            NLevel::N4 => 4,
        }
    }
}

impl FromSpecImpl<NLevel> for i32 {
    open spec fn obeys_from_spec() -> bool {
        true
    }

    open spec fn from_spec(v: NLevel) -> i32 {
        match v {
            NLevel::N1 => 1i32,
            NLevel::N2 => 2i32,
            NLevel::N3 => 3i32,
            NLevel::N4 => 4i32,
        }
    }
}

/// All levels, from the hardest to the easiest.
pub open spec fn all_levels() -> Seq<NLevel> {
    seq![NLevel::N1, NLevel::N2, NLevel::N3, NLevel::N4]
}

/// An entry in the JMdict dictionary.
#[derive(Debug)]
pub struct DictEntry {
    pub id: u32,
    pub kanjis: Vec<Kanji>,
    pub readings: Vec<Reading>,
    pub senses: Vec<Sense>,
}

/// A way of writing an entry with kanji.
#[derive(Debug)]
pub struct Kanji {
    pub text: String,
    pub levels: Vec<NLevel>,
    pub tags: Vec<KTag>,
}

/// A reading of an entry in kana.
#[derive(Debug)]
pub struct Reading {
    pub text: String,
    /// The kanjis this reading belongs to; empty when it belongs to all.
    pub relevant_to: Vec<String>,
    pub levels: Vec<NLevel>,
    pub tags: Vec<RTag>,
}

/// Information about the writing of a kanji element.
#[derive(Debug, Clone, Copy, PartialEq, Eq, Structural)]
pub enum KTag {
    Ateji,
    IrKana,
    IrKanji,
    IrOkurigana,
    Outdated,
    Rare,
    SearchOnly,
}

/// Information about a reading element.
#[derive(Debug, Clone, Copy, PartialEq, Eq, Structural)]
pub enum RTag {
    Gikun,
    IrKana,
    Outdated,
    SearchOnly,
    Archaic,
}

/// One meaning of an entry.
#[derive(Debug)]
pub struct Sense {
    /// The kanjis this sense is restricted to; empty when it applies to all.
    pub relevant_kanji: Vec<String>,
    /// The readings this sense is restricted to; empty when it applies to all.
    pub relevant_reading: Vec<String>,
    pub pos: Vec<Pos>,
    pub gloss: Vec<Gloss>,
}

/// A translation of a sense.
#[derive(Debug)]
pub struct Gloss {
    pub content: String,
}

/// Part-of-speech tags of JMdict.
#[derive(Debug, PartialEq, Eq, Structural, PartialOrd, Ord, Clone, Copy)]
pub enum Pos {
    AdjF,
    AdjI,
    AdjIx,
    AdjKari,
    AdjKu,
    AdjNa,
    AdjNari,
    AdjNo,
    AdjPn,
    AdjShiku,
    AdjT,
    Adv,
    AdvTo,
    Aux,
    AuxAdj,
    AuxV,
    Conj,
    Cop,
    Ctr,
    Exp,
    Int,
    N,
    NAdv,
    NPr,
    NPref,
    NSuf,
    NT,
    Num,
    Pn,
    Pref,
    Prt,
    Suf,
    Unc,
    VUnspec,
    V1,
    V1S,
    V2aS,
    V2bK,
    V2bS,
    V2dK,
    V2dS,
    V2gk,
    V2gS,
    V2hK,
    V2hS,
    V2kK,
    V2kS,
    V2mK,
    V2mS,
    V2nS,
    V2rK,
    V2rS,
    V2sS,
    V2tK,
    V2tS,
    V2wS,
    V2yK,
    V2yS,
    V2zS,
    V4b,
    V4g,
    V4h,
    V4k,
    V4m,
    V4n,
    V4r,
    V4s,
    V4t,
    V5aru,
    V5b,
    V5g,
    V5k,
    V5kS,
    V5m,
    V5n,
    V5r,
    V5rI,
    V5s,
    V5t,
    V5u,
    V5uS,
    V5uru,
    Vi,
    Vk,
    Vn,
    Vr,
    Vs,
    VsC,
    VsI,
    VsS,
    Vt,
    Vz,
}

impl PartialEq for DictEntry {
    fn eq(&self, other: &Self) -> (same: bool) {
        self.id == other.id
    }
}

impl PartialEqSpecImpl for DictEntry {
    open spec fn obeys_eq_spec() -> bool {
        true
    }

    open spec fn eq_spec(&self, other: &DictEntry) -> bool {
        self.id == other.id
    }
}

impl Eq for DictEntry {}

/// Whether some element of `strings` has the characters `text`.
pub open spec fn strings_contain(strings: Seq<String>, text: Seq<char>) -> bool {
    exists|j: int| 0 <= j < strings.len() && (#[trigger] strings[j])@ == text
}

/// Whether `levels` holds `level`.
pub fn has_level(levels: &[NLevel], level: NLevel) -> (found: bool)
    ensures
        found == levels@.contains(level),
{
    let mut i: usize = 0;
    while i < levels.len()
        invariant
            i <= levels@.len(),
            forall|j: int| 0 <= j < i ==> levels@[j] != level,
        decreases levels@.len() - i,
    {
        if levels[i] == level {
            return true;
        }
        i = i + 1;
    }
    false
}

/// Whether some element of `strings` has the same characters as `text`.
pub fn contains_string(strings: &Vec<String>, text: &String) -> (found: bool)
    ensures
        found == strings_contain(strings@, text@),
{
    let mut i: usize = 0;
    while i < strings.len()
        invariant
            i <= strings@.len(),
            forall|j: int| 0 <= j < i ==> (#[trigger] strings@[j])@ != text@,
        decreases strings@.len() - i,
    {
        if strings[i] == *text {
            return true;
        }
        i = i + 1;
    }
    false
}

/// Whether `tags` holds `pos`.
pub fn has_pos(tags: &[Pos], pos: Pos) -> (found: bool)
    ensures
        found == tags@.contains(pos),
{
    let mut i: usize = 0;
    while i < tags.len()
        invariant
            i <= tags@.len(),
            forall|j: int| 0 <= j < i ==> tags@[j] != pos,
        decreases tags@.len() - i,
    {
        if tags[i] == pos {
            return true;
        }
        i = i + 1;
    }
    false
}

/// Whether some reading of `readings` is tagged with `level`.
pub open spec fn readings_have_level(readings: Seq<Reading>, level: NLevel) -> bool {
    exists|i: int| 0 <= i < readings.len() && (#[trigger] readings[i]).levels@.contains(level)
}

/// Whether some kanji or reading of the entry is tagged with a level.
pub open spec fn spec_is_annotated(entry: &DictEntry) -> bool {
    ||| exists|i: int| 0 <= i < entry.kanjis@.len() && (#[trigger] entry.kanjis@[i]).levels@.len() > 0
    ||| exists|i: int| 0 <= i < entry.readings@.len() && (#[trigger] entry.readings@[i]).levels@.len() > 0
}

/// Whether some kanji of `kanjis` is tagged with `level`.
pub open spec fn kanjis_have_level(kanjis: Seq<Kanji>, level: NLevel) -> bool {
    exists|i: int| 0 <= i < kanjis.len() && (#[trigger] kanjis[i]).levels@.contains(level)
}

/// Whether some reading or some kanji of the entry is tagged with `level`.
pub open spec fn tagged_with(entry: &DictEntry, level: NLevel) -> bool {
    readings_have_level(entry.readings@, level) || kanjis_have_level(entry.kanjis@, level)
}

/// The levels that the entry's readings and kanjis are tagged with, from
/// the hardest to the easiest, each once.
pub open spec fn spec_levels(entry: &DictEntry) -> Seq<NLevel> {
    all_levels().filter(|l: NLevel| tagged_with(entry, l))
}

/// The index of the first reading written `text`, if there is one.
pub open spec fn first_reading(readings: Seq<Reading>, text: Seq<char>) -> Option<int> {
    if exists|i: int| 0 <= i < readings.len() && (#[trigger] readings[i]).text@ == text {
        Some(
            choose|i: int|
                0 <= i < readings.len() && (#[trigger] readings[i]).text@ == text && forall|j: int|
                    0 <= j < i ==> (#[trigger] readings[j]).text@ != text,
        )
    } else {
        None
    }
}

/// Whether annotating `reading` with `level` annotates `kanji` too: the
/// kanji does not have the level yet, and the reading belongs to it.
pub open spec fn kanji_follows(reading: Reading, kanji: Kanji, level: NLevel) -> bool {
    &&& !kanji.levels@.contains(level)
    &&& (reading.relevant_to@.len() == 0 || strings_contain(reading.relevant_to@, kanji.text@))
}

/// `after` is `before` once `level` was added for the reading written
/// `hiragana`: [`DictEntry::add_level`] does that.
pub open spec fn level_added(before: DictEntry, after: DictEntry, hiragana: Seq<char>, level: NLevel) -> bool {
    let old_readings = before.readings@;
    match first_reading(old_readings, hiragana) {
        None => after == before,
        Some(r) => if old_readings[r].levels@.contains(level) {
            after == before
        } else {
            &&& after.id == before.id
            &&& after.senses == before.senses
            &&& after.readings@.len() == old_readings.len()
            &&& forall|i: int|
                0 <= i < old_readings.len() && i != r ==> #[trigger] after.readings@[i]
                    == old_readings[i]
            &&& after.readings@[r].text == old_readings[r].text
            &&& after.readings@[r].relevant_to == old_readings[r].relevant_to
            &&& after.readings@[r].tags == old_readings[r].tags
            &&& after.readings@[r].levels@ == old_readings[r].levels@.push(level)
            &&& after.kanjis@.len() == before.kanjis@.len()
            &&& forall|k: int|
                0 <= k < before.kanjis@.len() ==> {
                    let b = #[trigger] before.kanjis@[k];
                    let a = after.kanjis@[k];
                    &&& a.text == b.text
                    &&& a.tags == b.tags
                    &&& a.levels@ == if kanji_follows(old_readings[r], b, level) {
                        b.levels@.push(level)
                    } else {
                        b.levels@
                    }
                }
        },
    }
}

/// `after` is `before` without the kanjis and readings that have no level:
/// [`DictEntry::trim`] does that.
pub open spec fn trimmed_entry(before: DictEntry, after: DictEntry) -> bool {
    &&& after.id == before.id
    &&& after.senses == before.senses
    &&& after.readings@ == before.readings@.filter(|r: Reading| r.levels@.len() > 0)
    &&& after.kanjis@ == before.kanjis@.filter(|k: Kanji| k.levels@.len() > 0)
}

/// The first index in `readings` whose text is `text`, found by search.
fn find_reading(readings: &Vec<Reading>, text: &String) -> (idx: Option<usize>)
    ensures
        match idx {
            Some(i) => i < readings@.len() && readings@[i as int].text@ == text@ && first_reading(
                readings@,
                text@,
            ) == Some(i as int),
            None => first_reading(readings@, text@) is None,
        },
{
    let mut i: usize = 0;
    while i < readings.len()
        invariant
            i <= readings@.len(),
            forall|j: int| 0 <= j < i ==> (#[trigger] readings@[j]).text@ != text@,
        decreases readings@.len() - i,
    {
        if readings[i].text == *text {
            proof {
                let w = choose|w: int|
                    0 <= w < readings@.len() && (#[trigger] readings@[w]).text@ == text@ && forall|
                        j: int,
                    | 0 <= j < w ==> (#[trigger] readings@[j]).text@ != text@;
                assert(0 <= i < readings@.len() && readings@[i as int].text@ == text@ && forall|
                    j: int,
                | 0 <= j < i ==> (#[trigger] readings@[j]).text@ != text@);
                if w < i {
                } else if w > i {
                    assert(readings@[i as int].text@ != text@);
                }
            }
            return Some(i);
        }
        i = i + 1;
    }
    None
}

/// The readings of `readings` that have a level, in their order.
fn retain_annotated_readings(readings: Vec<Reading>) -> (kept: Vec<Reading>)
    ensures
        kept@ == readings@.filter(|r: Reading| r.levels@.len() > 0),
{
    let ghost p = |r: Reading| r.levels@.len() > 0;
    let ghost all = readings@;
    let mut kept: Vec<Reading> = Vec::new();
    let mut rest = readings;
    proof {
        assert(all.take(0).filter(p) =~= Seq::<Reading>::empty()) by {
            reveal_with_fuel(Seq::filter, 1);
        }
    }
    while rest.len() > 0
        invariant
            p == (|x: Reading| x.levels@.len() > 0),
            rest@.len() <= all.len(),
            rest@ == all.subrange(all.len() - rest@.len(), all.len() as int),
            kept@ == all.take(all.len() - rest@.len()).filter(p),
        decreases rest@.len(),
    {
        let ghost done = all.len() - rest@.len();
        let r = rest.remove(0);
        proof {
            assert(r == all[done]);
            assert(all.take(done + 1) =~= all.take(done).push(all[done]));
            all.take(done).lemma_filter_push(all[done], p);
        }
        if r.levels.len() > 0 {
            assert(p(all[done]));
            assert(all.take(done).push(all[done]).filter(p) == all.take(done).filter(p).push(all[done]));
            kept.push(r);
            assert(kept@ == all.take(done).filter(p).push(all[done]));
        } else {
            assert(!p(all[done]));
        }
        assert(all.len() - rest@.len() == done + 1);
        assert(kept@ == all.take(done + 1).filter(p));
    }
    proof {
        assert(all.take(all.len() as int) =~= all);
    }
    kept
}

/// The kanjis of `kanjis` that have a level, in their order.
fn retain_annotated_kanjis(kanjis: Vec<Kanji>) -> (kept: Vec<Kanji>)
    ensures
        kept@ == kanjis@.filter(|k: Kanji| k.levels@.len() > 0),
{
    let ghost p = |k: Kanji| k.levels@.len() > 0;
    let ghost all = kanjis@;
    let mut kept: Vec<Kanji> = Vec::new();
    let mut rest = kanjis;
    proof {
        assert(all.take(0).filter(p) =~= Seq::<Kanji>::empty()) by {
            reveal_with_fuel(Seq::filter, 1);
        }
    }
    while rest.len() > 0
        invariant
            p == (|x: Kanji| x.levels@.len() > 0),
            rest@.len() <= all.len(),
            rest@ == all.subrange(all.len() - rest@.len(), all.len() as int),
            kept@ == all.take(all.len() - rest@.len()).filter(p),
        decreases rest@.len(),
    {
        let ghost done = all.len() - rest@.len();
        let k = rest.remove(0);
        proof {
            assert(k == all[done]);
            assert(all.take(done + 1) =~= all.take(done).push(all[done]));
            all.take(done).lemma_filter_push(all[done], p);
        }
        if k.levels.len() > 0 {
            assert(p(all[done]));
            assert(all.take(done).push(all[done]).filter(p) == all.take(done).filter(p).push(all[done]));
            kept.push(k);
            assert(kept@ == all.take(done).filter(p).push(all[done]));
        } else {
            assert(!p(all[done]));
        }
        assert(all.len() - rest@.len() == done + 1);
        assert(kept@ == all.take(done + 1).filter(p));
    }
    proof {
        assert(all.take(all.len() as int) =~= all);
    }
    kept
}

impl DictEntry {
    /// Determines whether there is any [reading](`DictEntry::readings`)
    /// or [kanji](`DictEntry::kanjis`) annotated with at least one [`NLevel`].
    pub fn is_annotated(&self) -> (annotated: bool)
        ensures
            annotated == spec_is_annotated(self),
    {
        let mut i: usize = 0;
        while i < self.kanjis.len()
            invariant
                i <= self.kanjis@.len(),
                forall|j: int| 0 <= j < i ==> (#[trigger] self.kanjis@[j]).levels@.len() == 0,
            decreases self.kanjis@.len() - i,
        {
            if self.kanjis[i].levels.len() > 0 {
                return true;
            }
            i = i + 1;
        }
        let mut i: usize = 0;
        while i < self.readings.len()
            invariant
                i <= self.readings@.len(),
                forall|j: int| 0 <= j < self.kanjis@.len() ==> (#[trigger] self.kanjis@[j]).levels@.len() == 0,
                forall|j: int| 0 <= j < i ==> (#[trigger] self.readings@[j]).levels@.len() == 0,
            decreases self.readings@.len() - i,
        {
            if self.readings[i].levels.len() > 0 {
                return true;
            }
            i = i + 1;
        }
        false
    }

    /// Annotates the first [reading](`DictEntry::readings`) written
    /// `hiragana` with `level`, unless it has it already. Annotates all
    /// [kanjis](`DictEntry::kanjis`) with the same `level` too, or only the
    /// ones in [relevant_to](`Reading::relevant_to`) if that list isn't empty.
    pub fn add_level(&mut self, hiragana: &str, level: NLevel)
        ensures
            level_added(*old(self), *final(self), hiragana@, level),
    {
        let text = String::from_str(hiragana);
        let r = match find_reading(&self.readings, &text) {
            Some(r) => r,
            None => return ,
        };
        if has_level(&self.readings[r].levels, level) {
            return ;
        }
        let ghost old_readings = self.readings@;
        let ghost old_kanjis = self.kanjis@;
        self.readings[r].levels.push(level);
        let ghost reading = old_readings[r as int];
        assert(self.readings@[r as int].relevant_to == reading.relevant_to);
        let relevant_to_all = self.readings[r].relevant_to.len() == 0;
        let ghost mid_readings = self.readings@;
        let n = self.kanjis.len();
        let mut k: usize = 0;
        while k < n
            invariant
                n == old_kanjis.len(),
                n == self.kanjis@.len(),
                self.readings@ == mid_readings,
                self.id == old(self).id,
                self.senses == old(self).senses,
                k <= n,
                r < self.readings@.len(),
                self.readings@[r as int].relevant_to == reading.relevant_to,
                relevant_to_all == (reading.relevant_to@.len() == 0),
                forall|j: int|
                    k <= j < n ==> #[trigger] self.kanjis@[j] == old_kanjis[j],
                forall|j: int|
                    0 <= j < k ==> {
                        let before = #[trigger] old_kanjis[j];
                        let after = self.kanjis@[j];
                        &&& after.text == before.text
                        &&& after.tags == before.tags
                        &&& after.levels@ == if kanji_follows(reading, before, level) {
                            before.levels@.push(level)
                        } else {
                            before.levels@
                        }
                    },
            decreases n - k,
        {
            let follows = !has_level(&self.kanjis[k].levels, level) && (relevant_to_all
                || contains_string(&self.readings[r].relevant_to, &self.kanjis[k].text));
            if follows {
                self.kanjis[k].levels.push(level);
            }
            k = k + 1;
        }
    }

    /// Removes any [kanjis](`DictEntry::kanjis`) and/or [readings](`DictEntry::readings`)
    /// that aren't annotated with at least one [`NLevel`].
    pub fn trim(&mut self)
        ensures
            trimmed_entry(*old(self), *final(self)),
    {
        let mut readings: Vec<Reading> = Vec::new();
        std::mem::swap(&mut readings, &mut self.readings);
        self.readings = retain_annotated_readings(readings);
        let mut kanjis: Vec<Kanji> = Vec::new();
        std::mem::swap(&mut kanjis, &mut self.kanjis);
        self.kanjis = retain_annotated_kanjis(kanjis);
    }

    /// Whether some reading is tagged with `level`.
    fn readings_have(&self, level: NLevel) -> (found: bool)
        ensures
            found == readings_have_level(self.readings@, level),
    {
        let mut i: usize = 0;
        while i < self.readings.len()
            invariant
                i <= self.readings@.len(),
                forall|j: int| 0 <= j < i ==> !(#[trigger] self.readings@[j]).levels@.contains(level),
            decreases self.readings@.len() - i,
        {
            if has_level(&self.readings[i].levels, level) {
                return true;
            }
            i = i + 1;
        }
        false
    }

    /// Whether some kanji is tagged with `level`.
    fn kanjis_have(&self, level: NLevel) -> (found: bool)
        ensures
            found == kanjis_have_level(self.kanjis@, level),
    {
        let mut i: usize = 0;
        while i < self.kanjis.len()
            invariant
                i <= self.kanjis@.len(),
                forall|j: int| 0 <= j < i ==> !(#[trigger] self.kanjis@[j]).levels@.contains(level),
            decreases self.kanjis@.len() - i,
        {
            if has_level(&self.kanjis[i].levels, level) {
                return true;
            }
            i = i + 1;
        }
        false
    }

    /// Whether some reading or some kanji is tagged with `level`.
    fn tagged(&self, level: NLevel) -> (found: bool)
        ensures
            found == tagged_with(self, level),
    {
        self.readings_have(level) || self.kanjis_have(level)
    }

    /// Retrieves all the levels this entry is tagged with, on its readings
    /// and on its kanjis, from the hardest to the easiest, without
    /// repetition.
    pub fn levels(&self) -> (levels: Vec<NLevel>)
        ensures
            levels@ == spec_levels(self),
    {
        let mut levels: Vec<NLevel> = Vec::new();
        if self.tagged(NLevel::N1) {
            levels.push(NLevel::N1);
        }
        if self.tagged(NLevel::N2) {
            levels.push(NLevel::N2);
        }
        if self.tagged(NLevel::N3) {
            levels.push(NLevel::N3);
        }
        if self.tagged(NLevel::N4) {
            levels.push(NLevel::N4);
        }
        proof {
            let p = |l: NLevel| tagged_with(self, l);
            let s = all_levels();
            assert(s.take(0).filter(p) =~= Seq::<NLevel>::empty()) by {
                reveal_with_fuel(Seq::filter, 1);
            }
            assert(s.take(1) =~= s.take(0).push(s[0]));
            assert(s.take(2) =~= s.take(1).push(s[1]));
            assert(s.take(3) =~= s.take(2).push(s[2]));
            assert(s.take(4) =~= s.take(3).push(s[3]));
            assert(s.take(4) =~= s);
            s.take(0).lemma_filter_push(s[0], p);
            s.take(1).lemma_filter_push(s[1], p);
            s.take(2).lemma_filter_push(s[2], p);
            s.take(3).lemma_filter_push(s[3], p);
        }
        levels
    }
}

/// Filtering what was filtered by the same test changes nothing.
proof fn lemma_filter_twice<A>(s: Seq<A>, p: spec_fn(A) -> bool)
    ensures
        s.filter(p).filter(p) == s.filter(p),
    decreases s.len(),
{
    reveal_with_fuel(Seq::filter, 1);
    if s.len() > 0 {
        lemma_filter_twice(s.drop_last(), p);
        let f = s.drop_last().filter(p);
        if p(s.last()) {
            assert(s.filter(p) == f.push(s.last()));
            assert(f.push(s.last()).drop_last() =~= f);
            assert(f.push(s.last()).filter(p) == f.filter(p).push(s.last()));
        } else {
            assert(s.filter(p) == f);
        }
    } else {
        assert(s.filter(p) =~= Seq::<A>::empty());
    }
}

/// What a filter keeps of a sequence in strictly rising level order is in
/// strictly rising level order.
proof fn lemma_filter_rising(s: Seq<NLevel>, p: spec_fn(NLevel) -> bool)
    requires
        forall|i: int, j: int| 0 <= i < j < s.len() ==> level_number(s[i]) < level_number(s[j]),
    ensures
        forall|i: int, j: int|
            0 <= i < j < s.filter(p).len() ==> level_number(s.filter(p)[i]) < level_number(
                s.filter(p)[j],
            ),
    decreases s.len(),
{
    reveal_with_fuel(Seq::filter, 1);
    if s.len() > 0 {
        let rest = s.drop_last();
        lemma_filter_rising(rest, p);
        let f = rest.filter(p);
        if p(s.last()) {
            assert(s.filter(p) == f.push(s.last()));
            assert forall|i: int, j: int| 0 <= i < j < s.filter(p).len() implies level_number(
                s.filter(p)[i],
            ) < level_number(s.filter(p)[j]) by {
                if j == f.len() {
                    assert(f.contains(f[i]));
                    rest.lemma_filter_contains_rev(p, f[i]);
                    let k = choose|k: int| 0 <= k < rest.len() && rest[k] == f[i];
                    assert(s[k] == rest[k]);
                    assert(s.last() == s[s.len() - 1]);
                }
            }
        }
    }
}

/// An entry's levels run from the hardest to the easiest, each once.
pub proof fn law_levels_ordered(entry: DictEntry)
    ensures
        forall|i: int, j: int|
            0 <= i < j < spec_levels(&entry).len() ==> level_number(spec_levels(&entry)[i])
                < level_number(spec_levels(&entry)[j]),
{
    lemma_filter_rising(all_levels(), |l: NLevel| tagged_with(&entry, l));
}

/// Whether some reading has a level.
spec fn reading_has_levels(r: Reading) -> bool {
    r.levels@.len() > 0
}

/// Trimming keeps an entry's levels, and whether it has any.
pub proof fn law_trim_keeps_levels(before: DictEntry, after: DictEntry)
    requires
        trimmed_entry(before, after),
    ensures
        spec_levels(&after) == spec_levels(&before),
        spec_is_annotated(&after) == spec_is_annotated(&before),
{
    broadcast use vstd::seq_lib::group_filter_ensures;

    let rp = |r: Reading| r.levels@.len() > 0;
    let kp = |k: Kanji| k.levels@.len() > 0;
    assert forall|l: NLevel| readings_have_level(after.readings@, l) == readings_have_level(
        before.readings@,
        l,
    ) by {
        if readings_have_level(before.readings@, l) {
            let i = choose|i: int| 0 <= i < before.readings@.len() && (#[trigger] before.readings@[i]).levels@.contains(l);
            assert(rp(before.readings@[i]));
            assert(before.readings@.filter(rp).contains(before.readings@[i]));
        }
        if readings_have_level(after.readings@, l) {
            let i = choose|i: int| 0 <= i < after.readings@.len() && (#[trigger] after.readings@[i]).levels@.contains(l);
            assert(before.readings@.filter(rp).contains(after.readings@[i]));
            before.readings@.lemma_filter_contains_rev(rp, after.readings@[i]);
        }
    }
    assert forall|l: NLevel| kanjis_have_level(after.kanjis@, l) == kanjis_have_level(
        before.kanjis@,
        l,
    ) by {
        if kanjis_have_level(before.kanjis@, l) {
            let i = choose|i: int| 0 <= i < before.kanjis@.len() && (#[trigger] before.kanjis@[i]).levels@.contains(l);
            assert(kp(before.kanjis@[i]));
            assert(before.kanjis@.filter(kp).contains(before.kanjis@[i]));
        }
        if kanjis_have_level(after.kanjis@, l) {
            let i = choose|i: int| 0 <= i < after.kanjis@.len() && (#[trigger] after.kanjis@[i]).levels@.contains(l);
            assert(before.kanjis@.filter(kp).contains(after.kanjis@[i]));
            before.kanjis@.lemma_filter_contains_rev(kp, after.kanjis@[i]);
        }
    }
    assert(spec_levels(&after) =~= spec_levels(&before)) by {
        let pa = |l: NLevel| tagged_with(&after, l);
        let pb = |l: NLevel| tagged_with(&before, l);
        assert(pa =~= pb);
    }
    if spec_is_annotated(&before) {
        if exists|i: int| 0 <= i < before.kanjis@.len() && (#[trigger] before.kanjis@[i]).levels@.len() > 0 {
            let i = choose|i: int| 0 <= i < before.kanjis@.len() && (#[trigger] before.kanjis@[i]).levels@.len() > 0;
            assert(kp(before.kanjis@[i]));
            assert(before.kanjis@.filter(kp).contains(before.kanjis@[i]));
        } else {
            let i = choose|i: int| 0 <= i < before.readings@.len() && (#[trigger] before.readings@[i]).levels@.len() > 0;
            assert(rp(before.readings@[i]));
            assert(before.readings@.filter(rp).contains(before.readings@[i]));
        }
    }
    if spec_is_annotated(&after) {
        if exists|i: int| 0 <= i < after.kanjis@.len() && (#[trigger] after.kanjis@[i]).levels@.len() > 0 {
            let i = choose|i: int| 0 <= i < after.kanjis@.len() && (#[trigger] after.kanjis@[i]).levels@.len() > 0;
            assert(before.kanjis@.filter(kp).contains(after.kanjis@[i]));
            before.kanjis@.lemma_filter_contains_rev(kp, after.kanjis@[i]);
        } else {
            let i = choose|i: int| 0 <= i < after.readings@.len() && (#[trigger] after.readings@[i]).levels@.len() > 0;
            assert(before.readings@.filter(rp).contains(after.readings@[i]));
            before.readings@.lemma_filter_contains_rev(rp, after.readings@[i]);
        }
    }
}

/// Trimming a trimmed entry changes nothing.
pub proof fn law_trim_idempotent(once: DictEntry, twice: DictEntry, before: DictEntry)
    requires
        trimmed_entry(before, once),
        trimmed_entry(once, twice),
    ensures
        twice.id == once.id,
        twice.senses == once.senses,
        twice.readings@ == once.readings@,
        twice.kanjis@ == once.kanjis@,
{
    lemma_filter_twice(before.readings@, |r: Reading| r.levels@.len() > 0);
    lemma_filter_twice(before.kanjis@, |k: Kanji| k.levels@.len() > 0);
}

/// After adding `level` for the reading at `r`, that reading has it.
proof fn lemma_added_reading(before: DictEntry, after: DictEntry, hiragana: Seq<char>, level: NLevel, r: int)
    requires
        level_added(before, after, hiragana, level),
        first_reading(before.readings@, hiragana) == Some(r),
        0 <= r < before.readings@.len(),
    ensures
        r < after.readings@.len(),
        after.readings@[r].levels@.contains(level),
{
    if before.readings@[r].levels@.contains(level) {
        assert(after == before);
    } else {
        assert(after.readings@[r].levels@ == before.readings@[r].levels@.push(level));
        assert(after.readings@[r].levels@[before.readings@[r].levels@.len() as int] == level);
    }
}

/// Whether `w` is the index of the first reading written `text`.
spec fn first_at(readings: Seq<Reading>, text: Seq<char>, w: int) -> bool {
    &&& 0 <= w < readings.len()
    &&& readings[w].text@ == text
    &&& forall|j: int| 0 <= j < w ==> (#[trigger] readings[j]).text@ != text
}

/// A reading written `text` at `i` means some reading is the first one.
proof fn lemma_first_exists(readings: Seq<Reading>, text: Seq<char>, i: int)
    requires
        0 <= i < readings.len(),
        readings[i].text@ == text,
    ensures
        exists|w: int| first_at(readings, text, w),
    decreases i,
{
    if exists|j: int| 0 <= j < i && (#[trigger] readings[j]).text@ == text {
        let j = choose|j: int| 0 <= j < i && (#[trigger] readings[j]).text@ == text;
        lemma_first_exists(readings, text, j);
    } else {
        assert(first_at(readings, text, i));
    }
}

/// The index of the first reading written `text`, when there is one.
proof fn lemma_first_reading_index(readings: Seq<Reading>, text: Seq<char>) -> (r: int)
    requires
        first_reading(readings, text) is Some,
    ensures
        0 <= r < readings.len(),
        first_reading(readings, text) == Some(r),
{
    let i = choose|i: int| 0 <= i < readings.len() && (#[trigger] readings[i]).text@ == text;
    lemma_first_exists(readings, text, i);
    let w = choose|w: int| first_at(readings, text, w);
    assert(first_at(readings, text, w));
    first_reading(readings, text).unwrap()
}

/// An entry with a reading tagged with `level` is annotated, with `level`
/// among its levels.
proof fn lemma_reading_level_listed(entry: DictEntry, r: int, level: NLevel)
    requires
        0 <= r < entry.readings@.len(),
        entry.readings@[r].levels@.contains(level),
    ensures
        spec_is_annotated(&entry),
        spec_levels(&entry).contains(level),
{
    assert(entry.readings@[r].levels@.len() > 0);
    assert(readings_have_level(entry.readings@, level));
    assert(tagged_with(&entry, level));
    let p = |l: NLevel| tagged_with(&entry, l);
    let k: int = match level {
        NLevel::N1 => 0,
        NLevel::N2 => 1,
        NLevel::N3 => 2,
        NLevel::N4 => 3,
    };
    assert(all_levels()[k] == level);
    all_levels().lemma_filter_contains(p, k);
    assert(spec_levels(&entry) == all_levels().filter(p));
}

/// Adding a level for a reading that the entry has leaves the entry
/// annotated, with that level among its levels.
pub proof fn law_add_level_annotates(before: DictEntry, after: DictEntry, hiragana: Seq<char>, level: NLevel)
    requires
        level_added(before, after, hiragana, level),
        first_reading(before.readings@, hiragana) is Some,
    ensures
        spec_is_annotated(&after),
        spec_levels(&after).contains(level),
{
    let r = lemma_first_reading_index(before.readings@, hiragana);
    lemma_added_reading(before, after, hiragana, level, r);
    lemma_reading_level_listed(after, r, level);
}


/// No reading and no kanji of the entry lists a level twice.
pub open spec fn levels_unrepeated(entry: DictEntry) -> bool {
    &&& forall|i: int| 0 <= i < entry.readings@.len() ==> (#[trigger] entry.readings@[i]).levels@.no_duplicates()
    &&& forall|k: int| 0 <= k < entry.kanjis@.len() ==> (#[trigger] entry.kanjis@[k]).levels@.no_duplicates()
}

/// Appending a value that a list lacks keeps it free of repeats.
proof fn lemma_push_unrepeated(s: Seq<NLevel>, l: NLevel)
    requires
        s.no_duplicates(),
        !s.contains(l),
    ensures
        s.push(l).no_duplicates(),
{
    let t = s.push(l);
    assert forall|i: int, j: int| 0 <= i < t.len() && 0 <= j < t.len() && i != j implies t[i] != t[j] by {
        if i == s.len() {
            assert(s[j] == t[j]);
        } else if j == s.len() {
            assert(s[i] == t[i]);
        } else {
            assert(s[i] == t[i] && s[j] == t[j]);
        }
    }
}

/// `w` is the first reading written `text`, and so is `v`: they are one.
proof fn lemma_first_unique(readings: Seq<Reading>, text: Seq<char>, v: int, w: int)
    requires
        first_at(readings, text, v),
        first_at(readings, text, w),
    ensures
        v == w,
{
    if v < w {
        assert(readings[v].text@ != text);
    } else if w < v {
        assert(readings[w].text@ != text);
    }
}

/// The reading that `first_reading` names is the first one written `text`.
proof fn lemma_first_reading_at(readings: Seq<Reading>, text: Seq<char>) -> (r: int)
    requires
        first_reading(readings, text) is Some,
    ensures
        first_reading(readings, text) == Some(r),
        first_at(readings, text, r),
{
    let r = lemma_first_reading_index(readings, text);
    let i = choose|i: int| 0 <= i < readings.len() && (#[trigger] readings[i]).text@ == text;
    lemma_first_exists(readings, text, i);
    r
}

/// Adding the same level for the same reading twice is adding it once: the
/// second call changes nothing. Adding a level never makes a reading or a
/// kanji list a level twice.
pub proof fn law_add_level_twice(before: DictEntry, once: DictEntry, twice: DictEntry, hiragana: Seq<char>, level: NLevel)
    requires
        level_added(before, once, hiragana, level),
        level_added(once, twice, hiragana, level),
    ensures
        twice == once,
        levels_unrepeated(before) ==> levels_unrepeated(once),
{
    if first_reading(before.readings@, hiragana) is Some {
        let r = lemma_first_reading_at(before.readings@, hiragana);
        if !before.readings@[r].levels@.contains(level) {
            assert forall|i: int| 0 <= i < once.readings@.len() implies (#[trigger] once.readings@[i]).text@
                == before.readings@[i].text@ by {
                if i != r {
                    assert(once.readings@[i] == before.readings@[i]);
                }
            }
            assert(first_at(once.readings@, hiragana, r)) by {
                assert forall|j: int| 0 <= j < r implies (#[trigger] once.readings@[j]).text@ != hiragana by {
                    assert(before.readings@[j].text@ != hiragana);
                }
            }
            assert(first_reading(once.readings@, hiragana) is Some) by {
                assert(once.readings@[r].text@ == hiragana);
            }
            let r1 = lemma_first_reading_at(once.readings@, hiragana);
            lemma_first_unique(once.readings@, hiragana, r, r1);
            assert(once.readings@[r].levels@ == before.readings@[r].levels@.push(level));
            assert(once.readings@[r].levels@.contains(level)) by {
                assert(once.readings@[r].levels@[before.readings@[r].levels@.len() as int] == level);
            }
            if levels_unrepeated(before) {
                assert forall|i: int| 0 <= i < once.readings@.len() implies (#[trigger] once.readings@[i]).levels@.no_duplicates() by {
                    if i == r {
                        lemma_push_unrepeated(before.readings@[r].levels@, level);
                    } else {
                        assert(once.readings@[i] == before.readings@[i]);
                    }
                }
                assert forall|k: int| 0 <= k < once.kanjis@.len() implies (#[trigger] once.kanjis@[k]).levels@.no_duplicates() by {
                    let b = before.kanjis@[k];
                    if kanji_follows(before.readings@[r], b, level) {
                        lemma_push_unrepeated(b.levels@, level);
                    }
                }
            }
        }
    }
}

/// A level is among an entry's levels exactly when a reading or a kanji of
/// the entry is tagged with it.
pub proof fn lemma_level_listed(entry: &DictEntry, l: NLevel)
    ensures
        spec_levels(entry).contains(l) <==> tagged_with(entry, l),
{
    let p = |x: NLevel| tagged_with(entry, x);
    let k: int = match l {
        NLevel::N1 => 0,
        NLevel::N2 => 1,
        NLevel::N3 => 2,
        NLevel::N4 => 3,
    };
    assert(all_levels()[k] == l);
    if tagged_with(entry, l) {
        all_levels().lemma_filter_contains(p, k);
    }
    if spec_levels(entry).contains(l) {
        all_levels().lemma_filter_contains_rev(p, l);
    }
}

} // verus!
