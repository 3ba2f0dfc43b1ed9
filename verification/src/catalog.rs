//! The dictionary that the multiple choice games draw their words from,
//! and the part-of-speech filters a game can be set up with.

use std::sync::Arc;

use vstd::prelude::*;

use crate::dictionary::{has_level, has_pos, lemma_level_listed, spec_levels, tagged_with, DictEntry, NLevel, Pos};

verus! {

/// Contains [`DictEntry`]'s.
#[derive(Debug)]
pub struct Dictionary {
    /// Contains all of the entries.
    pub entries: Vec<Arc<DictEntry>>,
}

/// Groups of part-of-speech tags that a game can be restricted to.
#[derive(Debug, Clone, Copy, PartialEq, Eq, Structural)]
pub enum PosFilter {
    Nouns,
    Verbs,
    Prenominals,
    Expressions,
    Conjunctions,
    Other,
}

/// The tags that each filter stands for.
pub open spec fn spec_as_pos(filter: PosFilter) -> Seq<Pos> {
    match filter {
        PosFilter::Nouns => seq![
            Pos::N, Pos::NPr, Pos::NAdv, Pos::NPref, Pos::NSuf, Pos::NT, Pos::Pn
        ],
        PosFilter::Verbs => seq![
            Pos::VUnspec, Pos::V1, Pos::V1S, Pos::V2aS, Pos::V2bK, Pos::V2bS, Pos::V2dK,
            Pos::V2dS, Pos::V2gk, Pos::V2gS, Pos::V2hK, Pos::V2hS, Pos::V2kK, Pos::V2kS,
            Pos::V2mK, Pos::V2mS, Pos::V2nS, Pos::V2rK, Pos::V2rS, Pos::V2sS, Pos::V2tK,
            Pos::V2tS, Pos::V2wS, Pos::V2yK, Pos::V2yS, Pos::V2zS, Pos::V4b, Pos::V4g,
            Pos::V4h, Pos::V4k, Pos::V4m, Pos::V4n, Pos::V4r, Pos::V4s, Pos::V4t, Pos::V5aru,
            Pos::V5b, Pos::V5g, Pos::V5k, Pos::V5kS, Pos::V5m, Pos::V5n, Pos::V5r, Pos::V5rI,
            Pos::V5s, Pos::V5t, Pos::V5u, Pos::V5uS, Pos::V5uru, Pos::Vi, Pos::Vk, Pos::Vn,
            Pos::Vr, Pos::Vs, Pos::VsC, Pos::VsI, Pos::VsS, Pos::Vt, Pos::Vz
        ],
        PosFilter::Prenominals => seq![
            Pos::AdjF, Pos::AdjPn, Pos::AdjNo
        ],
        PosFilter::Expressions => seq![
            Pos::Exp, Pos::Int
        ],
        PosFilter::Conjunctions => seq![
            Pos::Conj
        ],
        PosFilter::Other => seq![
            Pos::AdjI, Pos::AdjIx, Pos::AdjKari, Pos::AdjKu, Pos::AdjNa, Pos::AdjNari,
            Pos::AdjShiku, Pos::AdjT, Pos::Adv, Pos::AdvTo, Pos::Aux, Pos::AuxAdj, Pos::AuxV,
            Pos::Cop, Pos::Ctr, Pos::Num, Pos::Pref, Pos::Prt, Pos::Suf, Pos::Unc
        ],
    }
}


/// The filter whose list holds `pos`.
pub open spec fn filter_of(pos: Pos) -> PosFilter {
    match pos {
        Pos::N | Pos::NPr | Pos::NAdv | Pos::NPref | Pos::NSuf | Pos::NT | Pos::Pn => PosFilter::Nouns,
        Pos::VUnspec | Pos::V1 | Pos::V1S | Pos::V2aS | Pos::V2bK | Pos::V2bS | Pos::V2dK | Pos::V2dS | Pos::V2gk | Pos::V2gS | Pos::V2hK | Pos::V2hS | Pos::V2kK | Pos::V2kS | Pos::V2mK | Pos::V2mS | Pos::V2nS | Pos::V2rK | Pos::V2rS | Pos::V2sS | Pos::V2tK | Pos::V2tS | Pos::V2wS | Pos::V2yK | Pos::V2yS | Pos::V2zS | Pos::V4b | Pos::V4g | Pos::V4h | Pos::V4k | Pos::V4m | Pos::V4n | Pos::V4r | Pos::V4s | Pos::V4t | Pos::V5aru | Pos::V5b | Pos::V5g | Pos::V5k | Pos::V5kS | Pos::V5m | Pos::V5n | Pos::V5r | Pos::V5rI | Pos::V5s | Pos::V5t | Pos::V5u | Pos::V5uS | Pos::V5uru | Pos::Vi | Pos::Vk | Pos::Vn | Pos::Vr | Pos::Vs | Pos::VsC | Pos::VsI | Pos::VsS | Pos::Vt | Pos::Vz => PosFilter::Verbs,
        Pos::AdjF | Pos::AdjPn | Pos::AdjNo => PosFilter::Prenominals,
        Pos::Exp | Pos::Int => PosFilter::Expressions,
        Pos::Conj => PosFilter::Conjunctions,
        Pos::AdjI | Pos::AdjIx | Pos::AdjKari | Pos::AdjKu | Pos::AdjNa | Pos::AdjNari | Pos::AdjShiku | Pos::AdjT | Pos::Adv | Pos::AdvTo | Pos::Aux | Pos::AuxAdj | Pos::AuxV | Pos::Cop | Pos::Ctr | Pos::Num | Pos::Pref | Pos::Prt | Pos::Suf | Pos::Unc => PosFilter::Other,
    }
}

/// How many of the first `n` tags of `tags` are `pos`.
pub open spec fn occurrences_before(tags: Seq<Pos>, pos: Pos, n: nat) -> nat
    decreases n,
{
    if n == 0 {
        0
    } else {
        occurrences_before(tags, pos, (n - 1) as nat) + if tags[n - 1] == pos {
            1nat
        } else {
            0nat
        }
    }
}

/// How many times `pos` occurs in `tags`.
pub open spec fn occurrences(tags: Seq<Pos>, pos: Pos) -> nat {
    occurrences_before(tags, pos, tags.len())
}

/// How often `pos` occurs in the list of [`PosFilter::Nouns`].
#[verifier::rlimit(100)]
proof fn lemma_count_in_nouns(pos: Pos)
    ensures
        occurrences(spec_as_pos(PosFilter::Nouns), pos) == if filter_of(pos) == PosFilter::Nouns {
            1nat
        } else {
            0nat
        },
{
    reveal_with_fuel(occurrences_before, 60);
}

/// How often `pos` occurs in the list of [`PosFilter::Verbs`].
#[verifier::rlimit(100)]
proof fn lemma_count_in_verbs(pos: Pos)
    ensures
        occurrences(spec_as_pos(PosFilter::Verbs), pos) == if filter_of(pos) == PosFilter::Verbs {
            1nat
        } else {
            0nat
        },
{
    reveal_with_fuel(occurrences_before, 60);
}

/// How often `pos` occurs in the list of [`PosFilter::Prenominals`].
#[verifier::rlimit(100)]
proof fn lemma_count_in_prenominals(pos: Pos)
    ensures
        occurrences(spec_as_pos(PosFilter::Prenominals), pos) == if filter_of(pos) == PosFilter::Prenominals {
            1nat
        } else {
            0nat
        },
{
    reveal_with_fuel(occurrences_before, 60);
}

/// How often `pos` occurs in the list of [`PosFilter::Expressions`].
#[verifier::rlimit(100)]
proof fn lemma_count_in_expressions(pos: Pos)
    ensures
        occurrences(spec_as_pos(PosFilter::Expressions), pos) == if filter_of(pos) == PosFilter::Expressions {
            1nat
        } else {
            0nat
        },
{
    reveal_with_fuel(occurrences_before, 60);
}

/// How often `pos` occurs in the list of [`PosFilter::Conjunctions`].
#[verifier::rlimit(100)]
proof fn lemma_count_in_conjunctions(pos: Pos)
    ensures
        occurrences(spec_as_pos(PosFilter::Conjunctions), pos) == if filter_of(pos) == PosFilter::Conjunctions {
            1nat
        } else {
            0nat
        },
{
    reveal_with_fuel(occurrences_before, 60);
}

/// How often `pos` occurs in the list of [`PosFilter::Other`].
#[verifier::rlimit(100)]
proof fn lemma_count_in_other(pos: Pos)
    ensures
        occurrences(spec_as_pos(PosFilter::Other), pos) == if filter_of(pos) == PosFilter::Other {
            1nat
        } else {
            0nat
        },
{
    reveal_with_fuel(occurrences_before, 60);
}

/// The filters split the part-of-speech tags between them: every tag occurs
/// once in the list of exactly one filter, and in no other list.
pub proof fn law_filters_partition_pos(pos: Pos)
    ensures
        forall|filter: PosFilter|
            #[trigger] occurrences(spec_as_pos(filter), pos) == if filter == filter_of(pos) {
                1nat
            } else {
                0nat
            },
{
    lemma_count_in_nouns(pos);
    lemma_count_in_verbs(pos);
    lemma_count_in_prenominals(pos);
    lemma_count_in_expressions(pos);
    lemma_count_in_conjunctions(pos);
    lemma_count_in_other(pos);
    assert forall|filter: PosFilter|
        #[trigger] occurrences(spec_as_pos(filter), pos) == if filter == filter_of(pos) {
            1nat
        } else {
            0nat
        } by {
        match filter {
            PosFilter::Nouns => {},
            PosFilter::Verbs => {},
            PosFilter::Prenominals => {},
            PosFilter::Expressions => {},
            PosFilter::Conjunctions => {},
            PosFilter::Other => {},
        }
    }
}

impl PosFilter {
    /// The part-of-speech tags this filter stands for.
    pub fn as_pos(&self) -> (tags: Vec<Pos>)
        ensures
            tags@ == spec_as_pos(*self),
    {
        let tags = match self {
            PosFilter::Nouns => vec![
                Pos::N, Pos::NPr, Pos::NAdv, Pos::NPref, Pos::NSuf, Pos::NT, Pos::Pn
            ],
            PosFilter::Verbs => vec![
                Pos::VUnspec, Pos::V1, Pos::V1S, Pos::V2aS, Pos::V2bK, Pos::V2bS, Pos::V2dK,
                Pos::V2dS, Pos::V2gk, Pos::V2gS, Pos::V2hK, Pos::V2hS, Pos::V2kK, Pos::V2kS,
                Pos::V2mK, Pos::V2mS, Pos::V2nS, Pos::V2rK, Pos::V2rS, Pos::V2sS, Pos::V2tK,
                Pos::V2tS, Pos::V2wS, Pos::V2yK, Pos::V2yS, Pos::V2zS, Pos::V4b, Pos::V4g,
                Pos::V4h, Pos::V4k, Pos::V4m, Pos::V4n, Pos::V4r, Pos::V4s, Pos::V4t,
                Pos::V5aru, Pos::V5b, Pos::V5g, Pos::V5k, Pos::V5kS, Pos::V5m, Pos::V5n,
                Pos::V5r, Pos::V5rI, Pos::V5s, Pos::V5t, Pos::V5u, Pos::V5uS, Pos::V5uru,
                Pos::Vi, Pos::Vk, Pos::Vn, Pos::Vr, Pos::Vs, Pos::VsC, Pos::VsI, Pos::VsS,
                Pos::Vt, Pos::Vz
            ],
            PosFilter::Prenominals => vec![
                Pos::AdjF, Pos::AdjPn, Pos::AdjNo
            ],
            PosFilter::Expressions => vec![
                Pos::Exp, Pos::Int
            ],
            PosFilter::Conjunctions => vec![
                Pos::Conj
            ],
            PosFilter::Other => vec![
                Pos::AdjI, Pos::AdjIx, Pos::AdjKari, Pos::AdjKu, Pos::AdjNa, Pos::AdjNari,
                Pos::AdjShiku, Pos::AdjT, Pos::Adv, Pos::AdvTo, Pos::Aux, Pos::AuxAdj,
                Pos::AuxV, Pos::Cop, Pos::Ctr, Pos::Num, Pos::Pref, Pos::Prt, Pos::Suf,
                Pos::Unc
            ],
        };
        assert(tags@ == spec_as_pos(*self));
        tags
    }
}

/// Hands out another reference to the value behind `shared` with
/// [`Arc::clone`]. Both point to the same value.
#[verifier::external_body]
pub(crate) fn share<T>(shared: &Arc<T>) -> (other: Arc<T>)
    ensures
        other == *shared,
{
    Arc::clone(shared)
}

/// Whether `entry` belongs to the subset of the dictionary with one of
/// `levels` and a sense tagged with one of `pos`.
pub open spec fn in_subset(entry: DictEntry, levels: Seq<NLevel>, pos: Seq<Pos>) -> bool {
    &&& exists|i: int| 0 <= i < spec_levels(&entry).len() && levels.contains(#[trigger] spec_levels(&entry)[i])
    &&& exists|s: int, j: int|
        0 <= s < entry.senses@.len() && 0 <= j < entry.senses@[s].pos@.len() && pos.contains(
            #[trigger] entry.senses@[s].pos@[j],
        )
}

/// Whether some element of `items` is one of `wanted`.
pub(crate) fn any_level_in(items: &Vec<NLevel>, wanted: &[NLevel]) -> (found: bool)
    ensures
        found == exists|i: int| 0 <= i < items@.len() && wanted@.contains(#[trigger] items@[i]),
{
    let mut i: usize = 0;
    while i < items.len()
        invariant
            i <= items@.len(),
            forall|j: int| 0 <= j < i ==> !wanted@.contains(#[trigger] items@[j]),
        decreases items@.len() - i,
    {
        if has_level(wanted, items[i]) {
            return true;
        }
        i = i + 1;
    }
    false
}

/// Whether some sense of `entry` is tagged with one of `wanted`.
fn any_pos_in(entry: &DictEntry, wanted: &[Pos]) -> (found: bool)
    ensures
        found == exists|s: int, j: int|
            0 <= s < entry.senses@.len() && 0 <= j < entry.senses@[s].pos@.len() && wanted@.contains(
                #[trigger] entry.senses@[s].pos@[j],
            ),
{
    let mut s: usize = 0;
    while s < entry.senses.len()
        invariant
            s <= entry.senses@.len(),
            forall|a: int, j: int|
                0 <= a < s && 0 <= j < entry.senses@[a].pos@.len() ==> !wanted@.contains(
                    #[trigger] entry.senses@[a].pos@[j],
                ),
        decreases entry.senses@.len() - s,
    {
        let tags = &entry.senses[s].pos;
        let mut j: usize = 0;
        while j < tags.len()
            invariant
                s < entry.senses@.len(),
                *tags == entry.senses@[s as int].pos,
                j <= tags@.len(),
                forall|b: int| 0 <= b < j ==> !wanted@.contains(#[trigger] tags@[b]),
            decreases tags@.len() - j,
        {
            if has_pos(wanted, tags[j]) {
                return true;
            }
            j = j + 1;
        }
        s = s + 1;
    }
    false
}

impl Dictionary {
    /// The entries that have one of `levels` and a sense tagged with one
    /// of `pos`, in dictionary order.
    pub fn subset(&self, levels: &[NLevel], pos: &[Pos]) -> (sub: Vec<Arc<DictEntry>>)
        ensures
            sub@ == self.entries@.filter(|e: Arc<DictEntry>| in_subset(*e, levels@, pos@)),
    {
        let ghost p = |e: Arc<DictEntry>| in_subset(*e, levels@, pos@);
        let ghost all = self.entries@;
        let mut sub: Vec<Arc<DictEntry>> = Vec::new();
        let mut i: usize = 0;
        proof {
            assert(all.take(0).filter(p) =~= Seq::<Arc<DictEntry>>::empty()) by {
                reveal_with_fuel(Seq::filter, 1);
            }
        }
        while i < self.entries.len()
            invariant
                p == (|e: Arc<DictEntry>| in_subset(*e, levels@, pos@)),
                all == self.entries@,
                i <= all.len(),
                sub@ == all.take(i as int).filter(p),
            decreases all.len() - i,
        {
            let entry = &self.entries[i];
            let keep = any_level_in(&entry.levels(), levels) && any_pos_in(entry, pos);
            proof {
                assert(all.take(i + 1) =~= all.take(i as int).push(all[i as int]));
                all.take(i as int).lemma_filter_push(all[i as int], p);
            }
            if keep {
                sub.push(share(entry));
            }
            i = i + 1;
        }
        proof {
            assert(all.take(all.len() as int) =~= all);
        }
        sub
    }

    /// A randomized subset of the entries: the entries that have one of
    /// `levels` and a sense tagged with one of `pos`, shuffled.
    pub fn sample(&self, levels: &[NLevel], pos: &[Pos]) -> (sample: Vec<Arc<DictEntry>>)
        ensures
            sample@.to_multiset() == self.entries@.filter(
                |e: Arc<DictEntry>| in_subset(*e, levels@, pos@),
            ).to_multiset(),
    {
        let mut sample = self.subset(levels, pos);
        crate::random::shuffle(sample.as_mut_slice());
        sample
    }
}

/// An entry is in the subset for `levels` and `pos` exactly when some
/// reading or some kanji of it is tagged with one of `levels`, and some
/// sense of it is tagged with one of `pos`. So a subset keeps an entry
/// of the dictionary exactly when it meets both, in dictionary order.
pub proof fn law_subset_membership(dictionary: Dictionary, levels: Seq<NLevel>, pos: Seq<Pos>, entry: DictEntry)
    ensures
        in_subset(entry, levels, pos) <==> ((exists|r: int, k: int|
            0 <= r < entry.readings@.len() && 0 <= k < entry.readings@[r].levels@.len() && levels.contains(
                #[trigger] entry.readings@[r].levels@[k],
            )) || (exists|r: int, k: int|
            0 <= r < entry.kanjis@.len() && 0 <= k < entry.kanjis@[r].levels@.len() && levels.contains(
                #[trigger] entry.kanjis@[r].levels@[k],
            ))) && (exists|s: int, j: int|
            0 <= s < entry.senses@.len() && 0 <= j < entry.senses@[s].pos@.len() && pos.contains(
                #[trigger] entry.senses@[s].pos@[j],
            )),
        forall|e: Arc<DictEntry>|
            #![auto]
            dictionary.entries@.filter(|x: Arc<DictEntry>| in_subset(*x, levels, pos)).contains(e)
                <==> dictionary.entries@.contains(e) && in_subset(*e, levels, pos),
{
    let sl = spec_levels(&entry);
    let by_tag = (exists|r: int, k: int|
        0 <= r < entry.readings@.len() && 0 <= k < entry.readings@[r].levels@.len() && levels.contains(
            #[trigger] entry.readings@[r].levels@[k],
        )) || (exists|r: int, k: int|
        0 <= r < entry.kanjis@.len() && 0 <= k < entry.kanjis@[r].levels@.len() && levels.contains(
            #[trigger] entry.kanjis@[r].levels@[k],
        ));
    let listed = exists|i: int| 0 <= i < sl.len() && levels.contains(#[trigger] sl[i]);
    if listed {
        let i = choose|i: int| 0 <= i < sl.len() && levels.contains(#[trigger] sl[i]);
        let l = sl[i];
        assert(sl.contains(l));
        lemma_level_listed(&entry, l);
        if crate::dictionary::readings_have_level(entry.readings@, l) {
            let r = choose|r: int| 0 <= r < entry.readings@.len() && (#[trigger] entry.readings@[r]).levels@.contains(l);
            let k = choose|k: int| 0 <= k < entry.readings@[r].levels@.len() && entry.readings@[r].levels@[k] == l;
            assert(levels.contains(entry.readings@[r].levels@[k]));
        } else {
            let r = choose|r: int| 0 <= r < entry.kanjis@.len() && (#[trigger] entry.kanjis@[r]).levels@.contains(l);
            let k = choose|k: int| 0 <= k < entry.kanjis@[r].levels@.len() && entry.kanjis@[r].levels@[k] == l;
            assert(levels.contains(entry.kanjis@[r].levels@[k]));
        }
    }
    if by_tag {
        let l = if exists|r: int, k: int|
            0 <= r < entry.readings@.len() && 0 <= k < entry.readings@[r].levels@.len() && levels.contains(
                #[trigger] entry.readings@[r].levels@[k],
            ) {
            let (r, k) = choose|r: int, k: int|
                0 <= r < entry.readings@.len() && 0 <= k < entry.readings@[r].levels@.len() && levels.contains(
                    #[trigger] entry.readings@[r].levels@[k],
                );
            assert(entry.readings@[r].levels@.contains(entry.readings@[r].levels@[k]));
            entry.readings@[r].levels@[k]
        } else {
            let (r, k) = choose|r: int, k: int|
                0 <= r < entry.kanjis@.len() && 0 <= k < entry.kanjis@[r].levels@.len() && levels.contains(
                    #[trigger] entry.kanjis@[r].levels@[k],
                );
            assert(entry.kanjis@[r].levels@.contains(entry.kanjis@[r].levels@[k]));
            entry.kanjis@[r].levels@[k]
        };
        assert(tagged_with(&entry, l));
        lemma_level_listed(&entry, l);
        let i = choose|i: int| 0 <= i < sl.len() && sl[i] == l;
        assert(levels.contains(sl[i]));
    }
    let pf = |x: Arc<DictEntry>| in_subset(*x, levels, pos);
    assert forall|e: Arc<DictEntry>|
        dictionary.entries@.filter(pf).contains(e) <==> dictionary.entries@.contains(e) && pf(e) by {
        if dictionary.entries@.filter(pf).contains(e) {
            dictionary.entries@.lemma_filter_contains_rev(pf, e);
        }
        if dictionary.entries@.contains(e) && pf(e) {
            let i = choose|i: int| 0 <= i < dictionary.entries@.len() && dictionary.entries@[i] == e;
            dictionary.entries@.lemma_filter_contains(pf, i);
        }
    }
}

/// `pos` is among the first `n` tags exactly when it occurs there.
proof fn lemma_occurs_before(tags: Seq<Pos>, pos: Pos, n: nat)
    requires
        n <= tags.len(),
    ensures
        occurrences_before(tags, pos, n) > 0 <==> exists|i: int| 0 <= i < n && tags[i] == pos,
    decreases n,
{
    if n > 0 {
        lemma_occurs_before(tags, pos, (n - 1) as nat);
        if exists|i: int| 0 <= i < n && tags[i] == pos {
            let i = choose|i: int| 0 <= i < n && tags[i] == pos;
            if i < n - 1 {
                assert(exists|j: int| 0 <= j < n - 1 && tags[j] == pos);
            }
        }
    }
}

/// The tags of a list of filters hold a tag exactly when the list holds
/// the filter that the tag belongs to.
pub proof fn law_filters_cover_their_tags(filters: Seq<PosFilter>, pos: Pos)
    ensures
        crate::multi_choice::spec_filters_pos(filters).contains(pos) <==> filters.contains(filter_of(pos)),
    decreases filters.len(),
{
    if filters.len() > 0 {
        let rest = filters.drop_last();
        let last = filters.last();
        law_filters_cover_their_tags(rest, pos);
        law_filters_partition_pos(pos);
        let tags = spec_as_pos(last);
        lemma_occurs_before(tags, pos, tags.len());
        assert(occurrences(tags, pos) == if last == filter_of(pos) { 1nat } else { 0nat });
        let a = crate::multi_choice::spec_filters_pos(rest);
        let all = crate::multi_choice::spec_filters_pos(filters);
        assert(all == a + tags);
        if all.contains(pos) {
            let i = choose|i: int| 0 <= i < all.len() && all[i] == pos;
            if i < a.len() {
                assert(a[i] == pos);
                let j = choose|j: int| 0 <= j < rest.len() && rest[j] == filter_of(pos);
                assert(filters[j] == filter_of(pos));
            } else {
                assert(tags[i - a.len()] == pos);
                assert(filters[filters.len() - 1] == filter_of(pos));
            }
        }
        if filters.contains(filter_of(pos)) {
            let j = choose|j: int| 0 <= j < filters.len() && filters[j] == filter_of(pos);
            if j < filters.len() - 1 {
                assert(rest[j] == filter_of(pos));
                let i = choose|i: int| 0 <= i < a.len() && a[i] == pos;
                assert(all[i] == pos);
            } else {
                let i = choose|i: int| 0 <= i < tags.len() && tags[i] == pos;
                assert(all[a.len() + i] == pos);
            }
        }
    }
}

} // verus!
