use std::sync::Arc;

use kate_bot::catalog::Dictionary;
use kate_bot::dictionary::{DictEntry, Gloss, Kanji, NLevel, Pos, Reading, Sense};
use kate_bot::tverbs::{
    string_to_vec, tverb_pairs, tverb_pooled_pairs, ContextPoolRecord, TSuffix,
};

fn entry(id: u32, kanji: &str, reading: &str, pos: Vec<Pos>, levels: Vec<NLevel>) -> DictEntry {
    DictEntry {
        id,
        kanjis: vec![Kanji { text: kanji.to_string(), levels: vec![], tags: vec![] }],
        readings: vec![Reading {
            text: reading.to_string(),
            relevant_to: vec![],
            levels,
            tags: vec![],
        }],
        senses: vec![Sense {
            relevant_kanji: vec![],
            relevant_reading: vec![],
            pos,
            gloss: vec![Gloss { content: "gloss".to_string() }],
        }],
    }
}

fn dictionary() -> Dictionary {
    let entries = vec![
        entry(1, "上がる", "あがる", vec![Pos::V5r, Pos::Vi], vec![NLevel::N4]),
        entry(2, "上げる", "あげる", vec![Pos::V1, Pos::Vt], vec![NLevel::N4]),
        entry(3, "閉まる", "しまる", vec![Pos::V5r, Pos::Vi], vec![NLevel::N3]),
        entry(4, "閉める", "しめる", vec![Pos::V1, Pos::Vt], vec![NLevel::N3]),
        entry(5, "閉める", "とめる", vec![Pos::V1, Pos::Vt], vec![NLevel::N2]),
        entry(1593430, "籠もる", "こもる", vec![Pos::V5r, Pos::Vi], vec![NLevel::N1]),
        entry(1170650, "籠める", "こめる", vec![Pos::V1, Pos::Vt], vec![NLevel::N1]),
        entry(6, "回す", "まわす", vec![Pos::V5s, Pos::Vt, Pos::Vi], vec![NLevel::N3]),
    ];
    Dictionary { entries: entries.into_iter().map(Arc::new).collect() }
}

fn suffixes() -> Vec<TSuffix> {
    vec![
        TSuffix { intrans: "がる".to_string(), trans: "げる".to_string() },
        TSuffix { intrans: "まる".to_string(), trans: "める".to_string() },
        TSuffix { intrans: "もる".to_string(), trans: "める".to_string() },
    ]
}

fn record(intrans: &str, trans: &str, nouns: &str, tnouns: &str, subjects: &str) -> ContextPoolRecord {
    ContextPoolRecord {
        intrans: intrans.to_string(),
        trans: trans.to_string(),
        intrans_nouns: string_to_vec(nouns),
        trans_nouns: string_to_vec(tnouns),
        trans_subjects: string_to_vec(subjects),
    }
}

#[test]
fn test_verb_pairs() {
    let dictionary = dictionary();
    let pairs = tverb_pairs(&dictionary, &suffixes());

    pairs.iter().enumerate().for_each(|(idx, p)| {
        println!("({idx}) Intrans: {}, Trans: {}", p.intrans_kanji(), p.trans_kanji());
        println!("[{},{}]\n", p.intrans_entry().id, p.trans_entry().id);
    });

    // 閉まる matches two transitive entries and is left out as ambiguous.
    assert_eq!(pairs.len(), 2);
    assert_eq!(pairs[0].intrans_kanji(), "上がる");
    assert_eq!(pairs[0].trans_kanji(), "上げる");
    assert_eq!(pairs[0].intrans_entry().id, 1);
    assert_eq!(pairs[0].trans_entry().id, 2);
    assert_eq!(pairs[1].intrans_kanji(), "籠もる");
    assert_eq!(pairs[1].trans_kanji(), "籠める");
}

#[test]
fn test_context_pools() {
    let dict = dictionary();
    let records = vec![
        record("上がる", "上げる", "幕, 温度", "手,旗", "私, 彼"),
        record("籠もる", "籠める", "熱", "心", "母"),
    ];
    let pooled = tverb_pooled_pairs(&dict, &suffixes(), records);
    assert_eq!(pooled.len(), 2);
    assert_eq!(pooled[0].intrans_nouns(), &["幕".to_string(), "温度".to_string()]);
    assert_eq!(pooled[0].trans_nouns(), &["手".to_string(), "旗".to_string()]);
    assert_eq!(pooled[0].trans_subjects(), &["私".to_string(), "彼".to_string()]);
    // The spelling of this pair is corrected by hand.
    assert_eq!(pooled[1].intrans_kanji(), "籠る");
    assert_eq!(pooled[1].trans_kanji(), "籠める");
}

#[test]
fn pairs_without_pools_are_left_out() {
    let dict = dictionary();
    let records = vec![record("上がる", "上げる", "幕", "手", "私")];
    let pooled = tverb_pooled_pairs(&dict, &suffixes(), records);
    assert_eq!(pooled.len(), 1);
    assert_eq!(pooled[0].intrans_kanji(), "上がる");
}

#[test]
fn later_record_replaces_pools() {
    let dict = dictionary();
    let records = vec![
        record("上がる", "上げる", "幕", "手", "私"),
        record("上がる", "上げる", "温度", "旗", "彼"),
    ];
    let pooled = tverb_pooled_pairs(&dict, &suffixes(), records);
    assert_eq!(pooled.len(), 1);
    assert_eq!(pooled[0].intrans_nouns(), &["温度".to_string()]);
    assert_eq!(pooled[0].trans_subjects(), &["彼".to_string()]);
}

#[test]
fn string_to_vec_splits_and_trims() {
    assert_eq!(string_to_vec(" a, b ,c "), vec!["a", "b", "c"]);
    assert_eq!(string_to_vec(""), vec![""]);
    assert_eq!(string_to_vec("x,,y"), vec!["x", "", "y"]);
}

#[test]
fn verbs_tagged_both_ways_are_not_paired() {
    let entries = vec![
        entry(10, "回る", "まわる", vec![Pos::Vi, Pos::Vt], vec![NLevel::N3]),
        entry(11, "回す", "まわす", vec![Pos::Vt], vec![NLevel::N3]),
    ];
    let dict = Dictionary { entries: entries.into_iter().map(Arc::new).collect() };
    let sufs = vec![TSuffix { intrans: "る".to_string(), trans: "す".to_string() }];
    assert!(tverb_pairs(&dict, &sufs).is_empty());
}

#[test]
fn pairs_spelled_alike_share_pools() {
    let entries = vec![
        entry(20, "回る", "まわる", vec![Pos::Vi], vec![NLevel::N3]),
        entry(21, "回る", "めぐる", vec![Pos::Vi], vec![NLevel::N2]),
        entry(22, "回す", "まわす", vec![Pos::Vt], vec![NLevel::N3]),
    ];
    let dict = Dictionary { entries: entries.into_iter().map(Arc::new).collect() };
    let sufs = vec![TSuffix { intrans: "る".to_string(), trans: "す".to_string() }];
    let records = vec![record("回る", "回す", "こま", "コマ", "子供")];
    let pooled = tverb_pooled_pairs(&dict, &sufs, records);
    assert_eq!(pooled.len(), 2);
    assert_eq!(pooled[0].intrans_entry().id, 20);
    assert_eq!(pooled[1].intrans_entry().id, 21);
    assert_eq!(pooled[0].intrans_nouns(), pooled[1].intrans_nouns());
    assert_eq!(pooled[0].trans_subjects(), pooled[1].trans_subjects());
}
