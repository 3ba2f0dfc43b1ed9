use std::sync::Arc;

use kate_bot::catalog::Dictionary;
use kate_bot::dictionary::{DictEntry, Gloss, Kanji, NLevel, Pos, Reading, Sense};
use kate_bot::transitivity::Service;
use kate_bot::tverbs::{string_to_vec, tverb_pooled_pairs, ContextPoolRecord, TSuffix, TVerbPooledPair};

fn entry(id: u32, kanji: &str, reading: Option<&str>, pos: Vec<Pos>, level: NLevel) -> DictEntry {
    DictEntry {
        id,
        kanjis: vec![Kanji { text: kanji.to_string(), levels: vec![], tags: vec![] }],
        readings: reading
            .map(|r| {
                vec![Reading { text: r.to_string(), relevant_to: vec![], levels: vec![level], tags: vec![] }]
            })
            .unwrap_or_default(),
        senses: vec![Sense {
            relevant_kanji: vec![],
            relevant_reading: vec![],
            pos,
            gloss: vec![Gloss { content: "g".to_string() }],
        }],
    }
}

fn pooled() -> Vec<Arc<TVerbPooledPair>> {
    let entries = vec![
        entry(1, "上がる", Some("あがる"), vec![Pos::Vi], NLevel::N4),
        entry(2, "上げる", Some("あげる"), vec![Pos::Vt], NLevel::N4),
        entry(3, "閉まる", Some("しまる"), vec![Pos::Vi], NLevel::N2),
        entry(4, "閉める", None, vec![Pos::Vt], NLevel::N2),
    ];
    let dict = Dictionary { entries: entries.into_iter().map(Arc::new).collect() };
    let sufs = vec![
        TSuffix { intrans: "がる".to_string(), trans: "げる".to_string() },
        TSuffix { intrans: "まる".to_string(), trans: "める".to_string() },
    ];
    let records = vec![
        ContextPoolRecord {
            intrans: "上がる".to_string(),
            trans: "上げる".to_string(),
            intrans_nouns: string_to_vec("幕"),
            trans_nouns: string_to_vec("旗"),
            trans_subjects: string_to_vec("私"),
        },
        ContextPoolRecord {
            intrans: "閉まる".to_string(),
            trans: "閉める".to_string(),
            intrans_nouns: string_to_vec("ドア"),
            trans_nouns: string_to_vec("窓"),
            trans_subjects: string_to_vec("彼"),
        },
    ];
    tverb_pooled_pairs(&dict, &sufs, records).into_iter().map(Arc::new).collect()
}

#[test]
fn game_asks_only_pairs_at_its_levels() {
    let pairs = pooled();
    assert_eq!(pairs.len(), 2);
    let mut service = Service::new(&pairs, vec![NLevel::N4]);
    assert_eq!(service.levels(), &[NLevel::N4]);
    assert!(service.question().is_none());

    service.next_round();
    let q = service.question().expect("one pair is at N4");
    let choices = q.choices();
    let intrans = "上がる (あがる)".to_string();
    let trans = "上げる (あげる)".to_string();
    assert!(choices.contains(&intrans) && choices.contains(&trans));
    if q.prompt() == "幕 が ___" {
        assert_eq!(q.answer(), intrans);
        assert_eq!(q.difficulty(), &vec![NLevel::N4]);
    } else {
        assert!(q.prompt() == "私 が 旗 を ___" || q.prompt() == "私 は 旗 を ___", "{}", q.prompt());
        assert_eq!(q.answer(), trans);
    }
    assert_eq!(q.guessed(), &[false, false]);

    service.next_round();
    assert!(service.question().is_none());
}

#[test]
fn verb_without_reading_is_shown_by_kanji() {
    let pairs = pooled();
    let mut service = Service::new(&pairs, vec![NLevel::N2]);
    service.next_round();
    let q = service.question().expect("one pair is at N2");
    assert!(q.choices().contains(&"閉まる (しまる)".to_string()));
    assert!(q.choices().contains(&"閉める".to_string()));
}

#[test]
fn first_pick_marks_every_choice() {
    let pairs = pooled();
    let mut service = Service::new(&pairs, vec![NLevel::N4, NLevel::N2]);
    service.next_round();
    let answer = service.question().unwrap().answer_idx();
    let wrong = 1 - answer;

    assert!(!service.select_choice(7, wrong));
    assert_eq!(service.question().unwrap().guessed(), &[true, true]);
    assert_eq!(service.round(), 0);
    let score = service.scoreboard().get(7).unwrap();
    assert_eq!((score.wins(), score.losses()), (0, 1));

    assert!(service.select_choice(8, answer));
    assert_eq!(service.round(), 1);
    assert_eq!(service.scoreboard().get(8).unwrap().wins(), 1);
}

#[test]
fn pick_without_question_does_not_count() {
    let pairs = pooled();
    let mut service = Service::new(&pairs, vec![NLevel::N1]);
    service.next_round();
    assert!(service.question().is_none());
    assert!(!service.select_choice(1, 0));
    assert!(service.scoreboard().get(1).is_none());
}
