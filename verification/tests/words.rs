use std::sync::Arc;

use kate_bot::catalog::{Dictionary, PosFilter};
use kate_bot::combine::{annotate, dict_entries, BLACKLISTED_ID};
use kate_bot::dictionary::{DictEntry, Gloss, Kanji, NLevel, Pos, Reading, Sense};
use kate_bot::jlpt::{entry_fields, extract_entry, JlptEntry};
use kate_bot::modes::{ModeChoice, MultiChoiceMode};
use kate_bot::multi_choice::{filters_to_pos, GameSettings, Service};

fn entry(id: u32, kanji: Option<&str>, reading: &str, gloss: &str, pos: Pos, levels: Vec<NLevel>) -> DictEntry {
    DictEntry {
        id,
        kanjis: kanji.map(|k| vec![Kanji { text: k.to_string(), levels: vec![], tags: vec![] }]).unwrap_or_default(),
        readings: vec![Reading { text: reading.to_string(), relevant_to: vec![], levels, tags: vec![] }],
        senses: vec![Sense {
            relevant_kanji: vec![],
            relevant_reading: vec![],
            pos: vec![pos],
            gloss: vec![Gloss { content: gloss.to_string() }],
        }],
    }
}

#[test]
fn vocabulary_lines() {
    assert_eq!(extract_entry("愛 あい"), Some(("あい".to_string(), Some("愛".to_string()))));
    assert_eq!(extract_entry("あいさつ"), Some(("あいさつ".to_string(), None)));
    assert_eq!(extract_entry("会う あう（note here）"), Some(("あう".to_string(), Some("会う".to_string()))));
    assert_eq!(extract_entry("# comment"), None);
    assert_eq!(extract_entry(""), None);
    assert_eq!(extract_entry("〜さん ~さん"), None);
    assert_eq!(entry_fields("a b c"), Some(vec!["a".to_string(), "b".to_string(), "c".to_string()]));
}

#[test]
fn levels_go_to_the_named_entries() {
    let mut entries = vec![
        entry(1, Some("生"), "なま", "raw", Pos::N, vec![]),
        entry(2, Some("名間"), "なま", "other", Pos::N, vec![]),
        entry(3, None, "ねこ", "cat", Pos::N, vec![]),
    ];
    let words = vec![
        JlptEntry { hiragana: "なま".to_string(), kanji: Some("生".to_string()), level: NLevel::N2 },
        JlptEntry { hiragana: "ねこ".to_string(), kanji: None, level: NLevel::N4 },
        JlptEntry { hiragana: "なま".to_string(), kanji: None, level: NLevel::N1 },
    ];
    annotate(&mut entries, &words);
    assert_eq!(entries[0].readings[0].levels, vec![NLevel::N2]);
    assert_eq!(entries[0].kanjis[0].levels, vec![NLevel::N2]);
    assert_eq!(entries[1].readings[0].levels, vec![]);
    assert_eq!(entries[2].readings[0].levels, vec![NLevel::N4]);
}

#[test]
fn written_entries_are_annotated_and_distinct() {
    let entries = vec![
        entry(1, None, "あ", "a", Pos::N, vec![NLevel::N1]),
        entry(2, None, "い", "i", Pos::N, vec![]),
        entry(BLACKLISTED_ID, None, "う", "u", Pos::N, vec![NLevel::N1]),
        entry(1, None, "え", "e", Pos::N, vec![NLevel::N3]),
    ];
    let out = dict_entries(entries);
    assert_eq!(out.len(), 1);
    assert_eq!(out[0].id, 1);
    assert_eq!(out[0].readings[0].text, "え");
}

#[test]
fn filters_stand_for_tags() {
    assert_eq!(PosFilter::Conjunctions.as_pos(), vec![Pos::Conj]);
    assert_eq!(PosFilter::Nouns.as_pos().len(), 7);
    assert_eq!(PosFilter::Verbs.as_pos().len(), 59);
    assert_eq!(PosFilter::Other.as_pos().len(), 20);
    assert_eq!(filters_to_pos(&vec![PosFilter::Expressions, PosFilter::Conjunctions]), vec![Pos::Exp, Pos::Int, Pos::Conj]);
}

#[test]
fn modes_convert() {
    assert_eq!(ModeChoice::from(MultiChoiceMode::KanToEng), ModeChoice::KanToEng);
    let back: Result<MultiChoiceMode, &'static str> = ModeChoice::HirToKan.try_into();
    assert_eq!(back, Ok(MultiChoiceMode::HirToKan));
    let none: Result<MultiChoiceMode, &'static str> = ModeChoice::VerbT.try_into();
    assert_eq!(none, Err("Invalid variant for MultiChoiceMode"));
}

fn dictionary() -> Arc<Dictionary> {
    let entries = vec![
        entry(1, Some("猫"), "ねこ", "cat", Pos::N, vec![NLevel::N4]),
        entry(2, Some("犬"), "いぬ", "dog", Pos::N, vec![NLevel::N4]),
        entry(3, Some("鳥"), "とり", "bird", Pos::N, vec![NLevel::N3]),
        entry(4, Some("走る"), "はしる", "run", Pos::V5r, vec![NLevel::N4]),
    ];
    Arc::new(Dictionary { entries: entries.into_iter().map(Arc::new).collect() })
}

#[test]
fn subsets_filter_by_level_and_tag() {
    let dict = dictionary();
    let ids: Vec<u32> = dict.subset(&[NLevel::N4], &[Pos::N]).iter().map(|e| e.id).collect();
    assert_eq!(ids, vec![1, 2]);
    let mut sample: Vec<u32> = dict.sample(&[NLevel::N4, NLevel::N3], &[Pos::N]).iter().map(|e| e.id).collect();
    sample.sort();
    assert_eq!(sample, vec![1, 2, 3]);
}

#[test]
fn multiple_choice_game_plays_rounds() {
    let settings = GameSettings { mode: MultiChoiceMode::KanToEng, levels: vec![NLevel::N4], filters: vec![PosFilter::Nouns] };
    let mut service = Service::new(dictionary(), settings);
    assert_eq!(service.mode(), MultiChoiceMode::KanToEng);
    assert_eq!(service.levels(), &vec![NLevel::N4]);
    let mut asked = Vec::new();
    loop {
        service.next_round();
        let Some(q) = service.question() else { break };
        let prompt = q.prompt().to_string();
        let answer = q.answer().to_string();
        assert_eq!(q.choices().iter().filter(|c| **c == answer).count(), 1);
        let expected = if prompt == "猫" { "cat" } else { "dog" };
        assert_eq!(answer, expected);
        // With fewer than four other answers, all of them are choices.
        let others: Vec<&str> = if prompt == "猫" { vec!["dog", "bird"] } else { vec!["cat", "bird"] };
        for other in others {
            assert!(q.choices().iter().any(|c| c == other), "{other} missing from {:?}", q.choices());
        }
        assert_eq!(q.choices().iter().filter(|c| c.is_empty()).count(), 2);
        let idx = q.answer_idx();
        assert!(service.select_choice(5, idx));
        asked.push(prompt);
    }
    asked.sort();
    assert_eq!(asked, vec!["犬".to_string(), "猫".to_string()]);
    assert_eq!(service.round(), 2);
    assert_eq!(service.scoreboard().get(5).unwrap().wins(), 2);
}
