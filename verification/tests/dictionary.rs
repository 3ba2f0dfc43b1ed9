use kate_bot::dictionary::{DictEntry, Kanji, NLevel, Reading};

fn reading(text: &str, relevant_to: Vec<&str>, levels: Vec<NLevel>) -> Reading {
    Reading {
        text: text.to_string(),
        relevant_to: relevant_to.into_iter().map(String::from).collect(),
        levels,
        tags: vec![],
    }
}

fn kanji(text: &str, levels: Vec<NLevel>) -> Kanji {
    Kanji { text: text.to_string(), levels, tags: vec![] }
}

fn entry() -> DictEntry {
    DictEntry {
        id: 9,
        kanjis: vec![kanji("生", vec![]), kanji("nama", vec![])],
        readings: vec![reading("なま", vec!["生"], vec![]), reading("せい", vec![], vec![])],
        senses: vec![],
    }
}

#[test]
fn levels_are_sorted_and_unique() {
    let mut e = entry();
    e.readings[0].levels = vec![NLevel::N3, NLevel::N1];
    e.readings[1].levels = vec![NLevel::N3];
    assert_eq!(e.levels(), vec![NLevel::N1, NLevel::N3]);
    assert_eq!(entry().levels(), vec![]);
}

#[test]
fn adding_a_level_tags_the_reading_and_its_kanjis() {
    let mut e = entry();
    assert!(!e.is_annotated());
    e.add_level("なま", NLevel::N2);
    assert!(e.is_annotated());
    assert_eq!(e.readings[0].levels, vec![NLevel::N2]);
    assert_eq!(e.kanjis[0].levels, vec![NLevel::N2]);
    assert_eq!(e.kanjis[1].levels, vec![]);
    e.add_level("なま", NLevel::N2);
    assert_eq!(e.readings[0].levels, vec![NLevel::N2]);
    e.add_level("せい", NLevel::N4);
    assert_eq!(e.kanjis[0].levels, vec![NLevel::N2, NLevel::N4]);
    assert_eq!(e.kanjis[1].levels, vec![NLevel::N4]);
    e.add_level("ない", NLevel::N1);
    assert_eq!(e.levels(), vec![NLevel::N2, NLevel::N4]);
}

#[test]
fn trimming_drops_what_has_no_level() {
    let mut e = entry();
    e.add_level("なま", NLevel::N2);
    e.trim();
    assert_eq!(e.readings.len(), 1);
    assert_eq!(e.readings[0].text, "なま");
    assert_eq!(e.kanjis.len(), 1);
    assert_eq!(e.kanjis[0].text, "生");
    e.trim();
    assert_eq!(e.readings.len(), 1);
    assert_eq!(e.kanjis.len(), 1);
}

#[test]
fn entries_are_equal_by_id() {
    let a = entry();
    let mut b = entry();
    b.readings.clear();
    assert!(a == b);
    b.id = 10;
    assert!(a != b);
}

#[test]
fn level_numbers() {
    assert_eq!(i32::from(NLevel::N1), 1);
    assert_eq!(i32::from(NLevel::N4), 4);
}

#[test]
fn trimming_keeps_levels_and_annotation() {
    let mut e = entry();
    e.kanjis[1].levels = vec![NLevel::N3];
    e.add_level("せい", NLevel::N1);
    let levels = e.levels();
    let annotated = e.is_annotated();
    e.trim();
    assert_eq!(e.levels(), levels);
    assert_eq!(e.is_annotated(), annotated);
    let mut only_kanji = entry();
    only_kanji.kanjis[0].levels = vec![NLevel::N2];
    only_kanji.trim();
    assert!(only_kanji.is_annotated());
    assert!(only_kanji.readings.is_empty());
}

#[test]
fn levels_include_those_on_kanjis() {
    let only_kanji = DictEntry {
        id: 3,
        kanjis: vec![kanji("生", vec![NLevel::N2])],
        readings: vec![],
        senses: vec![],
    };
    assert_eq!(only_kanji.levels(), vec![NLevel::N2]);
    let mut e = entry();
    e.readings[1].levels = vec![NLevel::N4];
    e.kanjis[1].levels = vec![NLevel::N1, NLevel::N4];
    assert_eq!(e.levels(), vec![NLevel::N1, NLevel::N4]);
}
