use kate_bot::dictionary::NLevel;
use kate_bot::question::{Question, QuestionError};
use kate_bot::scoreboard::{ScoreEntry, Scoreboard};
use kate_bot::util::IndexMap;

#[test]
fn a_win_ends_the_round() {
    let mut board = Scoreboard::new();
    assert_eq!(board.rounds(), 0);
    board.add_loss(1);
    board.add_loss(2);
    board.add_win(2);
    board.add_win(1);
    assert_eq!(board.rounds(), 2);
    let one = board.get(1).unwrap();
    assert_eq!((one.wins(), one.losses(), one.attempts()), (1, 1, 2));
    let two = board.get(2).unwrap();
    assert_eq!((two.wins(), two.losses(), two.attempts()), (1, 1, 2));
    assert!(board.get(3).is_none());
    let order: Vec<u64> = board.iter().map(|(user, _)| *user).collect();
    assert_eq!(order, vec![1, 2]);
    let d = Scoreboard::default();
    assert_eq!(d.rounds(), 0);
}

#[test]
fn score_entries_count() {
    let mut s = ScoreEntry::new();
    s.add_win();
    s.add_win();
    s.add_loss();
    assert_eq!((s.wins(), s.losses(), s.attempts()), (2, 1, 3));
    let d = ScoreEntry::default();
    assert_eq!(d.attempts(), 0);
}

#[test]
fn questions_check_their_answer() {
    let q = Question::<0>::new("p".to_string(), [], 0, vec![]);
    assert!(matches!(q, Err(QuestionError::EmptyChoices)));
    let q = Question::new("p".to_string(), ["a".to_string(), "b".to_string()], 2, vec![]);
    assert!(matches!(q, Err(QuestionError::AnswerOutOfRange)));
    assert_eq!(QuestionError::EmptyChoices.message(), "Choices array must not be empty");
    assert_eq!(
        QuestionError::AnswerOutOfRange.message(),
        "Answer index must be in range of choices array"
    );
    let mut q = Question::new("p".to_string(), ["a".to_string(), "b".to_string(), "c".to_string()], 1, vec![NLevel::N3])
        .unwrap();
    assert_eq!(q.prompt(), "p");
    assert_eq!(q.answer(), "b");
    assert_eq!(q.answer_idx(), 1);
    assert_eq!(q.difficulty(), &vec![NLevel::N3]);
    assert!(!q.guess(0));
    assert_eq!(q.guessed(), &[true, false, false]);
    assert!(!q.guess(7));
    assert_eq!(q.guessed(), &[true, false, false]);
    assert!(q.guess(1));
    assert_eq!(q.guessed(), &[true, true, true]);
    assert!(!q.guess(2));
    assert_eq!(q.guessed(), &[true, true, true]);
    assert_eq!(q.choices(), &["a".to_string(), "b".to_string(), "c".to_string()]);
}

#[test]
fn index_map_reads_back_writes() {
    let mut m: IndexMap<u64, &str> = IndexMap::new();
    assert_eq!(m.len(), 0);
    assert_eq!(m.insert((1, "a")), None);
    assert_eq!(m.insert((2, "b")), None);
    assert_eq!(m.insert((1, "c")), Some("a"));
    assert_eq!(m.len(), 2);
    assert_eq!(m.get(&1), Some(&"c"));
    assert!(m.contains_key(&2));
    assert_eq!(m.remove(&1), Some("c"));
    assert_eq!(m.remove(&1), None);
    assert!(!m.contains_key(&1));
    assert_eq!(m.get(&1), None);
    *m.get_or_insert(3, "x") = "y";
    assert_eq!(m.get(&3), Some(&"y"));
    assert_eq!(*m.get_or_insert(3, "z"), "y");
    *m.get_or_insert_with(4, || "w") = "v";
    assert_eq!(m.get(&4), Some(&"v"));
    let keys: Vec<u64> = m.iter().map(|(k, _)| *k).collect();
    assert_eq!(keys, vec![2, 3, 4]);
}

#[test]
fn removal_moves_the_last_entry_into_the_gap() {
    let mut m: IndexMap<u64, u8> = IndexMap::default();
    m.insert((1, 1));
    m.insert((2, 2));
    m.insert((3, 3));
    m.remove(&1);
    let keys: Vec<u64> = m.iter().map(|(k, _)| *k).collect();
    assert_eq!(keys, vec![3, 2]);
}

#[test]
fn removing_a_new_key_undoes_its_insertion() {
    let mut m: IndexMap<u64, u8> = IndexMap::new();
    m.insert((1, 10));
    m.insert((2, 20));
    m.remove(&2);
    assert_eq!(m.len(), 1);
    assert_eq!(m.get(&1), Some(&10));
    assert!(!m.contains_key(&2));
}

#[test]
fn boards_and_maps_hand_out_their_entries_in_order() {
    let mut board = Scoreboard::new();
    board.add_loss(7);
    board.add_win(3);
    board.add_win(7);
    let owned: Vec<(u64, u32, u32)> = board
        .into_iter()
        .map(|(user, score)| (user, score.wins(), score.losses()))
        .collect();
    assert_eq!(owned, vec![(7, 1, 1), (3, 1, 0)]);

    let mut m: IndexMap<u64, char> = IndexMap::new();
    m.insert((5, 'a'));
    m.insert((2, 'b'));
    m.insert((5, 'c'));
    let pairs: Vec<(u64, char)> = m.into_iter().collect();
    assert_eq!(pairs, vec![(5, 'c'), (2, 'b')]);
}

#[test]
fn replacing_a_value_keeps_its_place_and_removal_swaps_in_the_last() {
    let mut m: IndexMap<i32, char> = IndexMap::new();
    assert_eq!(m.insert((1, 'a')), None);
    assert_eq!(m.insert((2, 'b')), None);
    assert_eq!(m.insert((1, 'c')), Some('a'));
    assert_eq!(m.len(), 2);
    assert_eq!(m.get(&1), Some(&'c'));
    assert_eq!(m.iter().collect::<Vec<_>>(), vec![&(1, 'c'), &(2, 'b')]);
    m.insert((3, 'd'));
    assert_eq!(m.remove(&1), Some('c'));
    assert_eq!(m.iter().collect::<Vec<_>>(), vec![&(3, 'd'), &(2, 'b')]);
    *m.get_or_insert(4, 'e') = 'f';
    *m.get_or_insert(2, 'x') = 'y';
    assert_eq!(m.iter().collect::<Vec<_>>(), vec![&(3, 'd'), &(2, 'y'), &(4, 'f')]);
    assert_eq!(m.remove(&4), Some('f'));
    assert_eq!(m.iter().collect::<Vec<_>>(), vec![&(3, 'd'), &(2, 'y')]);
}

#[test]
fn rounds_equal_the_wins_of_all_players() {
    let mut board = Scoreboard::new();
    board.add_win(4);
    board.add_loss(9);
    board.add_win(9);
    board.add_loss(4);
    board.add_win(4);
    let total: u32 = board.iter().map(|(_, s)| s.wins()).sum();
    assert_eq!(board.rounds(), total);
    assert_eq!(board.rounds(), 3);
}
