use std::sync::Arc;

use kate_bot::dictionary::{DictEntry, NLevel, Reading};
use kate_bot::question::Question;
use kate_bot::session::{
    exit_message, insult_message, menu_choice_from_groups, menu_id, parse_custom_id,
    parse_session_id, session_id_from_match, session_step, InteractionExitReason, Menu, SessionAction,
    SessionAlreadyCreated, SessionEvent,
};

fn entry() -> Arc<DictEntry> {
    Arc::new(DictEntry {
        id: 1,
        kanjis: vec![],
        readings: vec![
            Reading { text: "ねこ".to_string(), relevant_to: vec![], levels: vec![NLevel::N4, NLevel::N2], tags: vec![] },
            Reading { text: "ねこま".to_string(), relevant_to: vec![], levels: vec![NLevel::N4], tags: vec![] },
        ],
        senses: vec![],
    })
}

fn question() -> Question<5> {
    let choices = ["a".to_string(), "b".to_string(), "cat".to_string(), "d".to_string(), "e".to_string()];
    Question::new("ねこ".to_string(), choices, 2, vec![NLevel::N4]).unwrap()
}

#[test]
fn exit_messages() {
    assert_eq!(exit_message(InteractionExitReason::PoolExhausted), Some("There are no more words left in the pool"));
    assert_eq!(exit_message(InteractionExitReason::Timeout), Some("Stopping game due to inactivity..."));
    assert_eq!(exit_message(InteractionExitReason::NetworkError), Some("Stopping game due to network error..."));
    assert_eq!(exit_message(InteractionExitReason::CloseRequest), None);
    assert_eq!(SessionAlreadyCreated.message(), "User has already created a session");
}

#[test]
fn session_ids_are_the_leading_digits() {
    assert_eq!(parse_session_id("123,abc"), Some(123));
    assert_eq!(parse_session_id("42"), Some(42));
    assert_eq!(parse_session_id("abc,1"), None);
    assert_eq!(parse_session_id(",1"), None);
    assert_eq!(parse_session_id("99999999999999999999,1"), None);
    assert_eq!(session_id_from_match(Some("0077".to_string())), Some(77));
    assert_eq!(session_id_from_match(None), None);
}

#[test]
fn custom_ids_name_a_menu_and_a_choice() {
    assert_eq!(parse_custom_id("menu,3"), Some(("menu".to_string(), 3)));
    assert_eq!(parse_custom_id("12,ab-cd,4"), Some(("12,ab-cd".to_string(), 4)));
    assert_eq!(parse_custom_id(",0"), Some((String::new(), 0)));
    assert_eq!(parse_custom_id("menu,5"), None);
    assert_eq!(parse_custom_id("menu,34"), None);
    assert_eq!(parse_custom_id("menu"), None);
    assert_eq!(
        menu_choice_from_groups(Some(vec![Some("x,1".to_string()), Some("x".to_string()), Some("1".to_string())])),
        Some(("x".to_string(), 1))
    );
    assert_eq!(menu_choice_from_groups(Some(vec![Some("x".to_string()), None, Some("1".to_string())])), None);
    assert_eq!(menu_choice_from_groups(None), None);
}

#[test]
fn menus_name_their_buttons() {
    let menu = Menu::new("m1".to_string(), &question(), entry());
    let ids: Vec<&str> = menu.buttons().iter().map(|b| b.id.as_str()).collect();
    assert_eq!(ids, vec!["m1,0", "m1,1", "m1,2", "m1,3", "m1,4"]);
    assert_eq!(menu.answer_id(), "m1,2");
    assert_eq!(menu.answer_text(), "cat");
    assert_eq!(menu.prompt(), "ねこ");
    assert_eq!(menu.levels(), vec![NLevel::N2, NLevel::N4]);
    assert!(menu.buttons().iter().all(|b| !b.disabled));
}

#[test]
fn wrong_picks_disable_one_button_and_right_ones_all() {
    let mut menu = Menu::new("m1".to_string(), &question(), entry());
    assert_eq!(menu.pick("other", 2), None);
    assert!(menu.buttons().iter().all(|b| !b.disabled));
    assert_eq!(menu.pick("m1", 0), Some(false));
    let disabled: Vec<bool> = menu.buttons().iter().map(|b| b.disabled).collect();
    assert_eq!(disabled, vec![true, false, false, false, false]);
    assert_eq!(menu.pick("m1", 2), Some(true));
    assert!(menu.buttons().iter().all(|b| b.disabled));
}

#[test]
fn menu_ids_start_with_the_session() {
    let id = menu_id(55);
    assert!(id.starts_with("55,"));
    assert_eq!(parse_session_id(&id), Some(55));
    assert_ne!(menu_id(55), id);
}

#[test]
fn insults_mention_the_user_and_the_choice() {
    let insults = vec!["boo".to_string()];
    assert_eq!(insult_message(&insults, 12, "cat"), "boo <@12> (cat)");
}

#[test]
fn sessions_skip_unaskable_entries_and_stop_for_a_reason() {
    assert_eq!(session_step(SessionEvent::Drawn(false)), SessionAction::NextEntry);
    assert_eq!(session_step(SessionEvent::Drawn(true)), SessionAction::SendMenu);
    assert_eq!(session_step(SessionEvent::MenuSent(true)), SessionAction::AwaitPicks);
    assert_eq!(
        session_step(SessionEvent::MenuSent(false)),
        SessionAction::Stop(InteractionExitReason::NetworkError)
    );
    assert_eq!(session_step(SessionEvent::RoundOver(None)), SessionAction::NextEntry);
    assert_eq!(
        session_step(SessionEvent::RoundOver(Some(InteractionExitReason::Timeout))),
        SessionAction::Stop(InteractionExitReason::Timeout)
    );
    assert_eq!(
        session_step(SessionEvent::SampleExhausted),
        SessionAction::Stop(InteractionExitReason::PoolExhausted)
    );
}
