use kate_bot::interaction::{
    after_pick, choice_id, event_game_id, game_id, lobby_id, parse_choice, parse_u32,
    parse_usize, write_decimal, Retry, RetryResult, RoundHandleResult, MAX_TRIES,
};

#[test]
fn numbers_parse_as_the_standard_library_does() {
    for s in ["0", "7", "+12", "0042", "4294967295", "", "+", "-1", "1 ", " 1", "12a", "４", "4294967296"] {
        assert_eq!(parse_u32(s), s.parse::<u32>().ok(), "{s:?}");
        assert_eq!(parse_usize(s), s.parse::<usize>().ok(), "{s:?}");
    }
    assert_eq!(parse_u32("+12"), Some(12));
    assert_eq!(parse_u32("4294967296"), None);
    assert_eq!(parse_usize("18446744073709551615"), Some(usize::MAX));
}

#[test]
fn numbers_are_written_in_decimal() {
    assert_eq!(write_decimal(0), "0");
    assert_eq!(write_decimal(9), "9");
    assert_eq!(write_decimal(10), "10");
    assert_eq!(write_decimal(1234567890), "1234567890");
    assert_eq!(write_decimal(u64::MAX), u64::MAX.to_string());
}

#[test]
fn choice_ids_read_back() {
    let id = choice_id("987654", 3, 1);
    assert_eq!(id, "987654,3,1");
    assert_eq!(parse_choice(&id, 3, 2), Some(1));
    assert_eq!(game_id(&id), "987654");
}

#[test]
fn stale_or_foreign_choices_are_ignored() {
    let id = choice_id("g", 3, 1);
    assert_eq!(parse_choice(&id, 4, 2), None);
    assert_eq!(parse_choice(&id, 3, 1), None);
    assert_eq!(parse_choice("g,3", 3, 5), None);
    assert_eq!(parse_choice("g,x,1", 3, 5), None);
    assert_eq!(parse_choice("g,+3,4,extra", 3, 5), Some(4));
}

#[test]
fn game_id_is_the_first_field() {
    assert_eq!(game_id("abc,1,2"), "abc");
    assert_eq!(game_id("abc"), "abc");
    assert_eq!(game_id(",1"), "");
}

#[test]
fn lobby_is_the_guild_or_the_user() {
    assert_eq!(lobby_id(Some(5), 9), 5);
    assert_eq!(lobby_id(None, 9), 9);
}

#[test]
fn event_ids_have_one_field() {
    assert_eq!(event_game_id("123"), Some("123".to_string()));
    assert_eq!(event_game_id("123,4"), None);
    assert_eq!(event_game_id(""), Some(String::new()));
}

#[test]
fn three_failures_use_the_retries_up() {
    let mut retry = Retry::new();
    assert_eq!(MAX_TRIES, 3);
    assert_eq!(retry.try_with(|| false), RetryResult::Fail);
    assert_eq!(retry.try_with(|| false), RetryResult::Fail);
    assert_eq!(retry.try_with(|| false), RetryResult::Fail);
    assert!(retry.exhausted());
    let mut ran = false;
    assert_eq!(retry.try_with(|| { ran = true; true }), RetryResult::Terminal);
    assert!(!ran);
}

#[test]
fn a_success_resets_the_count() {
    let mut retry = Retry::new();
    assert_eq!(retry.try_with(|| false), RetryResult::Fail);
    assert_eq!(retry.try_with(|| false), RetryResult::Fail);
    assert_eq!(retry.try_with(|| true), RetryResult::Success);
    assert_eq!(retry.try_with(|| false), RetryResult::Fail);
    assert_eq!(retry.try_with(|| false), RetryResult::Fail);
    assert!(!retry.exhausted());
    assert_eq!(retry.before_try(), None);
    assert_eq!(retry.settle(false), RetryResult::Fail);
    assert_eq!(retry.before_try(), Some(RetryResult::Terminal));
}

#[test]
fn rounds_go_on_after_wrong_picks() {
    assert_eq!(after_pick(true, false), RoundHandleResult::NextRound);
    assert_eq!(after_pick(true, true), RoundHandleResult::NextRound);
    assert_eq!(after_pick(false, true), RoundHandleResult::ContinueRound);
    assert_eq!(after_pick(false, false), RoundHandleResult::NetError);
}

#[test]
fn written_numbers_read_back() {
    for n in [0u32, 7, 10, 99, 100, 4294967295] {
        assert_eq!(parse_u32(&write_decimal(n as u64)), Some(n));
    }
}
