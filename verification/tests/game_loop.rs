use kate_bot::game_loop::{next_action, notice_text, GameKind, LoopAction, LoopEvent, Notice};
use kate_bot::interaction::{RetryResult, RoundHandleResult};

#[test]
fn each_step_leads_to_its_action() {
    assert_eq!(next_action(LoopEvent::RoundStarted(true)), LoopAction::SendPrompt);
    assert_eq!(
        next_action(LoopEvent::RoundStarted(false)),
        LoopAction::Finish(Some(Notice::PoolExhausted))
    );
    assert_eq!(next_action(LoopEvent::PromptSent(RetryResult::Success)), LoopAction::AwaitPick);
    assert_eq!(next_action(LoopEvent::PromptSent(RetryResult::Fail)), LoopAction::NextRound);
    assert_eq!(
        next_action(LoopEvent::PromptSent(RetryResult::Terminal)),
        LoopAction::Abort(Some(Notice::NetworkError))
    );
    assert_eq!(
        next_action(LoopEvent::PickHandled(RoundHandleResult::ContinueRound)),
        LoopAction::AwaitPick
    );
    assert_eq!(
        next_action(LoopEvent::PickHandled(RoundHandleResult::NextRound)),
        LoopAction::NextRound
    );
    assert_eq!(
        next_action(LoopEvent::PickHandled(RoundHandleResult::NetError)),
        LoopAction::Abort(None)
    );
    assert_eq!(next_action(LoopEvent::Closed), LoopAction::Finish(None));
    assert_eq!(next_action(LoopEvent::TimedOut), LoopAction::Finish(Some(Notice::Inactivity)));
}

#[test]
fn notices_read_as_the_games_say_them() {
    assert_eq!(
        notice_text(GameKind::MultiChoice, Notice::PoolExhausted),
        "There are no more words left in the pool..."
    );
    assert_eq!(notice_text(GameKind::Transitivity, Notice::PoolExhausted), "All unique words expended.");
    assert_eq!(
        notice_text(GameKind::Transitivity, Notice::NetworkError),
        "Stopping game due to network error..."
    );
    assert_eq!(notice_text(GameKind::MultiChoice, Notice::Inactivity), "Stopping game due to inactivity...");
}
