//! The decisions of a running game, one step at a time: from what just
//! happened to what the game does next. The program around the library
//! sends the messages and waits for the players; this module decides.

use vstd::prelude::*;

use crate::interaction::{RetryResult, RoundHandleResult};

verus! {

/// The games that run rounds until they stop.
#[derive(Debug, Clone, Copy, PartialEq, Eq, Structural)]
pub enum GameKind {
    /// The multiple choice game over the dictionary.
    MultiChoice,
    /// The verb transitivity game.
    Transitivity,
}

/// What just happened in a running game.
#[derive(Debug, Clone, Copy, PartialEq, Eq, Structural)]
pub enum LoopEvent {
    /// A new round began; whether a question could be picked for it.
    RoundStarted(bool),
    /// The round's prompt was sent, with retries; how that went.
    PromptSent(RetryResult),
    /// A pick of a player was handled; what it means for the round.
    PickHandled(RoundHandleResult),
    /// The game was closed.
    Closed,
    /// Nobody played for too long.
    TimedOut,
}

/// A message that the game sends to its channel as it stops.
#[derive(Debug, Clone, Copy, PartialEq, Eq, Structural)]
pub enum Notice {
    /// No question is left to ask.
    PoolExhausted,
    /// The prompt could not be sent, even after retries.
    NetworkError,
    /// Nobody played for too long.
    Inactivity,
}

/// What the game does next.
#[derive(Debug, Clone, Copy, PartialEq, Eq, Structural)]
pub enum LoopAction {
    /// Send the prompt of the round's question.
    SendPrompt,
    /// Wait for the next pick in this round.
    AwaitPick,
    /// Start the next round.
    NextRound,
    /// Stop the game: send the notice, if any, then show the scoreboard if
    /// anybody played.
    Finish(Option<Notice>),
    /// Stop the game at once: send the notice, if any, and nothing more.
    Abort(Option<Notice>),
}

/// What the game does after `event`.
pub open spec fn spec_next_action(event: LoopEvent) -> LoopAction {
    match event {
        LoopEvent::RoundStarted(has_question) => if has_question {
            LoopAction::SendPrompt
        } else {
            LoopAction::Finish(Some(Notice::PoolExhausted))
        },
        LoopEvent::PromptSent(sent) => match sent {
            RetryResult::Success => LoopAction::AwaitPick,
            RetryResult::Fail => LoopAction::NextRound,
            RetryResult::Terminal => LoopAction::Abort(Some(Notice::NetworkError)),
        },
        LoopEvent::PickHandled(result) => match result {
            RoundHandleResult::ContinueRound => LoopAction::AwaitPick,
            RoundHandleResult::NextRound => LoopAction::NextRound,
            RoundHandleResult::NetError => LoopAction::Abort(None),
        },
        LoopEvent::Closed => LoopAction::Finish(None),
        LoopEvent::TimedOut => LoopAction::Finish(Some(Notice::Inactivity)),
    }
}

/// Decides what the game does after `event`.
///
/// A round without a question ends the game with the scoreboard. A prompt
/// that failed but may be retried skips to the next round; one that failed
/// for good stops the game at once. A right pick ends the round, a wrong or
/// ignored one keeps it going, and a pick that could not be shown stops the
/// game at once. Closing the game or leaving it idle ends it with the
/// scoreboard.
pub fn next_action(event: LoopEvent) -> (action: LoopAction)
    ensures
        action == spec_next_action(event),
{
    match event {
        LoopEvent::RoundStarted(has_question) => if has_question {
            LoopAction::SendPrompt
        } else {
            LoopAction::Finish(Some(Notice::PoolExhausted))
        },
        LoopEvent::PromptSent(sent) => match sent {
            RetryResult::Success => LoopAction::AwaitPick,
            RetryResult::Fail => LoopAction::NextRound,
            RetryResult::Terminal => LoopAction::Abort(Some(Notice::NetworkError)),
        },
        LoopEvent::PickHandled(result) => match result {
            RoundHandleResult::ContinueRound => LoopAction::AwaitPick,
            RoundHandleResult::NextRound => LoopAction::NextRound,
            RoundHandleResult::NetError => LoopAction::Abort(None),
        },
        LoopEvent::Closed => LoopAction::Finish(None),
        LoopEvent::TimedOut => LoopAction::Finish(Some(Notice::Inactivity)),
    }
}

/// The text of `notice` in `game`.
pub open spec fn spec_notice_text(game: GameKind, notice: Notice) -> Seq<char> {
    match notice {
        Notice::PoolExhausted => match game {
            GameKind::MultiChoice => "There are no more words left in the pool..."@,
            GameKind::Transitivity => "All unique words expended."@,
        },
        Notice::NetworkError => "Stopping game due to network error..."@,
        Notice::Inactivity => "Stopping game due to inactivity..."@,
    }
}

/// The text that `game` sends for `notice`.
pub fn notice_text(game: GameKind, notice: Notice) -> (text: &'static str)
    ensures
        text@ == spec_notice_text(game, notice),
{
    match notice {
        Notice::PoolExhausted => match game {
            GameKind::MultiChoice => "There are no more words left in the pool...",
            GameKind::Transitivity => "All unique words expended.",
        },
        Notice::NetworkError => "Stopping game due to network error...",
        Notice::Inactivity => "Stopping game due to inactivity...",
    }
}

/// Whether the game stops after `action`.
pub open spec fn stops(action: LoopAction) -> bool {
    action is Finish || action is Abort
}

/// A game stops only for a reason: no question was left, the prompt could
/// not be sent for good, a pick could not be shown, the game was closed or
/// nobody played. And the scoreboard is left out only when the network
/// failed.
pub proof fn law_stops_only_for_a_reason(event: LoopEvent)
    ensures
        stops(spec_next_action(event)) <==> (event == LoopEvent::RoundStarted(false) || event
            == LoopEvent::PromptSent(RetryResult::Terminal) || event == LoopEvent::PickHandled(
            RoundHandleResult::NetError,
        ) || event == LoopEvent::Closed || event == LoopEvent::TimedOut),
        spec_next_action(event) is Abort <==> (event == LoopEvent::PromptSent(RetryResult::Terminal)
            || event == LoopEvent::PickHandled(RoundHandleResult::NetError)),
{
}

} // verus!
