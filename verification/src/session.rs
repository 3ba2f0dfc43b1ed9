//! Sessions of the multiple choice game: one session per lobby that walks
//! a shuffled sample of the dictionary, and a menu of answer buttons per
//! question whose ids name the menu and the choice.

use std::sync::Arc;

use regex::Regex;
use vstd::prelude::*;

use crate::catalog::Dictionary;
use crate::dictionary::{spec_levels, DictEntry, NLevel, Pos};
use crate::interaction::{decimal, lemma_decimal, parse_usize, spelled_number, write_decimal};
use crate::modes::MultiChoiceMode;
use crate::multi_choice::{askable, made_question, make_question};
use crate::question::Question;
use crate::random;

verus! {

/// Reasons why a session stops listening for interactions.
#[derive(Debug, Clone, Copy, PartialEq, Eq, Structural)]
pub enum InteractionExitReason {
    /// There are no more words left in the pool.
    PoolExhausted,
    /// Nobody interacted for too long.
    Timeout,
    /// Sending data to Discord failed.
    NetworkError,
    /// The game was asked to close.
    CloseRequest,
}

/// What a session says in its channel when it stops for `reason`; nothing
/// when it was asked to close.
pub fn exit_message(reason: InteractionExitReason) -> (message: Option<&'static str>)
    ensures
        message == match reason {
            InteractionExitReason::PoolExhausted => Some("There are no more words left in the pool"),
            InteractionExitReason::Timeout => Some("Stopping game due to inactivity..."),
            InteractionExitReason::NetworkError => Some("Stopping game due to network error..."),
            InteractionExitReason::CloseRequest => None::<&'static str>,
        },
{
    match reason {
        InteractionExitReason::PoolExhausted => Some("There are no more words left in the pool"),
        InteractionExitReason::Timeout => Some("Stopping game due to inactivity..."),
        InteractionExitReason::NetworkError => Some("Stopping game due to network error..."),
        InteractionExitReason::CloseRequest => None,
    }
}

/// What just happened in a running session.
#[derive(Debug, Clone, Copy, PartialEq, Eq, Structural)]
pub enum SessionEvent {
    /// The next entry of the sample was drawn; whether a question could
    /// be made of it.
    Drawn(bool),
    /// The sample has no entry left.
    SampleExhausted,
    /// The menu of the question was sent; whether that worked.
    MenuSent(bool),
    /// The round's picks are over: the answer was found, or the session
    /// must stop for the given reason.
    RoundOver(Option<InteractionExitReason>),
}

/// What a session does next.
#[derive(Debug, Clone, Copy, PartialEq, Eq, Structural)]
pub enum SessionAction {
    /// Draw the next entry of the sample.
    NextEntry,
    /// Send the menu of the question.
    SendMenu,
    /// Listen for picks on the menu.
    AwaitPicks,
    /// Stop the session for the given reason.
    Stop(InteractionExitReason),
}

/// What a session does after `event`.
pub open spec fn spec_session_step(event: SessionEvent) -> SessionAction {
    match event {
        SessionEvent::Drawn(made) => if made {
            SessionAction::SendMenu
        } else {
            SessionAction::NextEntry
        },
        SessionEvent::SampleExhausted => SessionAction::Stop(InteractionExitReason::PoolExhausted),
        SessionEvent::MenuSent(sent) => if sent {
            SessionAction::AwaitPicks
        } else {
            SessionAction::Stop(InteractionExitReason::NetworkError)
        },
        SessionEvent::RoundOver(stop) => match stop {
            None => SessionAction::NextEntry,
            Some(reason) => SessionAction::Stop(reason),
        },
    }
}

/// Decides what a session does after `event`: an entry that makes no
/// question is skipped, a menu that cannot be sent stops the session with
/// a network error, a round whose answer was found leads to the next entry,
/// and the session stops when the sample runs out or a round says so.
pub fn session_step(event: SessionEvent) -> (action: SessionAction)
    ensures
        action == spec_session_step(event),
{
    match event {
        SessionEvent::Drawn(made) => if made {
            SessionAction::SendMenu
        } else {
            SessionAction::NextEntry
        },
        SessionEvent::SampleExhausted => SessionAction::Stop(InteractionExitReason::PoolExhausted),
        SessionEvent::MenuSent(sent) => if sent {
            SessionAction::AwaitPicks
        } else {
            SessionAction::Stop(InteractionExitReason::NetworkError)
        },
        SessionEvent::RoundOver(stop) => match stop {
            None => SessionAction::NextEntry,
            Some(reason) => SessionAction::Stop(reason),
        },
    }
}

/// The error of starting a game in a lobby that already has one.
#[derive(Debug, Clone, Copy, PartialEq, Eq, Structural)]
pub struct SessionAlreadyCreated;

impl SessionAlreadyCreated {
    /// The error's message.
    pub fn message(&self) -> (m: &'static str)
        ensures
            m == "User has already created a session",
    {
        "User has already created a session"
    }
}

/// Shuffles `pos` and makes a question of `mode` about `entry` with the
/// first tag of `pos` that lets one be asked, if any does.
pub fn first_question(entry: &DictEntry, mode: MultiChoiceMode, pos: &mut Vec<Pos>, dictionary: &Dictionary) -> (q: Option<Question<5>>)
    ensures
        final(pos)@.to_multiset() == old(pos)@.to_multiset(),
        q is None ==> forall|j: int| 0 <= j < final(pos)@.len() ==> !askable(mode, *entry, #[trigger] final(pos)@[j]),
        q is Some ==> exists|j: int|
            0 <= j < final(pos)@.len() && askable(mode, *entry, #[trigger] final(pos)@[j]) && made_question(
                mode,
                *entry,
                final(pos)@[j],
                dictionary.entries@,
                q,
            ) && forall|b: int| 0 <= b < j ==> !askable(mode, *entry, #[trigger] final(pos)@[b]),
{
    random::shuffle(pos.as_mut_slice());
    let mut j: usize = 0;
    while j < pos.len()
        invariant
            pos@.to_multiset() == old(pos)@.to_multiset(),
            j <= pos@.len(),
            forall|b: int| 0 <= b < j ==> !askable(mode, *entry, #[trigger] pos@[b]),
        decreases pos@.len() - j,
    {
        let made = make_question(mode, entry, pos[j], dictionary);
        if made.is_some() {
            return made;
        }
        j = j + 1;
    }
    None
}

/// A button of a menu.
#[derive(Debug)]
pub struct QuestionComponent {
    /// The button's unique identifier.
    pub id: String,
    /// The choice it shows.
    pub text: String,
    /// Whether the button is disabled.
    pub disabled: bool,
}

/// The id of the button of choice `i` in the menu `id`.
pub open spec fn button_id(id: Seq<char>, i: int) -> Seq<char> {
    id + seq![','] + decimal(i as nat)
}

/// The buttons of one question and what has been picked so far.
#[derive(Debug)]
pub struct Menu {
    id: String,
    prompt: String,
    questions: Vec<QuestionComponent>,
    answer: usize,
    entry: Arc<DictEntry>,
}

impl Menu {
    pub closed spec fn spec_id(&self) -> Seq<char> {
        self.id@
    }

    pub closed spec fn spec_prompt(&self) -> Seq<char> {
        self.prompt@
    }

    pub closed spec fn spec_buttons(&self) -> Seq<QuestionComponent> {
        self.questions@
    }

    pub closed spec fn spec_answer(&self) -> int {
        self.answer as int
    }

    pub closed spec fn spec_entry(&self) -> DictEntry {
        *self.entry
    }

    /// The menu's invariant: one button per choice, named after the menu
    /// and its position, and the answer is one of them.
    pub open spec fn wf(&self) -> bool {
        &&& 0 <= self.spec_answer() < self.spec_buttons().len()
        &&& forall|i: int|
            0 <= i < self.spec_buttons().len() ==> (#[trigger] self.spec_buttons()[i]).id@ == button_id(
                self.spec_id(),
                i,
            )
    }

    /// A menu `id` for `question` about `entry`, with no button disabled.
    pub fn new(id: String, question: &Question<5>, entry: Arc<DictEntry>) -> (menu: Self)
        requires
            question.wf(),
        ensures
            menu.wf(),
            menu.spec_id() == id@,
            menu.spec_prompt() == question.spec_prompt(),
            menu.spec_answer() == question.spec_answer_idx(),
            menu.spec_entry() == *entry,
            menu.spec_buttons().len() == 5,
            forall|i: int|
                0 <= i < 5 ==> (#[trigger] menu.spec_buttons()[i]).text == question.spec_choices()[i]
                    && !menu.spec_buttons()[i].disabled,
    {
        let choices = question.choices();
        let mut questions: Vec<QuestionComponent> = Vec::new();
        let mut i: usize = 0;
        while i < 5
            invariant
                i <= 5,
                choices@ == question.spec_choices(),
                questions@.len() == i,
                forall|k: int|
                    0 <= k < i ==> (#[trigger] questions@[k]).id@ == button_id(id@, k)
                        && questions@[k].text == choices@[k] && !questions@[k].disabled,
            decreases 5 - i,
        {
            proof {
                reveal_strlit(",");
            }
            let mut button_id_text = id.clone();
            button_id_text.append(",");
            button_id_text.append(write_decimal(i as u64).as_str());
            questions.push(QuestionComponent { id: button_id_text, text: choices[i].clone(), disabled: false });
            i = i + 1;
        }
        Menu { id, prompt: question.prompt().to_string(), questions, answer: question.answer_idx(), entry }
    }

    /// Collects all the levels of the menu's entry.
    pub fn levels(&self) -> (levels: Vec<NLevel>)
        ensures
            levels@ == spec_levels(&self.spec_entry()),
    {
        self.entry.levels()
    }

    /// The id of the answer's button.
    pub fn answer_id(&self) -> (id: &str)
        requires
            self.wf(),
        ensures
            id@ == self.spec_buttons()[self.spec_answer()].id@,
    {
        self.questions[self.answer].id.as_str()
    }

    pub fn id(&self) -> (id: &str)
        ensures
            id@ == self.spec_id(),
    {
        self.id.as_str()
    }

    pub fn prompt(&self) -> (prompt: &str)
        ensures
            prompt@ == self.spec_prompt(),
    {
        self.prompt.as_str()
    }

    pub fn buttons(&self) -> (buttons: &[QuestionComponent])
        ensures
            buttons@ == self.spec_buttons(),
    {
        self.questions.as_slice()
    }

    /// The text of the answer.
    pub fn answer_text(&self) -> (text: &str)
        requires
            self.wf(),
        ensures
            text@ == self.spec_buttons()[self.spec_answer()].text@,
    {
        self.questions[self.answer].text.as_str()
    }

    /// Handles a press of button `choice` of the menu `menu_id`. A press on
    /// another menu is skipped. A correct pick disables every button, since
    /// the round is finished; a wrong one disables only the picked button.
    pub fn pick(&mut self, menu_id: &str, choice: usize) -> (correct: Option<bool>)
        requires
            old(self).wf(),
            choice < old(self).spec_buttons().len(),
        ensures
            final(self).wf(),
            final(self).spec_id() == old(self).spec_id(),
            final(self).spec_prompt() == old(self).spec_prompt(),
            final(self).spec_answer() == old(self).spec_answer(),
            final(self).spec_entry() == old(self).spec_entry(),
            final(self).spec_buttons().len() == old(self).spec_buttons().len(),
            forall|i: int|
                0 <= i < old(self).spec_buttons().len() ==> (#[trigger] final(self).spec_buttons()[i]).id
                    == old(self).spec_buttons()[i].id && final(self).spec_buttons()[i].text == old(
                    self,
                ).spec_buttons()[i].text,
            menu_id@ != old(self).spec_id() ==> correct is None && final(self).spec_buttons() == old(
                self,
            ).spec_buttons(),
            menu_id@ == old(self).spec_id() ==> correct == Some(choice == old(self).spec_answer()),
            correct == Some(true) ==> forall|i: int|
                0 <= i < final(self).spec_buttons().len() ==> (#[trigger] final(self).spec_buttons()[i]).disabled,
            correct == Some(false) ==> forall|i: int|
                0 <= i < final(self).spec_buttons().len() ==> (#[trigger] final(self).spec_buttons()[i]).disabled
                    == (i == choice || old(self).spec_buttons()[i].disabled),
    {
        if self.id != String::from_str(menu_id) {
            return None;
        }
        let correct = self.questions[choice].id == self.questions[self.answer].id;
        proof {
            if choice != self.answer {
                law_button_ids_differ(self.id@, choice as int, self.answer as int);
            }
        }
        if correct {
            let mut i: usize = 0;
            while i < self.questions.len()
                invariant
                    self.wf(),
                    self.id == old(self).id,
                    self.prompt == old(self).prompt,
                    self.answer == old(self).answer,
                    self.entry == old(self).entry,
                    self.questions@.len() == old(self).questions@.len(),
                    forall|k: int|
                        0 <= k < self.questions@.len() ==> (#[trigger] self.questions@[k]).id
                            == old(self).questions@[k].id && self.questions@[k].text == old(
                            self,
                        ).questions@[k].text,
                    i <= self.questions@.len(),
                    forall|k: int| 0 <= k < i ==> (#[trigger] self.questions@[k]).disabled,
                decreases self.questions@.len() - i,
            {
                self.questions[i].disabled = true;
                i = i + 1;
            }
        } else {
            self.questions[choice].disabled = true;
        }
        Some(correct)
    }
}

/// Different positions of one menu have different button ids.
pub proof fn law_button_ids_differ(id: Seq<char>, i: int, j: int)
    requires
        0 <= i,
        0 <= j,
        i != j,
    ensures
        button_id(id, i) != button_id(id, j),
{
    lemma_decimal(i as nat);
    lemma_decimal(j as nat);
    let a = button_id(id, i);
    let b = button_id(id, j);
    if a == b {
        assert(a.skip(id.len() + 1int) =~= decimal(i as nat));
        assert(b.skip(id.len() + 1int) =~= decimal(j as nat));
    }
}

/// The first match of `pattern` in `haystack`, as the `regex` crate finds
/// it; nothing when there is none or the pattern does not compile.
pub uninterp spec fn regex_first_match(pattern: Seq<char>, haystack: Seq<char>) -> Option<Seq<char>>;

/// The capture groups of the first match of `pattern` in `haystack`, as
/// the `regex` crate gives them, group 0 first; nothing when there is no
/// match or the pattern does not compile.
pub uninterp spec fn regex_capture_groups(pattern: Seq<char>, haystack: Seq<char>) -> Option<Seq<Option<Seq<char>>>>;

/// The text of each group that took part in a match.
pub open spec fn group_views(groups: Seq<Option<String>>) -> Seq<Option<Seq<char>>> {
    groups.map_values(|g: Option<String>| match g {
        Some(m) => Some(m@),
        None => None,
    })
}

/// Finds the first match of `pattern` in `haystack` with `regex`'s
/// [`Regex::find`], after compiling the pattern with [`Regex::new`]. The
/// contract names the result and claims, as the crate documents, that a
/// match is a piece of `haystack`. Which piece is the regex engine's
/// business and is left unsaid.
#[verifier::external_body]
fn regex_find(pattern: &str, haystack: &str) -> (found: Option<String>)
    ensures
        match found {
            Some(m) => regex_first_match(pattern@, haystack@) == Some(m@),
            None => regex_first_match(pattern@, haystack@) is None,
        },
        found matches Some(m) ==> exists|i: int|
            0 <= i && i + m@.len() <= haystack@.len() && #[trigger] haystack@.subrange(i, i + m@.len()) == m@,
{
    match Regex::new(pattern) {
        Ok(re) => re.find(haystack).map(|m| m.as_str().to_string()),
        Err(_) => None,
    }
}

/// The capture groups of the first match of `pattern` in `haystack` with
/// `regex`'s [`Regex::captures`], after compiling the pattern with
/// [`Regex::new`]. The contract names the result and claims, as the crate
/// documents, that group 0 is the whole match and always takes part.
#[verifier::external_body]
fn regex_captures(pattern: &str, haystack: &str) -> (groups: Option<Vec<Option<String>>>)
    ensures
        match groups {
            Some(g) => regex_capture_groups(pattern@, haystack@) == Some(group_views(g@)),
            None => regex_capture_groups(pattern@, haystack@) is None,
        },
        groups matches Some(g) ==> g@.len() >= 1 && g@[0] is Some,
{
    match Regex::new(pattern) {
        Ok(re) => re.captures(haystack).map(
            |caps| caps.iter().map(|g| g.map(|m| m.as_str().to_string())).collect(),
        ),
        Err(_) => None,
    }
}

/// Parses `s` as a `u64`, as the standard library does.
pub fn parse_u64(s: &str) -> (n: Option<u64>)
    ensures
        match n {
            Some(v) => spelled_number(s@) == Some(v as nat),
            None => spelled_number(s@) is None || spelled_number(s@).unwrap() > u64::MAX,
        },
{
    crate::interaction::parse_bounded(s, u64::MAX)
}

/// The session id that a match of leading digits spells, if it fits a
/// `u64`.
pub fn session_id_from_match(found: Option<String>) -> (id: Option<u64>)
    ensures
        match found {
            None => id is None,
            Some(m) => match spelled_number(m@) {
                Some(v) => if v <= u64::MAX {
                    id == Some(v as u64)
                } else {
                    id is None
                },
                None => id is None,
            },
        },
{
    match found {
        Some(m) => parse_u64(m.as_str()),
        None => None,
    }
}

/// The pattern of the digits that lead an interaction id.
pub open spec fn session_pattern() -> Seq<char> {
    "^\\d+"@
}

/// Extracts the game session id from the leading digits of an
/// interaction's custom id.
pub fn parse_session_id(interaction_id: &str) -> (id: Option<u64>)
    ensures
        match regex_first_match(session_pattern(), interaction_id@) {
            None => id is None,
            Some(m) => match spelled_number(m) {
                Some(v) => if v <= u64::MAX {
                    id == Some(v as u64)
                } else {
                    id is None
                },
                None => id is None,
            },
        },
{
    let found = regex_find("^\\d+", interaction_id);
    session_id_from_match(found)
}

/// The menu id and choice that the capture groups of a button id give:
/// the first group, and the second read as a number.
pub fn menu_choice_from_groups(groups: Option<Vec<Option<String>>>) -> (parsed: Option<(String, usize)>)
    ensures
        match groups {
            Some(g) => if g@.len() > 2 && g@[1] is Some && g@[2] is Some && spelled_number(
                g@[2].unwrap()@,
            ) is Some && spelled_number(g@[2].unwrap()@).unwrap() <= usize::MAX {
                parsed matches Some(p) && p.0@ == g@[1].unwrap()@ && p.1 == spelled_number(
                    g@[2].unwrap()@,
                ).unwrap()
            } else {
                parsed is None
            },
            None => parsed is None,
        },
{
    let mut groups = match groups {
        Some(g) => g,
        None => return None,
    };
    if groups.len() <= 2 {
        return None;
    }
    let choice = groups.remove(2);
    let menu_id = groups.remove(1);
    match (menu_id, choice) {
        (Some(menu_id), Some(choice)) => match parse_usize(choice.as_str()) {
            Some(c) => Some((menu_id, c)),
            None => None,
        },
        _ => None,
    }
}

/// The pattern of a button id: a menu id, a comma and a choice from 0 to 4.
pub open spec fn button_pattern() -> Seq<char> {
    "^(.*),([0-4])$"@
}

/// Parses a component's custom id for its menu id and the user's button
/// choice.
pub fn parse_custom_id(custom_id: &str) -> (parsed: Option<(String, usize)>)
    ensures
        match regex_capture_groups(button_pattern(), custom_id@) {
            Some(g) => if g.len() > 2 && g[1] is Some && g[2] is Some && spelled_number(g[2].unwrap())
                is Some && spelled_number(g[2].unwrap()).unwrap() <= usize::MAX {
                parsed matches Some(p) && p.0@ == g[1].unwrap() && p.1 == spelled_number(
                    g[2].unwrap(),
                ).unwrap()
            } else {
                parsed is None
            },
            None => parsed is None,
        },
{
    let groups = regex_captures("^(.*),([0-4])$", custom_id);
    menu_choice_from_groups(groups)
}

/// A fresh random id from `uuid`'s [`uuid::Uuid::new_v4`], in its
/// hyphenated text form. Nothing is claimed of it: it rests on chance.
#[verifier::external_body]
fn fresh_uuid() -> String {
    uuid::Uuid::new_v4().to_string()
}

/// The id of a session's menu: the session id, a comma and `tag`.
pub open spec fn spec_menu_id(session_id: u64, tag: Seq<char>) -> Seq<char> {
    decimal(session_id as nat) + seq![','] + tag
}

/// Names a session's next menu with a fresh random tag after its id.
pub fn menu_id(session_id: u64) -> (id: String)
    ensures
        exists|tag: Seq<char>| id@ == spec_menu_id(session_id, tag),
{
    proof {
        reveal_strlit(",");
    }
    let mut id = write_decimal(session_id);
    id.append(",");
    let tag = fresh_uuid();
    id.append(tag.as_str());
    assert(id@ == spec_menu_id(session_id, tag@));
    id
}

/// Creates a randomized insult message that mentions the user `user_id`
/// and repeats their `choice`.
pub fn insult_message(insults: &[String], user_id: u64, choice: &str) -> (message: String)
    requires
        insults@.len() > 0,
    ensures
        exists|i: int|
            0 <= i < insults@.len() && message@ == (#[trigger] insults@[i])@ + " <@"@ + decimal(
                user_id as nat,
            ) + "> ("@ + choice@ + ")"@,
{
    let insult = random::pick_one(insults).unwrap();
    let mut message = insult.clone();
    message.append(" <@");
    message.append(write_decimal(user_id).as_str());
    message.append("> (");
    message.append(choice);
    message.append(")");
    proof {
        let i = choose|i: int| 0 <= i < insults@.len() && insults@[i] == *insult;
        assert(message@ == insults@[i]@ + " <@"@ + decimal(user_id as nat) + "> ("@ + choice@ + ")"@);
    }
    message
}

} // verus!
