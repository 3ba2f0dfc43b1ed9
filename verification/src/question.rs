//! [`Question`] models a multiple choice question with `N` options.

use vstd::array::ArrayAdditionalExecFns;
use vstd::prelude::*;

use crate::dictionary::NLevel;

verus! {

/// Question construction errors.
#[derive(Debug, Clone, Copy, PartialEq, Eq, Structural)]
pub enum QuestionError {
    /// The choices array is empty.
    EmptyChoices,
    /// The answer index is not an index of the choices array.
    AnswerOutOfRange,
}

impl QuestionError {
    /// What went wrong, in words.
    pub fn message(&self) -> (text: &'static str)
        ensures
            text@ == match *self {
                QuestionError::EmptyChoices => "Choices array must not be empty"@,
                QuestionError::AnswerOutOfRange => "Answer index must be in range of choices array"@,
            },
    {
        match self {
            QuestionError::EmptyChoices => "Choices array must not be empty",
            QuestionError::AnswerOutOfRange => "Answer index must be in range of choices array",
        }
    }
}

/// A multiple choice question with `N` options.
#[derive(Debug)]
pub struct Question<const N: usize> {
    /// The question being asked.
    prompt: String,
    /// The possible answers to `prompt`.
    choices: [String; N],
    /// Which choices were already guessed.
    guessed: [bool; N],
    /// The index of the correct answer in `choices`.
    answer_idx: usize,
    /// The difficulty category(ies) of this question.
    difficulty: Vec<NLevel>,
}

/// `after` is `before` once `choice` was guessed: the same question, with
/// every choice marked as guessed after a correct guess, or only `choice`
/// (when it is one of the choices) after a wrong one.
pub open spec fn guessed<const N: usize>(before: Question<N>, after: Question<N>, choice: usize) -> bool {
    &&& after.wf()
    &&& after.spec_prompt() == before.spec_prompt()
    &&& after.spec_choices() == before.spec_choices()
    &&& after.spec_answer_idx() == before.spec_answer_idx()
    &&& after.spec_difficulty() == before.spec_difficulty()
    &&& choice == before.spec_answer_idx() ==> forall|i: int|
        0 <= i < N ==> #[trigger] after.spec_guessed()[i]
    &&& choice != before.spec_answer_idx() ==> after.spec_guessed() == if choice < N {
        before.spec_guessed().update(choice as int, true)
    } else {
        before.spec_guessed()
    }
}

impl<const N: usize> Question<N> {
    /// The question being asked.
    pub closed spec fn spec_prompt(&self) -> Seq<char> {
        self.prompt@
    }

    /// The choices, in the order in which they are shown.
    pub closed spec fn spec_choices(&self) -> Seq<String> {
        self.choices@
    }

    /// For each choice, whether it was already guessed.
    pub closed spec fn spec_guessed(&self) -> Seq<bool> {
        self.guessed@
    }

    /// The index of the correct choice.
    pub closed spec fn spec_answer_idx(&self) -> int {
        self.answer_idx as int
    }

    /// The difficulty levels of the question.
    pub closed spec fn spec_difficulty(&self) -> Seq<NLevel> {
        self.difficulty@
    }

    /// The question's invariant: the answer is one of the choices.
    pub open spec fn wf(&self) -> bool {
        &&& self.spec_choices().len() == N
        &&& self.spec_guessed().len() == N
        &&& 0 <= self.spec_answer_idx() < N
    }

    /// Builds a question whose correct choice is `choices[answer]`, with no
    /// choice guessed yet.
    pub fn new(prompt: String, choices: [String; N], answer: usize, difficulty: Vec<NLevel>) -> (res:
        Result<Self, QuestionError>)
        ensures
            N == 0 ==> res == Err::<Self, QuestionError>(QuestionError::EmptyChoices),
            N > 0 && answer >= N ==> res == Err::<Self, QuestionError>(
                QuestionError::AnswerOutOfRange,
            ),
            answer < N ==> (res matches Ok(q) && {
                &&& q.wf()
                &&& q.spec_prompt() == prompt@
                &&& q.spec_choices() == choices@
                &&& q.spec_answer_idx() == answer
                &&& q.spec_difficulty() == difficulty@
                &&& forall|i: int| 0 <= i < N ==> !(#[trigger] q.spec_guessed()[i])
            }),
    {
        if N == 0 {
            return Err(QuestionError::EmptyChoices);
        }
        if answer >= N {
            return Err(QuestionError::AnswerOutOfRange);
        }
        let guessed: [bool; N] = [false;N];
        Ok(Question { prompt, choices, guessed, answer_idx: answer, difficulty })
    }

    pub fn prompt(&self) -> (p: &str)
        ensures
            p@ == self.spec_prompt(),
    {
        self.prompt.as_str()
    }

    pub fn choices(&self) -> (c: &[String; N])
        ensures
            c@ == self.spec_choices(),
    {
        &self.choices
    }

    pub fn guessed(&self) -> (g: &[bool; N])
        ensures
            g@ == self.spec_guessed(),
    {
        &self.guessed
    }

    /// The text of the correct choice.
    pub fn answer(&self) -> (a: &str)
        requires
            self.wf(),
        ensures
            a@ == self.spec_choices()[self.spec_answer_idx()]@,
    {
        self.choices[self.answer_idx].as_str()
    }

    pub fn difficulty(&self) -> (d: &Vec<NLevel>)
        ensures
            d@ == self.spec_difficulty(),
    {
        &self.difficulty
    }

    pub fn answer_idx(&self) -> (i: usize)
        ensures
            i == self.spec_answer_idx(),
    {
        self.answer_idx
    }

    /// Inquires if `choice` is the index of the answer. A correct guess marks
    /// every choice as guessed; a wrong one marks only `choice`. Always
    /// returns false on a `choice` index that is out of range of the choices.
    pub fn guess(&mut self, choice: usize) -> (correct: bool)
        requires
            old(self).wf(),
        ensures
            correct == (choice == old(self).spec_answer_idx()),
            guessed(*old(self), *final(self), choice),
    {
        let correct = choice == self.answer_idx;
        if correct {
            let mut i: usize = 0;
            while i < N
                invariant
                    i <= N,
                    self.guessed@.len() == N,
                    self.choices@ == old(self).choices@,
                    self.prompt == old(self).prompt,
                    self.answer_idx == old(self).answer_idx,
                    self.difficulty == old(self).difficulty,
                    forall|j: int| 0 <= j < i ==> #[trigger] self.guessed@[j],
                decreases N - i,
            {
                self.guessed.set(i, true);
                i = i + 1;
            }
        } else if choice < N {
            self.guessed.set(choice, true);
        }
        correct
    }
}

/// A guess never takes back an earlier one: a choice marked as guessed
/// stays marked, whatever is guessed next.
pub proof fn law_guesses_stay<const N: usize>(before: Question<N>, after: Question<N>, choice: usize, i: int)
    requires
        before.wf(),
        guessed(before, after, choice),
        0 <= i < N,
        before.spec_guessed()[i],
    ensures
        after.spec_guessed()[i],
{
}

/// Once the answer is guessed, every choice is marked and the question is
/// over: no later guess changes the marks.
pub proof fn law_answer_closes_question<const N: usize>(
    before: Question<N>,
    middle: Question<N>,
    after: Question<N>,
    later: usize,
)
    requires
        before.wf(),
        guessed(before, middle, before.spec_answer_idx() as usize),
        guessed(middle, after, later),
    ensures
        forall|i: int| 0 <= i < N ==> #[trigger] after.spec_guessed()[i],
        after.spec_guessed() == middle.spec_guessed(),
{
    assert(after.spec_guessed() =~= middle.spec_guessed());
}

} // verus!
