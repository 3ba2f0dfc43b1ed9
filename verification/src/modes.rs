//! The game modes and the submodes of the multiple choice mode.

use vstd::prelude::*;
use vstd::std_specs::convert::{FromSpecImpl, TryIntoSpecImpl};

verus! {

/// All game modes.
#[derive(Debug, Clone, Copy, PartialEq, Eq, Structural)]
pub enum ModeChoice {
    EngToHir,
    HirToEng,
    HirToKan,
    KanToHir,
    KanToEng,
    EngToKan,
    VerbT,
}

/// Submodes under the multiple choice game mode: what the prompt shows ▶
/// what the choices show.
#[derive(Debug, Clone, Copy, PartialEq, Eq, Structural)]
pub enum MultiChoiceMode {
    EngToHir,
    HirToEng,
    HirToKan,
    KanToHir,
    KanToEng,
    EngToKan,
}

/// The game mode that a multiple choice submode is.
pub open spec fn spec_mode_of(val: MultiChoiceMode) -> ModeChoice {
    match val {
        MultiChoiceMode::EngToHir => ModeChoice::EngToHir,
        MultiChoiceMode::HirToEng => ModeChoice::HirToEng,
        MultiChoiceMode::HirToKan => ModeChoice::HirToKan,
        MultiChoiceMode::KanToHir => ModeChoice::KanToHir,
        MultiChoiceMode::KanToEng => ModeChoice::KanToEng,
        MultiChoiceMode::EngToKan => ModeChoice::EngToKan,
    }
}

/// The multiple choice submode that a game mode is, if it is one.
pub open spec fn spec_submode_of(mode: ModeChoice) -> Option<MultiChoiceMode> {
    match mode {
        ModeChoice::EngToHir => Some(MultiChoiceMode::EngToHir),
        ModeChoice::HirToEng => Some(MultiChoiceMode::HirToEng),
        ModeChoice::HirToKan => Some(MultiChoiceMode::HirToKan),
        ModeChoice::KanToHir => Some(MultiChoiceMode::KanToHir),
        ModeChoice::KanToEng => Some(MultiChoiceMode::KanToEng),
        ModeChoice::EngToKan => Some(MultiChoiceMode::EngToKan),
        ModeChoice::VerbT => None,
    }
}

impl From<MultiChoiceMode> for ModeChoice {
    fn from(val: MultiChoiceMode) -> (mode: Self) {
        match val {
            MultiChoiceMode::EngToHir => ModeChoice::EngToHir,
            MultiChoiceMode::HirToEng => ModeChoice::HirToEng,
            MultiChoiceMode::HirToKan => ModeChoice::HirToKan,
            MultiChoiceMode::KanToHir => ModeChoice::KanToHir,
            MultiChoiceMode::KanToEng => ModeChoice::KanToEng,
            MultiChoiceMode::EngToKan => ModeChoice::EngToKan,
        }
    }
}

impl FromSpecImpl<MultiChoiceMode> for ModeChoice {
    open spec fn obeys_from_spec() -> bool {
        true
    }

    open spec fn from_spec(v: MultiChoiceMode) -> ModeChoice {
        spec_mode_of(v)
    }
}

impl TryInto<MultiChoiceMode> for ModeChoice {
    type Error = &'static str;

    fn try_into(self) -> (res: Result<MultiChoiceMode, Self::Error>) {
        match self {
            ModeChoice::EngToHir => Ok(MultiChoiceMode::EngToHir),
            ModeChoice::HirToEng => Ok(MultiChoiceMode::HirToEng),
            ModeChoice::HirToKan => Ok(MultiChoiceMode::HirToKan),
            ModeChoice::KanToHir => Ok(MultiChoiceMode::KanToHir),
            ModeChoice::KanToEng => Ok(MultiChoiceMode::KanToEng),
            ModeChoice::EngToKan => Ok(MultiChoiceMode::EngToKan),
            ModeChoice::VerbT => Err("Invalid variant for MultiChoiceMode"),
        }
    }
}

impl TryIntoSpecImpl<MultiChoiceMode> for ModeChoice {
    open spec fn obeys_try_into_spec() -> bool {
        true
    }

    open spec fn try_into_spec(self) -> Result<MultiChoiceMode, &'static str> {
        match spec_submode_of(self) {
            Some(m) => Ok(m),
            None => Err("Invalid variant for MultiChoiceMode"),
        }
    }
}

} // verus!
