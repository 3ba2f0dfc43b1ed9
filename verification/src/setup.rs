//! Setting a multiple choice game up: the levels, part-of-speech filters
//! and submode a user picks before the game is created, and the form that
//! collects them.

use vstd::prelude::*;

use crate::catalog::PosFilter;
use crate::dictionary::{all_levels, NLevel};
use crate::interaction::{decimal, write_decimal};
use crate::modes::MultiChoiceMode;
use crate::multi_choice::GameSettings;

verus! {

/// Every part-of-speech filter, in declaration order.
pub open spec fn all_filters() -> Seq<PosFilter> {
    seq![
        PosFilter::Nouns,
        PosFilter::Verbs,
        PosFilter::Prenominals,
        PosFilter::Expressions,
        PosFilter::Conjunctions,
        PosFilter::Other,
    ]
}

/// Every level, in declaration order.
pub fn every_level() -> (levels: Vec<NLevel>)
    ensures
        levels@ == all_levels(),
{
    let mut levels: Vec<NLevel> = Vec::new();
    levels.push(NLevel::N1);
    levels.push(NLevel::N2);
    levels.push(NLevel::N3);
    levels.push(NLevel::N4);
    assert(levels@ =~= all_levels());
    levels
}

/// Every part-of-speech filter, in declaration order.
pub fn every_filter() -> (filters: Vec<PosFilter>)
    ensures
        filters@ == all_filters(),
{
    let mut filters: Vec<PosFilter> = Vec::new();
    filters.push(PosFilter::Nouns);
    filters.push(PosFilter::Verbs);
    filters.push(PosFilter::Prenominals);
    filters.push(PosFilter::Expressions);
    filters.push(PosFilter::Conjunctions);
    filters.push(PosFilter::Other);
    assert(filters@ =~= all_filters());
    filters
}

/// A copy of `levels`.
fn copy_levels(levels: &Vec<NLevel>) -> (copy: Vec<NLevel>)
    ensures
        copy@ == levels@,
{
    let copy = levels.clone();
    assert(copy@ =~= levels@);
    copy
}

/// A copy of `filters`.
fn copy_filters(filters: &Vec<PosFilter>) -> (copy: Vec<PosFilter>)
    ensures
        copy@ == filters@,
{
    let copy = filters.clone();
    assert(copy@ =~= filters@);
    copy
}

/// The choices made while setting up a multiple choice game.
#[derive(Debug)]
pub struct Service {
    /// Desired levels when creating the dictionary subset.
    levels: Vec<NLevel>,
    /// Desired filters when creating the dictionary subset.
    filters: Vec<PosFilter>,
    /// Desired submode.
    mode: MultiChoiceMode,
}

impl Service {
    pub closed spec fn spec_levels(&self) -> Seq<NLevel> {
        self.levels@
    }

    pub closed spec fn spec_filters(&self) -> Seq<PosFilter> {
        self.filters@
    }

    pub closed spec fn spec_mode(&self) -> MultiChoiceMode {
        self.mode
    }

    /// Starts with every level and every filter picked.
    pub fn new(mode: MultiChoiceMode) -> (service: Self)
        ensures
            service.spec_levels() == all_levels(),
            service.spec_filters() == all_filters(),
            service.spec_mode() == mode,
    {
        Service { levels: every_level(), filters: every_filter(), mode }
    }

    pub fn levels(&self) -> (levels: &[NLevel])
        ensures
            levels@ == self.spec_levels(),
    {
        self.levels.as_slice()
    }

    pub fn set_levels(&mut self, levels: Vec<NLevel>)
        ensures
            final(self).spec_levels() == levels@,
            final(self).spec_filters() == old(self).spec_filters(),
            final(self).spec_mode() == old(self).spec_mode(),
    {
        self.levels = levels;
    }

    pub fn filters(&self) -> (filters: &[PosFilter])
        ensures
            filters@ == self.spec_filters(),
    {
        self.filters.as_slice()
    }

    pub fn set_filters(&mut self, filters: Vec<PosFilter>)
        ensures
            final(self).spec_filters() == filters@,
            final(self).spec_levels() == old(self).spec_levels(),
            final(self).spec_mode() == old(self).spec_mode(),
    {
        self.filters = filters;
    }

    pub fn mode(&self) -> (mode: MultiChoiceMode)
        ensures
            mode == self.spec_mode(),
    {
        self.mode
    }

    /// The settings a game is created with from these choices.
    pub fn settings(&self) -> (settings: GameSettings)
        ensures
            settings.mode == self.spec_mode(),
            settings.levels@ == self.spec_levels(),
            settings.filters@ == self.spec_filters(),
    {
        GameSettings {
            mode: self.mode,
            levels: copy_levels(&self.levels),
            filters: copy_filters(&self.filters),
        }
    }
}

/// What a handler of a routed event tells its router: to go on listening,
/// or to stop with a value.
#[derive(Debug, Clone, Copy, PartialEq, Eq)]
pub enum RoutingResult<T> {
    Continue,
    Exit(T),
}

/// The kind of a component that an interaction comes from.
#[derive(Debug, Clone, Copy, PartialEq, Eq, Structural)]
pub enum ComponentKind {
    StringSelect,
    Button,
    Other,
}

/// What the create game form does with an interaction.
#[derive(Debug, Clone, Copy, PartialEq, Eq, Structural)]
pub enum FormAction {
    /// Not one of the form's components: nothing happens.
    Ignore,
    /// The levels menu changed: the picked values become the levels.
    SetLevels,
    /// The filters menu changed: the picked values become the filters.
    SetFilters,
    /// The submit button was pressed again: the game was already created.
    AlreadySubmitted,
    /// The submit button was pressed for the first time: create the game.
    CreateGame,
}

/// The id of one component of the form started by the invocation `id`.
pub open spec fn component_id(id: u64, suffix: Seq<char>) -> Seq<char> {
    decimal(id as nat) + suffix
}

/// The components of the create game form: a levels menu, a filters menu
/// and a submit button, with what is picked so far.
#[derive(Debug)]
pub struct FiltersMenu {
    /// Identifier for the levels menu.
    nlvls_id: String,
    /// Currently picked levels. Initially all of them.
    levels: Vec<NLevel>,
    /// Identifier for the part-of-speech menu.
    pos_id: String,
    /// Currently picked filters. Initially all of them.
    pos: Vec<PosFilter>,
    /// Identifier for the submit button.
    submit_id: String,
    /// Whether the game was created.
    submitted: bool,
    /// Mode of the game to create.
    mode: MultiChoiceMode,
}

/// What a form with the component ids `ids` (levels menu, filters menu,
/// submit button) does with an interaction from the component `id` of
/// `kind`, depending on whether it was `submitted`.
pub open spec fn form_step(
    ids: (Seq<char>, Seq<char>, Seq<char>),
    submitted: bool,
    id: Seq<char>,
    kind: ComponentKind,
) -> FormAction {
    match kind {
        ComponentKind::StringSelect => if id == ids.0 {
            FormAction::SetLevels
        } else if id == ids.1 {
            FormAction::SetFilters
        } else {
            FormAction::Ignore
        },
        ComponentKind::Button => if id != ids.2 {
            FormAction::Ignore
        } else if submitted {
            FormAction::AlreadySubmitted
        } else {
            FormAction::CreateGame
        },
        ComponentKind::Other => FormAction::Ignore,
    }
}

impl FiltersMenu {
    pub closed spec fn spec_ids(&self) -> (Seq<char>, Seq<char>, Seq<char>) {
        (self.nlvls_id@, self.pos_id@, self.submit_id@)
    }

    pub closed spec fn spec_levels(&self) -> Seq<NLevel> {
        self.levels@
    }

    pub closed spec fn spec_filters(&self) -> Seq<PosFilter> {
        self.pos@
    }

    pub closed spec fn spec_submitted(&self) -> bool {
        self.submitted
    }

    pub closed spec fn spec_mode(&self) -> MultiChoiceMode {
        self.mode
    }

    /// The form of the invocation `invocation_id`, with every level and
    /// filter picked and nothing submitted.
    pub fn new(invocation_id: u64, mode: MultiChoiceMode) -> (menu: Self)
        ensures
            menu.spec_ids() == (
                component_id(invocation_id, "-nlvls"@),
                component_id(invocation_id, "-pos"@),
                component_id(invocation_id, "-submit"@),
            ),
            menu.spec_levels() == all_levels(),
            menu.spec_filters() == all_filters(),
            !menu.spec_submitted(),
            menu.spec_mode() == mode,
    {
        let id = write_decimal(invocation_id);
        let mut nlvls_id = id.clone();
        nlvls_id.append("-nlvls");
        let mut pos_id = id.clone();
        pos_id.append("-pos");
        let mut submit_id = id;
        submit_id.append("-submit");
        FiltersMenu {
            nlvls_id,
            levels: every_level(),
            pos_id,
            pos: every_filter(),
            submit_id,
            submitted: false,
            mode,
        }
    }

    /// The ids of the levels menu, the filters menu and the submit button.
    pub fn ids(&self) -> (ids: [&str; 3])
        ensures
            ids@[0]@ == self.spec_ids().0,
            ids@[1]@ == self.spec_ids().1,
            ids@[2]@ == self.spec_ids().2,
    {
        [self.nlvls_id.as_str(), self.pos_id.as_str(), self.submit_id.as_str()]
    }

    /// Decides what an interaction from the component `id` of `kind` does.
    /// The first press of the submit button marks the form as submitted.
    pub fn route(&mut self, id: &str, kind: ComponentKind) -> (action: FormAction)
        ensures
            action == form_step(old(self).spec_ids(), old(self).spec_submitted(), id@, kind),
            final(self).spec_submitted() == (old(self).spec_submitted() || action
                == FormAction::CreateGame),
            final(self).spec_ids() == old(self).spec_ids(),
            final(self).spec_levels() == old(self).spec_levels(),
            final(self).spec_filters() == old(self).spec_filters(),
            final(self).spec_mode() == old(self).spec_mode(),
    {
        let id = String::from_str(id);
        match kind {
            ComponentKind::StringSelect => {
                if self.nlvls_id == id {
                    FormAction::SetLevels
                } else if self.pos_id == id {
                    FormAction::SetFilters
                } else {
                    FormAction::Ignore
                }
            },
            ComponentKind::Button => {
                if self.submit_id != id {
                    FormAction::Ignore
                } else if self.submitted {
                    FormAction::AlreadySubmitted
                } else {
                    self.submitted = true;
                    FormAction::CreateGame
                }
            },
            ComponentKind::Other => FormAction::Ignore,
        }
    }

    pub fn set_levels(&mut self, levels: Vec<NLevel>)
        ensures
            final(self).spec_levels() == levels@,
            final(self).spec_ids() == old(self).spec_ids(),
            final(self).spec_filters() == old(self).spec_filters(),
            final(self).spec_submitted() == old(self).spec_submitted(),
            final(self).spec_mode() == old(self).spec_mode(),
    {
        self.levels = levels;
    }

    pub fn set_filters(&mut self, filters: Vec<PosFilter>)
        ensures
            final(self).spec_filters() == filters@,
            final(self).spec_ids() == old(self).spec_ids(),
            final(self).spec_levels() == old(self).spec_levels(),
            final(self).spec_submitted() == old(self).spec_submitted(),
            final(self).spec_mode() == old(self).spec_mode(),
    {
        self.pos = filters;
    }

    pub fn levels(&self) -> (levels: &[NLevel])
        ensures
            levels@ == self.spec_levels(),
    {
        self.levels.as_slice()
    }

    pub fn filters(&self) -> (filters: &[PosFilter])
        ensures
            filters@ == self.spec_filters(),
    {
        self.pos.as_slice()
    }

    pub fn mode(&self) -> (mode: MultiChoiceMode)
        ensures
            mode == self.spec_mode(),
    {
        self.mode
    }
}

/// The form creates its game at most once: once submitted, no interaction
/// creates it again.
pub proof fn law_form_creates_once(ids: (Seq<char>, Seq<char>, Seq<char>), id: Seq<char>, kind: ComponentKind)
    ensures
        form_step(ids, true, id, kind) != FormAction::CreateGame,
        form_step(ids, false, id, kind) == FormAction::CreateGame ==> kind == ComponentKind::Button
            && id == ids.2,
{
}

} // verus!
