use kate_bot::catalog::PosFilter;
use kate_bot::dictionary::NLevel;
use kate_bot::modes::MultiChoiceMode;
use kate_bot::setup::{every_filter, every_level, ComponentKind, FiltersMenu, FormAction, RoutingResult, Service};

#[test]
fn setup_starts_with_everything_picked() {
    let mut service = Service::new(MultiChoiceMode::KanToEng);
    assert_eq!(service.levels(), &[NLevel::N1, NLevel::N2, NLevel::N3, NLevel::N4]);
    assert_eq!(service.filters().len(), 6);
    service.set_levels(vec![NLevel::N3]);
    service.set_filters(vec![PosFilter::Verbs]);
    let settings = service.settings();
    assert_eq!(settings.mode, MultiChoiceMode::KanToEng);
    assert_eq!(settings.levels, vec![NLevel::N3]);
    assert_eq!(settings.filters, vec![PosFilter::Verbs]);
    assert_eq!(every_level().len(), 4);
    assert_eq!(every_filter()[5], PosFilter::Other);
}

#[test]
fn the_form_names_its_components() {
    let menu = FiltersMenu::new(77, MultiChoiceMode::EngToHir);
    assert_eq!(menu.ids(), ["77-nlvls", "77-pos", "77-submit"]);
    assert_eq!(menu.mode(), MultiChoiceMode::EngToHir);
}

#[test]
fn the_form_creates_the_game_once() {
    let mut menu = FiltersMenu::new(1, MultiChoiceMode::HirToKan);
    assert_eq!(menu.route("1-nlvls", ComponentKind::StringSelect), FormAction::SetLevels);
    menu.set_levels(vec![NLevel::N2]);
    assert_eq!(menu.route("1-pos", ComponentKind::StringSelect), FormAction::SetFilters);
    menu.set_filters(vec![PosFilter::Nouns]);
    assert_eq!(menu.route("1-pos", ComponentKind::Button), FormAction::Ignore);
    assert_eq!(menu.route("2-submit", ComponentKind::Button), FormAction::Ignore);
    assert_eq!(menu.route("1-submit", ComponentKind::Other), FormAction::Ignore);
    assert_eq!(menu.route("1-submit", ComponentKind::Button), FormAction::CreateGame);
    assert_eq!(menu.route("1-submit", ComponentKind::Button), FormAction::AlreadySubmitted);
    assert_eq!(menu.levels(), &[NLevel::N2]);
    assert_eq!(menu.filters(), &[PosFilter::Nouns]);
}

#[test]
fn routing_results_carry_their_value() {
    let r: RoutingResult<u8> = RoutingResult::Exit(3);
    assert_eq!(r, RoutingResult::Exit(3));
    assert_ne!(RoutingResult::<u8>::Continue, r);
}
