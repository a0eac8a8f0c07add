use vstd::prelude::*;
use crate::input::MenuChoice;

verus! {

/// What the viewer holds between forecasts: a chosen location and the
/// weather fetched for it.
#[derive(Clone, Copy, Debug, PartialEq, Eq, Structural)]
pub struct Session {
    pub has_location: bool,
    pub has_weather: bool,
}

/// What the viewer does next.
#[derive(Clone, Copy, Debug, PartialEq, Eq, Structural)]
pub enum Step {
    AskLocation,
    FetchWeather,
    AskForecast,
}

/// What the menu answer leads to.
#[derive(Clone, Copy, Debug, PartialEq, Eq, Structural)]
pub enum MenuOutcome {
    Continue(Session),
    Quit,
    AskAgain,
}

/// The step for a session: a location first, then its weather, then the
/// forecast.
pub open spec fn step_of(s: Session) -> Step {
    if !s.has_location {
        Step::AskLocation
    } else if !s.has_weather {
        Step::FetchWeather
    } else {
        Step::AskForecast
    }
}

/// The session after a menu answer: a new location forgets the location
/// and its weather, the same location keeps both, exit ends the viewer and
/// anything else asks again.
pub open spec fn menu_outcome(s: Session, c: MenuChoice) -> MenuOutcome {
    match c {
        MenuChoice::NewLocation => MenuOutcome::Continue(Session { has_location: false, has_weather: false }),
        MenuChoice::SameLocation => MenuOutcome::Continue(s),
        MenuChoice::Exit => MenuOutcome::Quit,
        MenuChoice::Invalid => MenuOutcome::AskAgain,
    }
}

/// The session at start: nothing chosen or fetched.
pub fn initial_session() -> (s: Session)
    ensures
        !s.has_location && !s.has_weather,
{
    Session { has_location: false, has_weather: false }
}

/// The next step for a session.
pub fn next_step(s: Session) -> (step: Step)
    ensures
        step == step_of(s),
{
    if !s.has_location {
        Step::AskLocation
    } else if !s.has_weather {
        Step::FetchWeather
    } else {
        Step::AskForecast
    }
}

/// A location was found: its weather is still to be fetched.
pub fn location_found(s: Session) -> (t: Session)
    ensures
        t.has_location && !t.has_weather,
{
    Session { has_location: true, has_weather: false }
}

/// The weather for the location was loaded.
pub fn weather_loaded(s: Session) -> (t: Session)
    ensures
        t.has_location == s.has_location && t.has_weather,
{
    Session { has_location: s.has_location, has_weather: true }
}

/// The session after a menu answer.
pub fn after_menu(s: Session, c: MenuChoice) -> (o: MenuOutcome)
    ensures
        o == menu_outcome(s, c),
{
    match c {
        MenuChoice::NewLocation => MenuOutcome::Continue(Session { has_location: false, has_weather: false }),
        MenuChoice::SameLocation => MenuOutcome::Continue(s),
        MenuChoice::Exit => MenuOutcome::Quit,
        MenuChoice::Invalid => MenuOutcome::AskAgain,
    }
}

/// Choosing a new location asks for a location next; keeping the location
/// goes straight back to the forecast question without fetching again.
pub proof fn lemma_menu_steps(s: Session)
    requires
        s.has_location && s.has_weather,
    ensures
        menu_outcome(s, MenuChoice::NewLocation) matches MenuOutcome::Continue(t) && step_of(t) == Step::AskLocation,
        menu_outcome(s, MenuChoice::SameLocation) matches MenuOutcome::Continue(t) && step_of(t) == Step::AskForecast,
{
}

/// From the start the viewer asks for a location, then fetches its weather,
/// then asks which forecast to show.
pub proof fn lemma_start_sequence(s: Session)
    requires
        !s.has_location && !s.has_weather,
    ensures
        step_of(s) == Step::AskLocation,
        step_of(Session { has_location: true, has_weather: false }) == Step::FetchWeather,
        step_of(Session { has_location: true, has_weather: true }) == Step::AskForecast,
{
}

} // verus!
