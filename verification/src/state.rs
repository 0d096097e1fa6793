//! The application state machine and its event types.
//!
//! `AppStateManager` owns the single canonical application state and the
//! event bus.  The state changes only through `transition_to`, which
//! validates the move against the transition table and leaves the state
//! untouched when it refuses.

use vstd::prelude::*;
use vstd::string::StringExecFns;

use crate::bus;
use crate::errors::ArchiveError;

verus! {

/// One archive operation a caller can request, compared by value.
#[derive(Debug, Clone, PartialEq)]
pub enum Operation {
    CreateArchive { output: String, files: Vec<String> },
    ExtractArchive { archive: String, output: String },
    ValidateArchive { archive: String },
    CalculateHash { file: String },
}

/// What a finished operation produced.
#[derive(Debug, Clone)]
pub enum OperationResult {
    ArchiveCreated(String),
    ArchiveExtracted(String),
    ArchiveValidated(bool),
    HashCalculated(String),
}

/// The application states.
#[derive(Debug, Clone, PartialEq)]
pub enum AppState {
    Empty,
    FilesSelected(Vec<String>),
    ArchiveLoaded(String),
    Processing(Operation),
    Error(String),
}

/// Everything the bus can carry.  Progress is in permille, 0 to 1000.
#[derive(Debug, Clone)]
pub enum AppEvent {
    FilesAdded(Vec<String>),
    ArchiveOpened(String),
    OperationStarted(Operation),
    OperationProgress(Operation, u32),
    OperationCompleted(Operation, OperationResult),
    OperationFailed(Operation, String),
    StateChanged(AppState),
}

/// The identity of a state, without its payload: what the transition
/// table decides by, and what a refusal reports.
#[derive(Debug, Clone, Copy, PartialEq, Eq, Structural)]
pub enum StateKind {
    Empty,
    FilesSelected,
    ArchiveLoaded,
    Processing,
    Error,
}

/// Which of the five states this is.
pub open spec fn kind_of(s: AppState) -> StateKind {
    match s {
        AppState::Empty => StateKind::Empty,
        AppState::FilesSelected(_) => StateKind::FilesSelected,
        AppState::ArchiveLoaded(_) => StateKind::ArchiveLoaded,
        AppState::Processing(_) => StateKind::Processing,
        AppState::Error(_) => StateKind::Error,
    }
}

impl StateKind {
    pub open spec fn name_spec(&self) -> Seq<char> {
        match self {
            StateKind::Empty => "Empty"@,
            StateKind::FilesSelected => "FilesSelected"@,
            StateKind::ArchiveLoaded => "ArchiveLoaded"@,
            StateKind::Processing => "Processing"@,
            StateKind::Error => "Error"@,
        }
    }

    /// The state's name, as a refusal message spells it.
    pub fn name(&self) -> (r: String)
        ensures
            r@ == self.name_spec(),
    {
        match self {
            StateKind::Empty => "Empty".to_owned(),
            StateKind::FilesSelected => "FilesSelected".to_owned(),
            StateKind::ArchiveLoaded => "ArchiveLoaded".to_owned(),
            StateKind::Processing => "Processing".to_owned(),
            StateKind::Error => "Error".to_owned(),
        }
    }
}

/// The identity of a state value.
pub fn state_kind(s: &AppState) -> (r: StateKind)
    ensures
        r == kind_of(*s),
{
    match s {
        AppState::Empty => StateKind::Empty,
        AppState::FilesSelected(_) => StateKind::FilesSelected,
        AppState::ArchiveLoaded(_) => StateKind::ArchiveLoaded,
        AppState::Processing(_) => StateKind::Processing,
        AppState::Error(_) => StateKind::Error,
    }
}

/// A refused state change: the pair the table rejected, identifying the
/// current and the requested state.
#[derive(Debug, Clone, Copy, PartialEq, Eq, Structural)]
pub struct TransitionError {
    pub from: StateKind,
    pub to: StateKind,
}

impl TransitionError {
    /// Where this failure sits in the library's error taxonomy.
    pub fn kind(&self) -> (r: ArchiveError)
        ensures
            r == ArchiveError::InvalidTransition,
    {
        ArchiveError::InvalidTransition
    }

    pub open spec fn message_spec(&self) -> Seq<char> {
        "Invalid state transition from "@ + self.from.name_spec() + " to "@
            + self.to.name_spec()
    }

    /// A message naming both states.
    pub fn message(&self) -> (r: String)
        ensures
            r@ == self.message_spec(),
    {
        let mut out = String::from_str("Invalid state transition from ");
        let from_name = self.from.name();
        out.append(from_name.as_str());
        out.append(" to ");
        let to_name = self.to.name();
        out.append(to_name.as_str());
        out
    }
}

/// The transition table: which state may follow which.
pub open spec fn transition_allowed(from: AppState, to: AppState) -> bool {
    match (from, to) {
        (AppState::Empty, AppState::FilesSelected(_)) => true,
        (AppState::Empty, AppState::ArchiveLoaded(_)) => true,
        (AppState::FilesSelected(_), AppState::Processing(_)) => true,
        (AppState::ArchiveLoaded(_), AppState::Processing(_)) => true,
        (AppState::Processing(_), AppState::Empty) => true,
        (AppState::Processing(_), AppState::FilesSelected(_)) => true,
        (AppState::Processing(_), AppState::ArchiveLoaded(_)) => true,
        (AppState::Processing(_), AppState::Error(_)) => true,
        (AppState::Error(_), AppState::Empty) => true,
        (AppState::Error(_), AppState::FilesSelected(_)) => true,
        (AppState::Error(_), AppState::ArchiveLoaded(_)) => true,
        _ => false,
    }
}

/// Whether `to` may follow `from`, decided exactly as the table says.
pub fn transition_allowed_check(from: &AppState, to: &AppState) -> (r: bool)
    ensures
        r == transition_allowed(*from, *to),
{
    match (from, to) {
        (AppState::Empty, AppState::FilesSelected(_)) => true,
        (AppState::Empty, AppState::ArchiveLoaded(_)) => true,
        (AppState::FilesSelected(_), AppState::Processing(_)) => true,
        (AppState::ArchiveLoaded(_), AppState::Processing(_)) => true,
        (AppState::Processing(_), AppState::Empty) => true,
        (AppState::Processing(_), AppState::FilesSelected(_)) => true,
        (AppState::Processing(_), AppState::ArchiveLoaded(_)) => true,
        (AppState::Processing(_), AppState::Error(_)) => true,
        (AppState::Error(_), AppState::Empty) => true,
        (AppState::Error(_), AppState::FilesSelected(_)) => true,
        (AppState::Error(_), AppState::ArchiveLoaded(_)) => true,
        _ => false,
    }
}

/// Owns the canonical application state and the event bus.  The state is
/// reached only through `&self`/`&mut self`, so reads never observe a
/// torn value and there is a single writer at a time.
pub struct AppStateManager {
    state: AppState,
    event_sender: tokio::sync::broadcast::Sender<AppEvent>,
    /// Held so the channel never counts zero receivers.
    event_receiver: tokio::sync::broadcast::Receiver<AppEvent>,
}

impl AppStateManager {
    /// The state the manager currently holds.
    pub closed spec fn state_spec(&self) -> AppState {
        self.state
    }

    pub closed spec fn sender_spec(&self) -> tokio::sync::broadcast::Sender<AppEvent> {
        self.event_sender
    }

    /// A fresh manager: state `Empty`, a bus with room for 100 events
    /// per subscriber.
    pub fn new() -> (r: Self)
        ensures
            r.state_spec() == AppState::Empty,
    {
        let (event_sender, event_receiver) = bus::bus_channel(100);
        AppStateManager { state: AppState::Empty, event_sender, event_receiver }
    }

    /// Read the current state.
    pub fn get_state(&self) -> (r: &AppState)
        ensures
            *r == self.state_spec(),
    {
        &self.state
    }

    /// Install an already-validated state and publish `StateChanged` to
    /// every subscriber before returning.  Only `transition_to` installs
    /// states, so every mutation goes through the table.
    fn set_state(&mut self, new_state: AppState)
        ensures
            final(self).state_spec() == new_state,
            final(self).sender_spec() == old(self).sender_spec(),
    {
        let announced = new_state.clone();
        self.state = new_state;
        bus::bus_send(&self.event_sender, AppEvent::StateChanged(announced));
    }

    /// A new subscriber to the event bus.
    pub fn subscribe(&self) -> (r: tokio::sync::broadcast::Receiver<AppEvent>) {
        bus::bus_subscribe(&self.event_sender)
    }

    /// Publish an event to every subscriber.
    pub fn emit_event(&self, event: AppEvent) {
        bus::bus_send(&self.event_sender, event);
    }

    /// Move to `new_state` when the table allows it, publishing
    /// `StateChanged`; otherwise refuse, leave the state as it was, and
    /// report which pair of states was rejected.
    pub fn transition_to(&mut self, new_state: AppState) -> (r: Result<(), TransitionError>)
        ensures
            r is Ok <==> transition_allowed(old(self).state_spec(), new_state),
            r is Ok ==> final(self).state_spec() == new_state,
            r is Err ==> final(self).state_spec() == old(self).state_spec() && r->Err_0 == (
            TransitionError {
                from: kind_of(old(self).state_spec()),
                to: kind_of(new_state),
            }),
            final(self).sender_spec() == old(self).sender_spec(),
    {
        if transition_allowed_check(&self.state, &new_state) {
            self.set_state(new_state);
            Ok(())
        } else {
            let from = state_kind(&self.state);
            let to = state_kind(&new_state);
            Err(TransitionError { from, to })
        }
    }
}

} // verus!
