//! Phases of the application.
use vstd::prelude::*;

verus! {

/// Where the application is in its start-up sequence.
#[derive(Debug, Default, Hash, Clone, Copy, PartialEq, Eq, Structural)]
pub enum AppState {
    #[default]
    PrepareAssets,
    Loading,
    MainMenu,
    InGame,
}

} // verus!
