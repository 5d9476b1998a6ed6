// The bar's modules and the state that they share.

use vstd::prelude::*;

pub mod clock;
pub mod network;
pub mod workspace;

use crate::modules::network::NetState;
use crate::modules::workspace::i3::Workspace;

verus! {

/// The state that the modules read when they draw and change when they update.
pub struct AppState {
    pub net: NetState,
    pub i3workspace: Option<Vec<Workspace>>,
}

impl AppState {
    /// The state before any module has run: no network sample, no workspace list.
    pub fn new() -> (r: AppState)
        ensures
            r.net.last_count() is None,
            r.net.last_time() is None,
            r.net.rate() is None,
            r.i3workspace is None,
    {
        AppState { net: NetState::new(), i3workspace: None }
    }
}

} // verus!
