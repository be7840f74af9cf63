//! The application state the core reads: the local role flag and the
//! streaming flag. The user-facing surface owns and toggles these; the
//! discovery and bridge logic only reads them, re-evaluated at each use.
use vstd::prelude::*;
use crate::registry::{PeerStatus, own_role};

verus! {

/// The local machine's state as the core sees it.
pub struct UnisonApp {
    pub is_speaker: bool,
    pub is_streaming: bool,
}

impl UnisonApp {
    /// A fresh state: player role, not streaming.
    pub fn new() -> (r: UnisonApp)
        ensures
            !r.is_speaker,
            !r.is_streaming,
    {
        UnisonApp { is_speaker: false, is_streaming: false }
    }

    /// Whether the machine currently acts as the player.
    pub fn is_player(&self) -> (r: bool)
        ensures
            r == !self.is_speaker,
    {
        !self.is_speaker
    }

    /// The role the machine currently advertises.
    pub fn local_role(&self) -> (r: PeerStatus)
        ensures
            r == own_role(self.is_speaker),
    {
        if self.is_speaker {
            PeerStatus::Speaker
        } else {
            PeerStatus::Player
        }
    }
}

} // verus!
