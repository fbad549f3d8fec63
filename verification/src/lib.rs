//! A verified core for ephemeral, per-tenant game lobbies.
//!
//! A `Lobby` is one joinable session: an ordered, duplicate-free membership
//! list whose first element is the host, an access rule (open or
//! invitation-gated), an optional capacity, and game settings. A
//! `LobbyRegistry` owns at most one lobby per tenant and removes lobbies
//! that are emptied or idle past a threshold. All mutating operations state
//! exactly when they succeed, which typed failure they return otherwise, and
//! how the new state relates to the old one.

pub mod game;
pub mod guessing;
pub mod lobby;
pub mod registry;
