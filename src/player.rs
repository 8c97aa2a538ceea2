use vstd::prelude::*;

verus! {

/// A player node as the graph store returns it.
pub struct Player {
    pub aliases: Vec<String>,
    pub id: String,
    pub is_sub: bool,
    pub label: String,
    pub name: String,
}

/// The graph store's answer to a player creation.
pub struct CreatePlayerResponse {
    pub player: Player,
}

} // verus!
