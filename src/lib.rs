//! A terminal snake game: grid model, tick rule, key mapping and frame rendering,
//! with the state invariant proved to hold across every transition.

pub mod grid;
pub mod game;
pub mod random;
pub mod render;
