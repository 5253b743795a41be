//! A fixed-size two-dimensional cellular grid with bounds-checked access and
//! shape-based neighborhood selection, together with a Game-of-Life engine
//! that evolves such a grid one generation at a time.

mod backing;
pub mod game_of_life;
pub mod grid;
pub mod selection;
