//! What the Tmux windows, tabs and terminals decide.

pub mod prediction;
pub mod terminal;
pub mod window;
