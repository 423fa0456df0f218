//! Logic of a terminal emulator that speaks Tmux control mode.

pub mod application;
pub mod args;
pub mod config;
pub mod helpers;
pub mod icon;
pub mod keyboard;
pub mod normal_widgets;
pub mod settings;
pub mod text;
pub mod tmux_api;
pub mod tmux_widgets;
