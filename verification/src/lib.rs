//! A verified core for a terminal Trello client: key parsing, board state and command logic.
pub mod text;
pub mod keys;
pub mod model;
pub mod sort;
pub mod cli;
pub mod config;
pub mod app;
pub mod actions;
pub mod commands;
pub mod desc;
pub mod subcommands;
pub mod view;
