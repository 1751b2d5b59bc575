pub mod alias;
pub mod commands;
pub mod input;
pub mod paths;
pub mod text;
pub mod tmux;
