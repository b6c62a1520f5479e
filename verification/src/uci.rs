pub mod text;
pub mod fen;
pub mod commands;
