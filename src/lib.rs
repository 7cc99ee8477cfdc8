pub mod gol;
pub mod grid;
