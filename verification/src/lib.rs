//! Position analysis for a chess coaching assistant: tactical and strategic
//! pattern detection, engine-output parsing and report building.

pub mod bitboard;
pub mod text;
pub mod board;
pub mod attacks;
pub mod tactics;
pub mod strategy;
pub mod chess;
pub mod moves;
pub mod analysis;
pub mod knowledge;
pub mod llm;
pub mod engine;
