//! Game-play tools with verified contracts: a deterministic RNG, Party House
//! game states, the CTAS movie format, a generic shortest-path search,
//! factory-ball puzzles and their levels, and Dr. Sudoku helpers.
pub mod ball_levels;
pub mod ctas;
pub mod game;
pub mod level_text;
pub mod nonogram;
pub mod randomize_order;
pub mod party_house;
pub mod rng;
pub mod small_games;
pub mod text;
pub mod util;

pub use rng::Rng;
