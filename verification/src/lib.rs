pub mod filter;
pub mod game;
pub mod solver;
pub mod words;

pub use game::Game;
pub use game::GameLanguage;
pub use game::GameLength;
pub use game::Slot;
