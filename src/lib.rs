//! A terminal hangman game: a bordered text-box renderer, the game model and
//! the menu/game state machine, each with its behaviour stated and proved.
pub mod game;
pub mod layout;
pub mod session;
pub mod terminal;
pub mod text;
