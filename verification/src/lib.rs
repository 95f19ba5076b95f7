//! Flashcard study repository and quiz engine.
//!
//! A [`study::Study`] owns topics and flashcards and keeps the links between
//! them on both sides. A [`quiz::Quiz`] builds a run of questions from the
//! flashcards that are filed under an enabled quiz topic, and steps through
//! it. Both are described by mathematical states in [`state`]; what holds of
//! those states whatever is done is proved in [`laws`].

mod arena;
pub mod keys;
pub mod laws;
pub mod model;
pub mod quiz;
mod seq_facts;
pub mod state;
pub mod study;
pub mod text;
