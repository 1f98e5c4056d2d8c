//! A vocabulary-drill engine: bilingual entries with a grammatical class,
//! a deck parser for a small structured text format, an answer grader that
//! returns a score in hundredths, and the session state machine that drives
//! a quiz over a shuffled deck.

pub mod deck;
pub mod entry;
pub mod grade;
pub mod session;
pub mod text;
