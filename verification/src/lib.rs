//! Transliteration between Devanagari-script Nepali and a diacritic-bearing
//! Roman form, in both directions.
//!
//! The symbols of the script, each with its Roman form and its class, stand
//! in a fixed registry ([`registry`]). Script text becomes Roman text by a
//! greedy longest-match scan ([`roman`]). Roman text becomes script text
//! word by word ([`script`]): the letters are cut into chunks, each chunk is
//! read as one symbol or spelled out, and the vowel-killer is written
//! between consonants that follow one another. What is amiss in the Roman
//! text is noted on the way ([`anomaly`]) and never stops the conversion.
//! [`NepaliTransliterator`] holds the table and offers both conversions on
//! strings.
//!
//! Every function states what it returns over sequences of characters, and
//! [`laws`] holds what follows for the conversions as a whole.

pub mod anomaly;
pub mod laws;
pub mod registry;
pub mod roman;
pub mod script;
pub mod symbol;
pub mod text;
pub mod transliterator;

pub use crate::anomaly::{Anomaly, AnomalyKind};
pub use crate::symbol::{Symbol, SymbolClass};
pub use crate::transliterator::NepaliTransliterator;
