//! The glossary: terms inferred from a bilingual dictionary, and the automaton
//! that finds known terms in the texts of a batch.
pub mod analyzer;
pub mod automaton;
pub mod mc_lang;
