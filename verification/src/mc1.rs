//! The MC1 column: the rival (AI) wizards.

pub mod rivals;
