//! A small flashcard drill library: a vocabulary dataset is loaded from
//! comma-separated text, and a training session hands out quiz items and
//! tracks, per item and per direction, which sides have been answered
//! correctly, until every item is fully learned.

pub mod csv_struct;
pub mod training;
