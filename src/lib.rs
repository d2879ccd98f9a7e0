pub mod board;
pub mod laws;
pub mod lemmas;
pub mod rating;
pub mod search;
pub mod types;
