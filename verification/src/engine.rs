pub mod model;
pub mod rules;
pub mod search;
pub mod transposition;
