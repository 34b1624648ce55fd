pub mod engine;
pub mod matrix;
pub mod ranking;
pub mod rating;
pub mod training;
