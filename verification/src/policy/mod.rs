pub mod decision;
pub mod engine;
pub mod matcher;
pub mod rules;
