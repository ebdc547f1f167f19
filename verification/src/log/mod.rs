pub mod audit;
pub mod inspect;
pub mod worker;
