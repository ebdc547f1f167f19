pub mod rate_limit;
