pub mod matcher;
pub mod builder;
pub mod filter;
pub mod race;
pub mod pool;
pub mod hybrid;
