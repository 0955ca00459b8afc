pub mod chunks;
pub mod concurrency;
pub mod csvio;
pub mod gather;
pub mod opts;
pub mod schemas;
pub mod strings;
pub mod types;
