pub mod builder;
pub mod error_strategy;
pub mod filter;
pub mod hash;
pub mod largest;
pub mod progress;
pub mod report;
pub mod tally;
pub mod walk;
