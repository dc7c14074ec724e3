pub mod action;
pub mod batch;
pub mod config;
pub mod dispatcher;
pub mod outcome;
pub mod plan;
