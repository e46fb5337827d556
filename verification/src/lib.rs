pub mod cli;
pub mod client;
pub mod metrics;
pub mod scenario;
pub mod text;
pub mod runner;
pub mod output;
pub mod plot;
pub mod tokenizer;
pub mod json;
pub mod command;
