pub mod text;
pub mod version;
pub mod repository;
pub mod order;
pub mod baselines;
pub mod sync;
pub mod report;
pub mod issues;
pub mod discovery;
pub mod runner;
pub mod setup;
pub mod snippet_check;
pub mod laws;
pub mod render;
