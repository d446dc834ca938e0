//! Core logic of a microservices dashboard: service records, Docker
//! discovery parsing, SSH command construction, health decisions, job
//! bookkeeping and plugin naming, each with a machine-checked contract.
pub mod text;
pub mod service;
pub mod discover;
pub mod json;
pub mod ssh;
pub mod config;
pub mod dashboard;
pub mod health;
pub mod jobs;
pub mod plugin;
pub mod openai;
pub mod cli;
