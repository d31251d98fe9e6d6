//! Verified building blocks for small tools: a concurrent page scraper whose
//! scheduling, retry and extraction rules are proved, plus a few in-memory
//! record stores.

pub mod batch;
pub mod config;
pub mod contacts;
pub mod extract;
pub mod inventory;
pub mod logs;
pub mod order;
pub mod report;
pub mod result;
pub mod task;
pub mod text;
