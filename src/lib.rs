//! Crawl pipeline for a reading list: saved links are fetched, their main
//! content is extracted, and every link yields exactly one outcome.

pub mod db;
pub mod links;
pub mod extract;
pub mod worker;
pub mod pipeline;
pub mod pocket;
pub mod server;
