//! A verified core for a breadth-first website crawler: URL normalization
//! and classification, a robots.txt policy engine, a frontier scheduler
//! with depth and page-count bounds, a link validator, on-page checks, and
//! report assembly.

pub mod config;
pub mod crawler;
pub mod link_checker;
pub mod models;
pub mod reporter;
pub mod robots;
pub mod seo_analyzer;
pub mod text;
pub mod urls;
