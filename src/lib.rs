//! Build engine of a static-content generator: a bounded task window, a
//! versioned cache, map tile planning and the page registry of a site.
pub mod cache;
pub mod checksum;
pub mod config;
pub mod error;
pub mod line;
pub mod order;
pub mod pages;
pub mod paths;
pub mod runner;
pub mod site;
pub mod templating;
pub mod tiles;
