//! The site worker's pure policy: cache headers and purge scopes, feed and
//! sitemap rendering, legacy redirects, and the purge endpoint's bearer check.
pub mod auth;
pub mod cache;
pub mod feeds;
pub mod pages;
pub mod redirects;
