//! Verified core of a blog's content pipeline: the stored content IR and its
//! keys and routes, the post parser and validator, publish planning, the
//! reconcile decisions, and the site's caching, feed and redirect policy.
pub mod text;
pub mod sorted;
pub mod content;
pub mod authn;
pub mod site;
pub mod pipeline;
pub mod publish;
pub mod cli;
pub mod registry;
pub mod reconcile;
