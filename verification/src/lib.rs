//! Request routing for an HTTP application framework: a segment tree that
//! matches request paths against static and dynamic segments, route matchers,
//! pipeline chains, a dispatch protocol, and the builder that draws routes
//! into the tree.

pub mod path;
pub mod pipeline;
pub mod route;
pub mod tree;
pub mod builder;
pub mod router;
pub mod response;
pub mod dispatch;
pub mod state;
pub mod query_string;
