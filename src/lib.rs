//! An HTTP response cache for static assets: an eligibility filter over
//! content types, a bounded least-recently-used store of responses, and the
//! decisions of the interceptor that sits in front of a request handler.

pub mod auth;
pub mod eligibility;
pub mod interceptor;
pub mod message;
pub mod store;
