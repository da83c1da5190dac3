//! What happens to a single request of the page.
pub mod ignore_filter;
pub mod platform;
pub mod policy;
pub mod protocol_bypass;
pub mod websocket;
