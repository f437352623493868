//! Stateless bearer tokens: issuance, verification and the request dispatch
//! that guards a single protected resource with them.

pub mod bytes;
pub mod claims;
pub mod dispatch;
pub mod primitives;
pub mod store;
pub mod token;
