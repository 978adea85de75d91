//! Request parsing and response construction.

pub mod laws;
pub mod request;
pub mod response;
pub mod text;
