//! A small HTTP/1.1 request parser and static-file response builder.
//!
//! The request side turns the text of one request into typed fields; the
//! response side maps what the file system holds at the requested path to a
//! serialised response. Every function states what it returns over the
//! character sequences that its arguments stand for.

pub mod http;
