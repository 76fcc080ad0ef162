//! Verified cores of a handful of small command-line tools: an `echo`, a
//! `cat`, a `head`, and a file-backed key-value store.
//!
//! Every function here is pure: it takes the text that a front end has read
//! and hands back the text that the front end is to print or write.

pub mod text;
pub mod kvstore;
pub mod headr;
pub mod catr;
pub mod echor;
