//! Call-tree construction for client-side performance profiles, together
//! with the frame classification rules, the timestamp repair pass of the
//! event format and the search for the cause of a frozen frame.

pub mod android;
pub mod debugmeta;
pub mod fingerprint;
pub mod frame;
pub mod nodetree;
pub mod occurrence;
pub mod packageutil;
pub mod pattern;
pub mod platform;
pub mod sample;
pub mod text;
pub mod types;
