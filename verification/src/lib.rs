//! Injects DMR audio that was received off the air into a TETRA cell as a local
//! group call.
//!
//! The receiver side turns a decoder's audio and console output into frames
//! ([`pcm`], [`meta`], [`session`]); they travel in datagrams ([`ipc`]); the
//! injection entity turns them into call control and paced voice ([`entity`],
//! [`jitter`], [`codec`]).
use vstd::prelude::*;

pub mod bytes;
pub mod call_laws;
pub mod cli;
pub mod codec;
pub mod config;
pub mod dashboard;
pub mod decoder;
pub mod entity;
pub mod entity_laws;
pub mod ipc;
pub mod jitter;
pub mod meta;
pub mod outside;
pub mod pattern;
pub mod pcm;
pub mod recorder;
pub mod recorder_laws;
pub mod sap;
pub mod scan;
pub mod session;
pub mod session_laws;
pub mod status;
pub mod testinject;
pub mod text;
pub mod wav;

verus! {

} // verus!
