//! Verified core of Coomi's keyless web search and of its manual
//! ("copy the prompt, paste the answer") model mode.

pub mod bridge;
pub mod text;
pub mod hit;
pub mod engine;
pub mod render;
pub mod relevance;
pub mod model;
pub mod prompt;
pub mod channel;
pub mod pattern;
pub mod html;
pub mod urls;
pub mod collect;
pub mod serp;
pub mod json;
pub mod apis;
pub mod failover;
pub mod calls;
pub mod manual;

use vstd::prelude::*;

verus! {
} // verus!
