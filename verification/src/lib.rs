//! Verified core of the Vesktop voice overlay.
use vstd::prelude::*;

pub mod text;
pub mod config;
pub mod protocol;
pub mod participants;
pub mod avatar;
pub mod framing;
pub mod lifecycle;
pub mod placement;
pub mod overlay;
pub mod rows;
