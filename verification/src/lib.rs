//! A bench host for LUCID instrument nodes: the capture container, the boot
//! decoder, capture diffs and the line-oriented renders.
use vstd::prelude::*;

pub mod boot;
pub mod capture;
pub mod decoder;
pub mod diff;
pub mod error;
pub mod host;
pub mod provenance;
pub mod render;
pub mod text;
pub mod wire;

verus! {

} // verus!
