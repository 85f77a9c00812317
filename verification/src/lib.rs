//! Simulboot session model.
use vstd::prelude::*;

pub mod broker;
pub mod calendar;
pub mod canonical;
pub mod coefficients;
pub mod compositor;
pub mod decimal;
pub mod digest;
pub mod galois;
pub mod galois_parse;
pub mod host;
pub mod session;
pub mod resume;
pub mod roundtrip;
pub mod roundtrip_v1;
pub mod session_parse;
pub mod strip;
pub mod text;
pub mod wire;
pub mod xml;

verus! {

} // verus!
