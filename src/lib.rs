//! Export of per-function control-flow graphs as a linear, sentinel-terminated
//! byte section, together with the builders and object handles around it.
use vstd::prelude::*;

pub mod a;
pub mod bytes;
pub mod cfg;
pub mod crate_map;
pub mod datasection;
pub mod debuginfo;
pub mod decode;
pub mod laws;
pub mod link;
pub mod lint_stability;
pub mod mir_cfg;
pub mod reach;
