//! Decoding and index bookkeeping for stellar equation-of-state and opacity
//! lookup tables.

use vstd::prelude::*;

pub mod index;
pub mod layout;
pub mod record;
mod sealed;
