//! The seal on pipeline states: only the states of this crate can be states.
use vstd::prelude::*;

use crate::pipeline::{Emitted, Executed, Hydrated, Pending, Planned, Validated};

verus! {

pub trait Sealed {}

impl Sealed for Pending {}

impl Sealed for Hydrated {}

impl Sealed for Planned {}

impl Sealed for Executed {}

impl Sealed for Validated {}

impl Sealed for Emitted {}

} // verus!
