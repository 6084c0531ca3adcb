//! What the operations are for, stated over what goes in and what comes out.

use vstd::prelude::*;

pub mod checking;
pub mod grammar;
pub mod ingesting;
pub mod judging;
pub mod keeping;
pub mod locating;
pub mod naming;
pub mod paths;
pub mod ranking;
pub mod running;
pub mod scheduling;
pub mod searching;
pub mod showing;
pub mod spans;
pub mod standing;
pub mod text;
pub mod timing;
pub mod weighing;

verus! {

} // verus!
