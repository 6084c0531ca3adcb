//! The control-plane write authority. Holds the authority token: the only place
//! privileged write operations can be minted. Judging is a pure predicate and
//! reading lives elsewhere, so this module is just the compile-time boundary.

use vstd::prelude::*;

pub mod authority;

verus! {

/// Proof that a control-plane write was constructed inside this module.
///
/// The inner `()` is private to `verify`, so the token can be minted only here
/// (and in descendant modules such as [`authority`]). No other module can
/// fabricate a control-plane operation. This is what makes "only a ground check
/// sets groundedness" a compile-time guarantee rather than a convention.
#[derive(Debug, Clone, Copy, PartialEq, Eq)]
pub struct ControlToken(());

impl ControlToken {
    fn mint() -> (r: ControlToken) {
        ControlToken(())
    }
}

} // verus!
