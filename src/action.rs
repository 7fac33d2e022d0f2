use vstd::prelude::*;

verus! {

/// What a subscriber wants done when one of its events is observed.
#[derive(Clone, Copy, Debug, Hash, PartialEq, Eq, Structural)]
pub enum ChainAction {
    Notify,
}

} // verus!
