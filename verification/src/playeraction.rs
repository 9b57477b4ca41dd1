use vstd::prelude::*;

use crate::point::Point;

verus! {

/// One player decision handed to the turn engine: a one-cell move (or a
/// zero offset to wait), or the context-sensitive interact action.
#[derive(Clone, Copy, Debug)]
pub enum PlayerAction {
    MoveBy(Point),
    Select,
}

} // verus!
