//! The shapes of the pointer.
use vstd::prelude::*;

verus! {

#[derive(Clone, Copy, Debug, PartialEq, Eq, Structural)]
pub enum CursorKind {
    Pointer,
    Text,
    Hand,
    Disabled,
}

pub const CURSOR_KIND_COUNT: usize = 4;

} // verus!
