//! The places of the palette's colors.
use vstd::prelude::*;

use crate::graphics::Index;

verus! {

pub const LAVENDER: Index = 0;

pub const GUNMETAL: Index = 1;

pub const PLUM: Index = 2;

pub const BROWN: Index = 3;

pub const PEACH: Index = 4;

pub const CREAM: Index = 5;

pub const LIME: Index = 6;

pub const GREEN: Index = 7;

pub const ORANGE: Index = 8;

pub const CRIMSON: Index = 9;

pub const ROSE: Index = 10;

pub const PURPLE: Index = 11;

pub const CYAN: Index = 12;

pub const BLUE: Index = 13;

pub const PINE: Index = 14;

pub const BLACK: Index = 15;

} // verus!
