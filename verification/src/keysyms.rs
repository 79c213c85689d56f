//! The X key symbols that the library tells apart.
#![allow(non_upper_case_globals)]
use vstd::prelude::*;

verus! {

pub const KEY_BackSpace: u32 = 0xff08;

pub const KEY_Tab: u32 = 0xff09;

pub const KEY_Return: u32 = 0xff0d;

pub const KEY_Escape: u32 = 0xff1b;

pub const KEY_Home: u32 = 0xff50;

pub const KEY_Left: u32 = 0xff51;

pub const KEY_Up: u32 = 0xff52;

pub const KEY_Right: u32 = 0xff53;

pub const KEY_Down: u32 = 0xff54;

pub const KEY_Prior: u32 = 0xff55;

pub const KEY_Next: u32 = 0xff56;

pub const KEY_End: u32 = 0xff57;

pub const KEY_KP_Tab: u32 = 0xff89;

pub const KEY_KP_Enter: u32 = 0xff8d;

pub const KEY_KP_Home: u32 = 0xff95;

pub const KEY_KP_Left: u32 = 0xff96;

pub const KEY_KP_Up: u32 = 0xff97;

pub const KEY_KP_Right: u32 = 0xff98;

pub const KEY_KP_Down: u32 = 0xff99;

pub const KEY_KP_Prior: u32 = 0xff9a;

pub const KEY_KP_Next: u32 = 0xff9b;

pub const KEY_KP_End: u32 = 0xff9c;

pub const KEY_space: u32 = 0x20;

pub const KEY_bracketleft: u32 = 0x5b;

pub const KEY_backslash: u32 = 0x5c;

pub const KEY_bracketright: u32 = 0x5d;

pub const KEY_asciicircum: u32 = 0x5e;

pub const KEY_underscore: u32 = 0x5f;

pub const KEY_A: u32 = 0x41;

pub const KEY_C: u32 = 0x43;

pub const KEY_V: u32 = 0x56;

pub const KEY_X: u32 = 0x58;

pub const KEY_Z: u32 = 0x5a;

pub const KEY_a: u32 = 0x61;

pub const KEY_c: u32 = 0x63;

pub const KEY_q: u32 = 0x71;

pub const KEY_v: u32 = 0x76;

pub const KEY_x: u32 = 0x78;

pub const KEY_z: u32 = 0x7a;

} // verus!
