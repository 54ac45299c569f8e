use vstd::prelude::*;

verus! {

/// Width of the internal render target, in game pixels.
pub const INTERNAL_WIDTH: u32 = 256;

/// Height of the internal render target, in game pixels.
pub const INTERNAL_HEIGHT: u32 = 350;

/// Window width: twice the internal width.
pub const WINDOW_WIDTH: i32 = 512;

/// Window height: twice the internal height.
pub const WINDOW_HEIGHT: i32 = 700;

} // verus!
