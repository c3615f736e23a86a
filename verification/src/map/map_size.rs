//! The sizes of the known maps in cells, width first.

use vstd::prelude::*;

verus! {

pub const FELUCCA: (u32, u32) = (7168, 4096);

pub const TRAMMEL: (u32, u32) = (7168, 4096);

pub const SOSARIA: (u32, u32) = (7168, 4096);

pub const ILSHENAR: (u32, u32) = (2304, 1600);

pub const MALAS: (u32, u32) = (2560, 2048);

pub const TOKUNO: (u32, u32) = (1448, 1448);

pub const TER_MUR: (u32, u32) = (1280, 4096);

} // verus!
