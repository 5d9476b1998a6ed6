use vstd::prelude::*;

pub mod modules;
pub mod tray;
pub mod util;

verus! {

} // verus!
