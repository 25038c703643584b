use vstd::prelude::*;

pub mod hexcode;
pub mod cipher;
pub mod records;
pub mod store;

verus! {

} // verus!
