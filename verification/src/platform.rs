use vstd::prelude::*;

pub mod linux;

verus! {

} // verus!
