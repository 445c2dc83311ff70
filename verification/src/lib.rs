use vstd::prelude::*;

pub mod api;
pub mod hypervisor;
pub mod tarball;
pub mod order;
pub mod reply;
pub mod router;
pub mod text;

verus! {

} // verus!
