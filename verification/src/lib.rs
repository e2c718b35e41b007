use vstd::prelude::*;

pub mod value;
pub mod event_loop;
pub mod text;
pub mod diagnostics;
pub mod error;
pub mod json;
pub mod debugger;
pub mod gc;
pub mod gpu;
pub mod edge;
pub mod ffi;
pub mod effects;
pub mod distributed;
pub mod durable;

verus! {
} // verus!
