//! Code mode: one session per thread that runs cells of JavaScript. The rules of a session stand
//! here; the engine that runs a cell, and the clock, stay outside.
pub mod nested;
pub mod protocol;
pub mod session;
pub mod tools;

use vstd::prelude::*;

verus! {

} // verus!
