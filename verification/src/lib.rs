//! HTTP/1 codecs and client logic, with the behaviour of each part stated and proved.
use vstd::prelude::*;

pub mod client;
pub mod common;
pub mod h1;
pub mod h2;
pub mod util;

verus! {

/// Something that can hand out a `T` made from what it holds.
pub trait Param<T> {
    fn param(&self) -> T;
}

/// Something that holds a `T` and lends it.
pub trait ParamRef<T> {
    fn param_ref(&self) -> &T;
}

/// Something that holds a `T` and lends it for change.
pub trait ParamMut<T> {
    fn param_mut(&mut self) -> &mut T;
}

} // verus!
