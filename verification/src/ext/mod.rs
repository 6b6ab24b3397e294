//! Contracts for the outside functions that the library calls.

pub mod byte_buf;
pub mod codec;
pub mod ids;
pub mod text;
pub mod time;
pub mod zstd_bulk;

use vstd::prelude::*;

verus! {

/// What a call comes to: a value, or an error with its text.
pub enum Outcome<T> {
    Value(T),
    Failure(Seq<char>),
}

}
