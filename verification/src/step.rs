//! One step of a computation that depends on outside reads.
//!
//! Such a computation is a function of what has been read so far. It either
//! names the next thing that has to be read, or it is done. The caller reads
//! what was asked for, records the answer and asks again.

use vstd::prelude::*;

verus! {

pub enum Step<R, T> {
    /// The answer to this read has to be known first.
    Need(R),
    /// The computation's result.
    Done(T),
}

} // verus!
