use vstd::prelude::*;

verus! {

/// What a frame of the presentation loop asks of the loop.
#[derive(PartialEq, Eq, Structural, Clone, Copy, Debug)]
pub enum Command {
    Exit,
}

} // verus!
