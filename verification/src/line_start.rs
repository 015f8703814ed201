use vstd::prelude::*;

verus! {

/// One entry of a run-length encoded line map: every instruction byte from
/// `offset` up to the next entry's offset came from source line `line`.
#[derive(Clone, Copy, Debug, PartialEq, Eq, Structural)]
pub struct LineStart {
    pub offset: usize,
    pub line: i32,
}

} // verus!
