use vstd::prelude::*;

verus! {

/// A position in the buffer, 0-indexed. `column` may equal the length of
/// its line, which denotes the place after the last character.
#[derive(Debug, Clone, Copy, PartialEq, Eq, Structural)]
pub struct Cursor {
    pub row: usize,
    pub column: usize,
}

} // verus!
