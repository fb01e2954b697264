use vstd::prelude::*;

verus! {

/// Length of the zero-terminated string at the start of `buffer`: the index
/// of the first zero byte, or the whole length when there is none.
pub fn get_c_string_length(buffer: &[u8]) -> (r: usize)
    ensures
        r <= buffer@.len(),
        forall|i: int| 0 <= i < r ==> buffer@[i] != 0,
        r < buffer@.len() ==> buffer@[r as int] == 0,
{
    let mut len: usize = 0;
    while len < buffer.len()
        invariant
            len <= buffer@.len(),
            forall|i: int| 0 <= i < len ==> buffer@[i] != 0,
        decreases buffer@.len() - len,
    {
        if buffer[len] == 0 {
            return len;
        }
        len = len + 1;
    }
    len
}

} // verus!
