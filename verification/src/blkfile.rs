//! File-backed block base images: which bytes of a read come from the file
//! and which read as zero past its end.

use vstd::prelude::*;

verus! {

/// How many leading bytes of a `buf_len`-byte read at `offset` the file
/// supplies; the rest of the buffer reads as zero (past the end of the
/// image).
pub fn file_read_span(file_len: u64, offset: u64, buf_len: usize) -> (r: usize)
    ensures
        offset >= file_len ==> r == 0,
        offset < file_len ==> r == if file_len - offset < buf_len {
            file_len - offset
        } else {
            buf_len as int
        },
        r <= buf_len,
        offset + r <= file_len || r == 0,
{
    if offset >= file_len {
        return 0;
    }
    let left = file_len - offset;
    if left < buf_len as u64 {
        left as usize
    } else {
        buf_len
    }
}

} // verus!
