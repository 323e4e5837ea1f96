//! Buffers of bytes: making them and copying into them.

use vstd::prelude::*;

verus! {

/// Copies `bytes` to the end of `out`.
pub fn append(out: &mut Vec<u8>, bytes: &[u8])
    ensures
        final(out)@ == old(out)@ + bytes@,
{
    let mut k: usize = 0;
    while k < bytes.len()
        invariant
            k <= bytes.len(),
            out@ == old(out)@ + bytes@.take(k as int),
        decreases bytes.len() - k,
    {
        out.push(bytes[k]);
        k += 1;
    }
}

/// A buffer of `size` zero bytes, to hold one pixel.
pub fn scratch(size: usize) -> (buf: Vec<u8>)
    ensures
        buf@.len() == size,
{
    let mut buf: Vec<u8> = Vec::new();
    while buf.len() < size
        invariant
            buf@.len() <= size,
        decreases size - buf@.len(),
    {
        buf.push(0);
    }
    buf
}

} // verus!
