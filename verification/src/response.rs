use vstd::prelude::*;

verus! {

/// Adds one read of a response to the page read so far: the first `len` bytes
/// of `buf` are appended. A read of zero bytes marks the end of the response;
/// the result tells whether to read on.
pub fn collect_read(page: &mut Vec<u8>, buf: &Vec<u8>, len: usize) -> (more: bool)
    requires
        len <= buf.len(),
    ensures
        more == (len != 0),
        final(page)@ == old(page)@ + buf@.subrange(0, len as int),
{
    if len == 0 {
        assert(buf@.subrange(0, 0) == Seq::<u8>::empty());
        assert(page@ == old(page)@ + buf@.subrange(0, 0));
        return false;
    }
    let mut i: usize = 0;
    while i < len
        invariant
            i <= len <= buf.len(),
            page@ == old(page)@ + buf@.subrange(0, i as int),
        decreases len - i,
    {
        page.push(buf[i]);
        assert(buf@.subrange(0, i + 1) == buf@.subrange(0, i as int).push(buf@[i as int]));
        i += 1;
    }
    true
}

} // verus!
