use vstd::prelude::*;
use crate::buffer::shrink_to;

verus! {

/// An owned block of bytes whose size the holder tracks and hands back on
/// every resize and release.
pub struct RawBlock {
    bytes: Vec<u8>,
}

impl View for RawBlock {
    type V = Seq<u8>;

    /// The bytes of the block; its length is the block's size.
    closed spec fn view(&self) -> Seq<u8> {
        self.bytes@
    }
}

/// The smaller of two sizes.
pub open spec fn min_size(a: nat, b: nat) -> nat {
    if a <= b {
        a
    } else {
        b
    }
}

/// `after` has `new_size` bytes and agrees with `before` on every byte that
/// both of them hold.
pub open spec fn keeps_prefix(before: Seq<u8>, after: Seq<u8>, new_size: nat) -> bool {
    let m = min_size(before.len(), new_size) as int;
    &&& after.len() == new_size
    &&& after.subrange(0, m) == before.subrange(0, m)
}

impl RawBlock {
    /// Takes ownership of `bytes` as a block of `bytes.len()` bytes.
    pub fn from_bytes(bytes: Vec<u8>) -> (r: Self)
        ensures
            r@ == bytes@,
    {
        RawBlock { bytes }
    }

    /// Gives up the block as its bytes.
    pub fn into_bytes(self) -> (r: Vec<u8>)
        ensures
            r@ == self@,
    {
        self.bytes
    }

    /// The size of the block in bytes.
    pub fn size(&self) -> (r: usize)
        ensures
            r == self@.len(),
    {
        self.bytes.len()
    }

    /// The bytes of the block.
    pub fn as_slice(&self) -> (r: &[u8])
        ensures
            r@ == self@,
    {
        self.bytes.as_slice()
    }

    /// The byte at `index`.
    pub fn read(&self, index: usize) -> (r: u8)
        requires
            index < self@.len(),
        ensures
            r == self@[index as int],
    {
        self.bytes[index]
    }

    /// Sets the byte at `index`.
    pub fn write(&mut self, index: usize, value: u8)
        requires
            index < old(self)@.len(),
        ensures
            final(self)@ == old(self)@.update(index as int, value),
    {
        self.bytes.set(index, value);
    }
}

/// Allocates a block of `size` bytes; a request for no bytes gives no block.
/// The bytes' values are not part of the promise.
pub fn allocate(size: usize) -> (r: Option<RawBlock>)
    requires
        size <= isize::MAX,
    ensures
        r is None <==> size == 0,
        r matches Some(b) ==> b@.len() == size,
{
    if size == 0 {
        return None;
    }
    Some(RawBlock { bytes: vec![0u8; size] })
}

/// Releases a block. The caller passes the size the block was last given.
pub fn deallocate(block: Option<RawBlock>, size: usize)
    requires
        block matches Some(b) ==> b@.len() == size,
{
    if let Some(b) = block {
        // the bytes go out of scope here, which returns their memory
        let bytes: Vec<u8> = b.into_bytes();
    }
}

/// Resizes a block to `new_size` bytes, keeping the bytes up to the smaller
/// of the two sizes. No block is resized as a fresh allocation; a new size of
/// zero releases the block and gives none.
pub fn reallocate(block: Option<RawBlock>, old_size: usize, new_size: usize) -> (r: Option<
    RawBlock,
>)
    requires
        new_size <= isize::MAX,
        block matches Some(b) ==> b@.len() == old_size,
    ensures
        r is None <==> new_size == 0,
        r matches Some(nb) ==> nb@.len() == new_size,
        r matches Some(nb) ==> (block matches Some(b) ==> keeps_prefix(b@, nb@, new_size as nat)),
{
    match block {
        None => allocate(new_size),
        Some(b) => {
            if new_size == 0 {
                deallocate(Some(b), old_size);
                return None;
            }
            let mut bytes = b.bytes;
            let ghost before = bytes@;
            if new_size > old_size {
                bytes.resize(new_size, 0u8);
            } else {
                bytes.truncate(new_size);
                shrink_to(&mut bytes, new_size);
            }
            proof {
                let m = min_size(old_size as nat, new_size as nat) as int;
                assert(bytes@.subrange(0, m) =~= before.subrange(0, m));
            }
            Some(RawBlock { bytes })
        },
    }
}

/// Resizing a block to the size it already has loses none of its bytes.
pub proof fn lemma_same_size_resize_keeps_block(before: Seq<u8>, after: Seq<u8>)
    requires
        keeps_prefix(before, after, before.len()),
    ensures
        after == before,
{
    assert(before.subrange(0, before.len() as int) == before);
    assert(after.subrange(0, after.len() as int) == after);
}

} // verus!
