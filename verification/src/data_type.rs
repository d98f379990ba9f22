//! Fixed-size data blocks and the ordered block sequence a device stores.

use vstd::prelude::*;

verus! {

/// Number of bytes in one block. Every device of this crate uses this block
/// size; a device's total byte size is always a multiple of it.
pub const BLOCK_SIZE: usize = 4096;

/// The byte content of an unmapped block: one that has never been written.
/// The sentinel is the all-zero block, so a deliberate write of all zeroes is
/// indistinguishable from a block that was never touched; the crate keeps
/// that ambiguity rather than tracking a separate mapped/unmapped bit.
pub open spec fn unmap_block() -> Seq<u8> {
    Seq::new(BLOCK_SIZE as nat, |i: int| 0u8)
}

/// Every block in `s` holds exactly `BLOCK_SIZE` bytes.
pub open spec fn blocks_wf(s: Seq<Seq<u8>>) -> bool {
    forall|i: int| 0 <= i < s.len() ==> (#[trigger] s[i]).len() == BLOCK_SIZE
}

/// The byte contents of a sequence of blocks, block by block.
pub open spec fn block_views(s: Seq<DataBlock>) -> Seq<Seq<u8>> {
    Seq::new(s.len(), |i: int| s[i]@)
}

/// One fixed-size block of device data.
pub struct DataBlock(pub Vec<u8>);

impl View for DataBlock {
    type V = Seq<u8>;

    open spec fn view(&self) -> Seq<u8> {
        self.0@
    }
}

impl DataBlock {
    /// The block holds exactly `BLOCK_SIZE` bytes.
    pub open spec fn wf(&self) -> bool {
        self@.len() == BLOCK_SIZE
    }

    /// A block in the unmapped state: every byte zero.
    pub fn unmapped() -> (r: DataBlock)
        ensures
            r@ == unmap_block(),
    {
        let r = DataBlock::filled(0);
        proof {
            assert(r@ =~= unmap_block());
        }
        r
    }

    /// A block with every byte equal to `b`.
    pub fn filled(b: u8) -> (r: DataBlock)
        ensures
            r@.len() == BLOCK_SIZE,
            forall|i: int| 0 <= i < BLOCK_SIZE ==> r@[i] == b,
    {
        let mut v: Vec<u8> = Vec::new();
        let mut i: usize = 0;
        while i < BLOCK_SIZE
            invariant
                i <= BLOCK_SIZE,
                v@.len() == i,
                forall|k: int| 0 <= k < i ==> v@[k] == b,
            decreases BLOCK_SIZE - i,
        {
            v.push(b);
            i = i + 1;
        }
        DataBlock(v)
    }

    /// A block built from exactly `BLOCK_SIZE` caller-supplied bytes; any
    /// other length is refused.
    pub fn from_bytes(bytes: Vec<u8>) -> (r: Option<DataBlock>)
        ensures
            r is Some <==> bytes@.len() == BLOCK_SIZE,
            r matches Some(blk) ==> blk@ == bytes@,
    {
        if bytes.len() == BLOCK_SIZE {
            Some(DataBlock(bytes))
        } else {
            None
        }
    }
}

impl Clone for DataBlock {
    fn clone(&self) -> (r: Self)
        ensures
            r@ == self@,
    {
        let mut v: Vec<u8> = Vec::new();
        let mut i: usize = 0;
        while i < self.0.len()
            invariant
                i <= self.0.len(),
                v@.len() == i,
                forall|k: int| 0 <= k < i ==> v@[k] == self.0@[k],
            decreases self.0.len() - i,
        {
            v.push(self.0[i]);
            i = i + 1;
        }
        proof {
            assert(v@ =~= self.0@);
        }
        DataBlock(v)
    }
}

/// The ordered block contents of one device, indexed by logical block
/// address.
pub struct Data(pub Vec<DataBlock>);

impl View for Data {
    type V = Seq<Seq<u8>>;

    open spec fn view(&self) -> Seq<Seq<u8>> {
        block_views(self.0@)
    }
}

impl Data {
    /// Every block has the fixed block size.
    pub open spec fn wf(&self) -> bool {
        blocks_wf(self@)
    }

    /// `size` blocks, each in the unmapped state.
    pub fn new(size: usize) -> (r: Self)
        ensures
            r@.len() == size,
            forall|i: int| 0 <= i < size ==> r@[i] == unmap_block(),
            r.wf(),
    {
        let mut items: Vec<DataBlock> = Vec::new();
        let mut i: usize = 0;
        while i < size
            invariant
                i <= size,
                items@.len() == i,
                forall|k: int| 0 <= k < i ==> (#[trigger] items@[k])@ == unmap_block(),
            decreases size - i,
        {
            items.push(DataBlock::unmapped());
            i = i + 1;
        }
        Data(items)
    }
}

} // verus!
