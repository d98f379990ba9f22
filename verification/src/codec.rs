//! The stable binary encoding of a device's block sequence.
//!
//! A persisted image is the concatenation of the blocks in ascending LBA
//! order. The image does not embed the dimensions: the descriptor of the
//! device is supplied at decode time, and an image whose length does not
//! match the descriptor is rejected as undecodable.

use vstd::prelude::*;

use crate::data_type::{block_views, blocks_wf, Data, DataBlock, BLOCK_SIZE};
use crate::device_info::DeviceError;

verus! {

/// The persisted image of a block sequence: its blocks, concatenated.
pub open spec fn image_of(s: Seq<Seq<u8>>) -> Seq<u8>
    decreases s.len(),
{
    if s.len() == 0 {
        Seq::empty()
    } else {
        s.first() + image_of(s.drop_first())
    }
}

/// The block sequence recovered from an image, given the block count the
/// descriptor promises.
pub open spec fn decoded_image(bytes: Seq<u8>, n: nat) -> Seq<Seq<u8>> {
    Seq::new(n, |i: int| bytes.subrange(i * BLOCK_SIZE, i * BLOCK_SIZE + BLOCK_SIZE))
}

/// An image of `n` blocks has a byte length the machine can address.
pub open spec fn image_fits(n: nat) -> bool {
    n * BLOCK_SIZE <= usize::MAX
}

/// Appending one block to a sequence appends its bytes to the image.
pub proof fn lemma_image_push(s: Seq<Seq<u8>>, x: Seq<u8>)
    ensures
        image_of(s.push(x)) == image_of(s) + x,
    decreases s.len(),
{
    if s.len() == 0 {
        assert(s.push(x).drop_first() =~= Seq::<Seq<u8>>::empty());
        assert(image_of(Seq::<Seq<u8>>::empty()) == Seq::<u8>::empty());
        assert(s.push(x).first() == x);
        assert(image_of(s.push(x)) == x + Seq::<u8>::empty());
        assert(image_of(s.push(x)) =~= image_of(s) + x);
    } else {
        assert(s.push(x).drop_first() =~= s.drop_first().push(x));
        lemma_image_push(s.drop_first(), x);
        assert(s.first() + (image_of(s.drop_first()) + x) =~= (s.first() + image_of(
            s.drop_first(),
        )) + x);
    }
}

/// An image of `n` well-formed blocks holds exactly `n * BLOCK_SIZE` bytes.
pub proof fn lemma_image_len(s: Seq<Seq<u8>>)
    requires
        blocks_wf(s),
    ensures
        image_of(s).len() == s.len() * BLOCK_SIZE,
    decreases s.len(),
{
    if s.len() > 0 {
        assert(blocks_wf(s.drop_first()));
        lemma_image_len(s.drop_first());
        assert(s[0].len() == BLOCK_SIZE);
    }
}

/// Within the image of well-formed blocks, block `i` occupies the byte
/// range `[i * BLOCK_SIZE, (i + 1) * BLOCK_SIZE)` unchanged.
pub proof fn lemma_image_block(s: Seq<Seq<u8>>, i: int)
    requires
        blocks_wf(s),
        0 <= i < s.len(),
    ensures
        image_of(s).subrange(i * BLOCK_SIZE, i * BLOCK_SIZE + BLOCK_SIZE) == s[i],
    decreases i,
{
    lemma_image_len(s);
    assert(s[0].len() == BLOCK_SIZE);
    if i == 0 {
        assert(image_of(s).subrange(0, BLOCK_SIZE as int) =~= s[0]);
    } else {
        let rest = s.drop_first();
        assert(blocks_wf(rest));
        lemma_image_block(rest, i - 1);
        lemma_image_len(rest);
        assert((i - 1) * BLOCK_SIZE == i * BLOCK_SIZE - BLOCK_SIZE);
        assert(image_of(s).subrange(i * BLOCK_SIZE, i * BLOCK_SIZE + BLOCK_SIZE) =~= image_of(
            rest,
        ).subrange((i - 1) * BLOCK_SIZE, (i - 1) * BLOCK_SIZE + BLOCK_SIZE));
        assert(rest[i - 1] == s[i]);
    }
}

/// Round-trip law: decoding the image of a well-formed block sequence, with
/// the block count of its descriptor, reproduces the sequence byte for byte.
pub proof fn lemma_image_round_trip(s: Seq<Seq<u8>>)
    requires
        blocks_wf(s),
    ensures
        image_of(s).len() == s.len() * BLOCK_SIZE,
        decoded_image(image_of(s), s.len()) == s,
{
    lemma_image_len(s);
    assert forall|i: int| 0 <= i < s.len() implies decoded_image(image_of(s), s.len())[i] == s[i]
        by {
        lemma_image_block(s, i);
    };
    assert(decoded_image(image_of(s), s.len()) =~= s);
}

/// Encodes a block sequence into its persisted image.
pub fn encode_image(data: &Data) -> (r: Vec<u8>)
    requires
        data.wf(),
        image_fits(data@.len()),
    ensures
        r@ == image_of(data@),
{
    proof {
        lemma_image_len(data@);
    }
    let mut out: Vec<u8> = Vec::new();
    let n: usize = data.0.len();
    let mut i: usize = 0;
    while i < n
        invariant
            i <= n,
            n == data@.len(),
            data.wf(),
            image_fits(data@.len()),
            out@ == image_of(data@.subrange(0, i as int)),
            out@.len() == i * BLOCK_SIZE,
        decreases n - i,
    {
        proof {
            lemma_image_len(data@.subrange(0, i as int));
        }
        let blk: &DataBlock = &data.0[i];
        proof {
            assert(data@[i as int].len() == BLOCK_SIZE);
        }
        let mut j: usize = 0;
        while j < BLOCK_SIZE
            invariant
                j <= BLOCK_SIZE,
                i < n,
                n == data@.len(),
                data.wf(),
                blk@ == data@[i as int],
                blk@.len() == BLOCK_SIZE,
                out@ == image_of(data@.subrange(0, i as int)) + blk@.subrange(0, j as int),
                out@.len() == i * BLOCK_SIZE + j,
                image_fits(data@.len()),
            decreases BLOCK_SIZE - j,
        {
            out.push(blk.0[j]);
            proof {
                assert(blk@.subrange(0, j + 1) =~= blk@.subrange(0, j as int).push(blk@[j as int]));
                assert(out@ =~= image_of(data@.subrange(0, i as int)) + blk@.subrange(0, j + 1));
            }
            j = j + 1;
        }
        proof {
            assert(blk@.subrange(0, BLOCK_SIZE as int) =~= blk@);
            lemma_image_push(data@.subrange(0, i as int), data@[i as int]);
            assert(data@.subrange(0, i + 1) =~= data@.subrange(0, i as int).push(data@[i as int]));
        }
        i = i + 1;
    }
    proof {
        assert(data@.subrange(0, n as int) =~= data@);
    }
    out
}

/// Decodes a persisted image back into a block sequence, given the block
/// count the device's descriptor promises. Fails `PersistenceError` exactly
/// when the image length does not match the descriptor.
pub fn decode_image(bytes: &Vec<u8>, block_count: u64) -> (r: Result<Data, DeviceError>)
    ensures
        r is Ok <==> bytes@.len() == block_count * BLOCK_SIZE,
        r matches Err(e) ==> e == DeviceError::PersistenceError,
        r matches Ok(d) ==> {
            &&& d@ == decoded_image(bytes@, block_count as nat)
            &&& d.wf()
            &&& d@.len() == block_count
        },
{
    let bs: u64 = BLOCK_SIZE as u64;
    let total: usize = bytes.len();
    if block_count > u64::MAX / bs {
        proof {
            assert(block_count * bs > u64::MAX) by (nonlinear_arith)
                requires
                    block_count > u64::MAX / bs,
                    bs == BLOCK_SIZE,
            ;
        }
        return Err(DeviceError::PersistenceError);
    }
    let expected: u64 = block_count * bs;
    if total as u64 != expected {
        return Err(DeviceError::PersistenceError);
    }
    let n: usize = block_count as usize;
    let mut blocks: Vec<DataBlock> = Vec::new();
    let mut i: usize = 0;
    while i < n
        invariant
            i <= n,
            n == block_count,
            total == bytes@.len(),
            bytes@.len() == n * BLOCK_SIZE,
            blocks@.len() == i,
            forall|k: int|
                0 <= k < i ==> (#[trigger] blocks@[k])@ == bytes@.subrange(
                    k * BLOCK_SIZE,
                    k * BLOCK_SIZE + BLOCK_SIZE,
                ),
        decreases n - i,
    {
        proof {
            assert(i * BLOCK_SIZE + BLOCK_SIZE <= n * BLOCK_SIZE) by (nonlinear_arith)
                requires
                    i < n,
                    BLOCK_SIZE > 0,
            ;
        }
        let base: usize = i * BLOCK_SIZE;
        let mut blk: Vec<u8> = Vec::new();
        let mut j: usize = 0;
        while j < BLOCK_SIZE
            invariant
                j <= BLOCK_SIZE,
                i < n,
                base == i * BLOCK_SIZE,
                bytes@.len() == n * BLOCK_SIZE,
                blk@ == bytes@.subrange(base as int, base + j),
            decreases BLOCK_SIZE - j,
        {
            proof {
                assert(base + j < bytes@.len()) by (nonlinear_arith)
                    requires
                        base == i * BLOCK_SIZE,
                        bytes@.len() == n * BLOCK_SIZE,
                        i < n,
                        j < BLOCK_SIZE,
                        BLOCK_SIZE > 0,
                ;
            }
            blk.push(bytes[base + j]);
            proof {
                assert(bytes@.subrange(base as int, base + j + 1) =~= bytes@.subrange(
                    base as int,
                    base + j,
                ).push(bytes@[base + j]));
            }
            j = j + 1;
        }
        blocks.push(DataBlock(blk));
        i = i + 1;
    }
    let d = Data(blocks);
    proof {
        assert(d@ =~= decoded_image(bytes@, block_count as nat));
    }
    Ok(d)
}

} // verus!
