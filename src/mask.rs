use vstd::prelude::*;

verus! {

/// How a block's channel mask is chosen.
#[derive(Debug, Clone, Copy, PartialEq, Eq, Structural)]
pub enum MaskMode {
    /// Every block transforms the even channels (the compatible behaviour).
    Static,
    /// Blocks at even positions transform the even channels, blocks at odd
    /// positions the odd channels.
    Alternating,
}

/// Whether channel `i` is transformed (rather than conditioning) in the
/// block at position `block_index` of its level.
pub open spec fn mask_bit(mode: MaskMode, block_index: int, i: int) -> bool {
    match mode {
        MaskMode::Static => i % 2 == 0,
        MaskMode::Alternating => if block_index % 2 == 0 {
            i % 2 == 0
        } else {
            i % 2 == 1
        },
    }
}

/// The mask of `channels` channels for the block at `block_index`.
pub open spec fn mask_of(mode: MaskMode, block_index: int, channels: nat) -> Seq<bool> {
    Seq::new(channels, |i: int| mask_bit(mode, block_index, i))
}

/// The channel mask of a block: `true` marks a transformed channel,
/// `false` a conditioning channel.
pub fn channel_mask(channels: usize, mode: MaskMode, block_index: usize) -> (r: Vec<bool>)
    ensures
        r@ == mask_of(mode, block_index as int, channels as nat),
{
    let odd_block = block_index % 2 == 1;
    let mut r: Vec<bool> = Vec::with_capacity(channels);
    let mut i: usize = 0;
    while i < channels
        invariant
            i <= channels,
            odd_block == (block_index % 2 == 1),
            r@ == mask_of(mode, block_index as int, i as nat),
        decreases channels - i,
    {
        let even_channel = i % 2 == 0;
        let bit = match mode {
            MaskMode::Static => even_channel,
            MaskMode::Alternating => if odd_block {
                !even_channel
            } else {
                even_channel
            },
        };
        r.push(bit);
        i = i + 1;
        assert(r@ =~= mask_of(mode, block_index as int, i as nat));
    }
    r
}

/// The two masks that alternating blocks use are complementary: every
/// channel is transformed by exactly one of two neighbouring blocks.
pub proof fn lemma_alternating_masks_complement(block_index: nat, channels: nat)
    ensures
        forall|i: int|
            0 <= i < channels ==> mask_of(MaskMode::Alternating, block_index as int, channels)[i]
                != mask_of(MaskMode::Alternating, block_index + 1 as int, channels)[i],
{
}

/// The static mask is the same for every block.
pub proof fn lemma_static_mask_shared(a: nat, b: nat, channels: nat)
    ensures
        mask_of(MaskMode::Static, a as int, channels) == mask_of(MaskMode::Static, b as int, channels),
{
    assert(mask_of(MaskMode::Static, a as int, channels) =~= mask_of(MaskMode::Static, b as int, channels));
}

} // verus!
