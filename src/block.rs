use vstd::prelude::*;
use crate::coupling::CouplingType;
use crate::error::FlowNetError;
use crate::mask::{channel_mask, mask_of, MaskMode};
use crate::shape::TensorShape;

verus! {

/// One reversible transform unit: its coupling law, its channel mask
/// (`true` marks a transformed channel) and the depth of the network that
/// would compute its parameters.
pub struct CouplingBlock {
    coupling_type: CouplingType,
    mask: Vec<bool>,
    depth: usize,
}

impl CouplingBlock {
    pub closed spec fn spec_coupling_type(&self) -> CouplingType {
        self.coupling_type
    }

    pub closed spec fn spec_mask(&self) -> Seq<bool> {
        self.mask@
    }

    pub closed spec fn spec_depth(&self) -> nat {
        self.depth as nat
    }

    /// A block over `channels` channels whose transformed channels are the
    /// even ones.
    pub fn new(coupling_type: CouplingType, channels: usize, depth: usize) -> (r: CouplingBlock)
        ensures
            r.spec_coupling_type() == coupling_type,
            r.spec_mask() == mask_of(MaskMode::Static, 0, channels as nat),
            r.spec_depth() == depth,
    {
        CouplingBlock::with_mask_mode(coupling_type, channels, depth, MaskMode::Static, 0)
    }

    /// A block over `channels` channels whose mask is chosen by `mode` for
    /// position `block_index` of its level.
    pub fn with_mask_mode(
        coupling_type: CouplingType,
        channels: usize,
        depth: usize,
        mode: MaskMode,
        block_index: usize,
    ) -> (r: CouplingBlock)
        ensures
            r.spec_coupling_type() == coupling_type,
            r.spec_mask() == mask_of(mode, block_index as int, channels as nat),
            r.spec_depth() == depth,
    {
        CouplingBlock { coupling_type, mask: channel_mask(channels, mode, block_index), depth }
    }

    pub fn coupling_type(&self) -> (r: CouplingType)
        ensures
            r == self.spec_coupling_type(),
    {
        self.coupling_type
    }

    pub fn mask(&self) -> (r: &Vec<bool>)
        ensures
            r@ == self.spec_mask(),
    {
        &self.mask
    }

    pub fn depth(&self) -> (r: usize)
        ensures
            r == self.spec_depth(),
    {
        self.depth
    }

    /// The number of channels that this block expects.
    pub fn channels(&self) -> (r: usize)
        ensures
            r == self.spec_mask().len(),
    {
        self.mask.len()
    }

    /// Checks that a flat buffer of `len` values holds a tensor of `shape`
    /// with as many channels as the mask, and returns the size of one
    /// channel.
    pub fn check_input(&self, shape: &TensorShape, len: usize) -> (r: Result<usize, FlowNetError>)
        ensures
            r is Ok <==> (shape.channels == self.spec_mask().len() && shape.spec_plane()
                <= usize::MAX && shape.spec_len() == len),
            r is Ok ==> r->Ok_0 == shape.spec_plane(),
            !(r is Ok) ==> r == Err::<usize, FlowNetError>(FlowNetError::InvalidDimensions),
    {
        shape.plane_for(self.mask.len(), len)
    }
}

} // verus!
