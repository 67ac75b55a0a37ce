use vstd::prelude::*;
use crate::error::FlowNetError;

verus! {

/// The shape of a tensor: channels, height and width.
#[derive(Debug, Clone, Copy, PartialEq, Eq, Structural)]
pub struct TensorShape {
    pub channels: usize,
    pub height: usize,
    pub width: usize,
}

impl TensorShape {
    /// The number of values in one channel.
    pub open spec fn spec_plane(&self) -> int {
        self.height * self.width
    }

    /// The number of values in the whole tensor.
    pub open spec fn spec_len(&self) -> int {
        self.channels * (self.height * self.width)
    }

    pub fn new(channels: usize, height: usize, width: usize) -> (r: TensorShape)
        ensures
            r == (TensorShape { channels, height, width }),
    {
        TensorShape { channels, height, width }
    }

    /// The number of values in one channel, if it fits in a `usize`.
    pub fn plane(&self) -> (r: Option<usize>)
        ensures
            r == (if self.spec_plane() <= usize::MAX {
                Some(self.spec_plane() as usize)
            } else {
                None::<usize>
            }),
    {
        self.height.checked_mul(self.width)
    }

    /// The number of values in the tensor, if it fits in a `usize`.
    pub fn len(&self) -> (r: Option<usize>)
        ensures
            r == (if self.spec_plane() <= usize::MAX && self.spec_len() <= usize::MAX {
                Some(self.spec_len() as usize)
            } else {
                None::<usize>
            }),
    {
        match self.height.checked_mul(self.width) {
            Some(plane) => self.channels.checked_mul(plane),
            None => None,
        }
    }

    /// Checks that a flat buffer of `len` values holds a tensor of this
    /// shape with `channels` channels, and returns the size of one channel
    /// (which must fit in a `usize`).
    pub fn plane_for(&self, channels: usize, len: usize) -> (r: Result<usize, FlowNetError>)
        ensures
            r is Ok <==> (self.channels == channels && self.spec_plane() <= usize::MAX
                && self.spec_len() == len),
            r is Ok ==> r->Ok_0 == self.spec_plane(),
            !(r is Ok) ==> r == Err::<usize, FlowNetError>(FlowNetError::InvalidDimensions),
    {
        if self.channels != channels {
            return Err(FlowNetError::InvalidDimensions);
        }
        match self.plane() {
            Some(plane) => match self.channels.checked_mul(plane) {
                Some(n) => if n == len {
                    Ok(plane)
                } else {
                    Err(FlowNetError::InvalidDimensions)
                },
                None => Err(FlowNetError::InvalidDimensions),
            },
            None => Err(FlowNetError::InvalidDimensions),
        }
    }
}

/// The shape that a flat buffer of `len` values takes at the boundary,
/// where only its length is known: `channels` channels of one row each.
/// The values of each channel are treated alike whatever its height and
/// width, so this shape loses nothing.
pub fn flat_shape(len: usize, channels: usize) -> (r: Result<TensorShape, FlowNetError>)
    ensures
        r is Ok <==> (channels > 0 && len % channels == 0),
        r is Ok ==> r->Ok_0 == (TensorShape { channels, height: 1, width: len / channels }),
        r is Ok ==> r->Ok_0.spec_len() == len,
        !(r is Ok) ==> r == Err::<TensorShape, FlowNetError>(FlowNetError::InvalidDimensions),
{
    if channels == 0 || len % channels != 0 {
        return Err(FlowNetError::InvalidDimensions);
    }
    let width = len / channels;
    let r = TensorShape { channels, height: 1, width };
    assert(r.spec_len() == len) by (nonlinear_arith)
        requires
            channels > 0,
            len % channels == 0,
            width == len / channels,
            r.spec_len() == channels * (1 * width),
    ;
    Ok(r)
}

} // verus!
