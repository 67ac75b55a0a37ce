use vstd::prelude::*;
use vstd::arithmetic::div_mod::lemma_fundamental_div_mod_converse;
use crate::block::CouplingBlock;
use crate::coupling::{coupling_of, lemma_channel_of, CouplingType};
use crate::error::FlowNetError;
use crate::mask::{mask_of, MaskMode};
use crate::shape::TensorShape;

verus! {

/// The channel count of every engine: one channel per colour component.
pub const CHANNELS: usize = 3;

/// The order in which `encode_with` visits the blocks: level by level from the
/// first, and within a level block by block from the first. Step `k` is
/// block `k % depth` of level `k / depth`.
pub open spec fn encode_order(levels: nat, depth: nat) -> Seq<(usize, usize)> {
    Seq::new(levels * depth, |k: int| ((k / depth as int) as usize, (k % depth as int) as usize))
}

/// The order in which `decode_with` visits the blocks: the exact reverse of the
/// encode order.
pub open spec fn decode_order(levels: nat, depth: nat) -> Seq<(usize, usize)> {
    encode_order(levels, depth).reverse()
}

/// A flat buffer of `len` values holds a tensor of `shape` with `CHANNELS`
/// channels, whose channel size fits in a `usize`.
pub open spec fn fits_engine(shape: TensorShape, len: int) -> bool {
    shape.channels == CHANNELS && shape.spec_plane() <= usize::MAX && shape.spec_len() == len
}

/// `zs` is a run of `step` over the blocks of `net` named by `plan`: it
/// holds one tensor more than `plan` holds steps, and each step took the
/// tensor before it to the tensor after it.
pub open spec fn is_run<T, F: Fn(&CouplingBlock, T) -> Result<T, FlowNetError>>(
    net: &FlowNet,
    plan: Seq<(usize, usize)>,
    step: F,
    zs: Seq<T>,
) -> bool {
    &&& zs.len() == plan.len() + 1
    &&& forall|k: int|
        0 <= k < plan.len() ==> step.ensures(
            (&#[trigger] net.spec_block(plan[k].0 as int, plan[k].1 as int), zs[k]),
            Ok::<T, FlowNetError>(zs[k + 1]),
        )
}

/// The lifecycle of an engine.
#[derive(Debug, Clone, Copy, PartialEq, Eq, Structural)]
pub enum ModelState {
    Unloaded,
    Loaded,
}

/// The coupling-flow engine: `levels` levels of `depth` coupling blocks
/// each, over tensors of `CHANNELS` channels, and the state of its model.
pub struct FlowNet {
    levels: usize,
    depth: usize,
    mask_mode: MaskMode,
    state: ModelState,
    coupling_blocks: Vec<Vec<CouplingBlock>>,
}

impl FlowNet {
    pub closed spec fn spec_levels(&self) -> nat {
        self.levels as nat
    }

    pub closed spec fn spec_depth(&self) -> nat {
        self.depth as nat
    }

    pub closed spec fn spec_mask_mode(&self) -> MaskMode {
        self.mask_mode
    }

    pub closed spec fn spec_state(&self) -> ModelState {
        self.state
    }

    pub open spec fn spec_loaded(&self) -> bool {
        self.spec_state() == ModelState::Loaded
    }

    /// The number of blocks held at `level`.
    pub closed spec fn spec_level_len(&self, level: int) -> nat {
        self.coupling_blocks@[level]@.len()
    }

    /// Block `index` of `level`.
    pub closed spec fn spec_block(&self, level: int, index: int) -> CouplingBlock {
        self.coupling_blocks@[level]@[index]
    }

    pub closed spec fn spec_level_count(&self) -> nat {
        self.coupling_blocks@.len()
    }

    /// The blocks have the layout that the engine's configuration gives:
    /// `levels` levels of `depth` blocks, where block `b` of each level uses
    /// the law for position `b`, the mask that the mask mode gives for `b`,
    /// and the engine's depth.
    pub open spec fn well_formed(&self) -> bool {
        &&& self.spec_level_count() == self.spec_levels()
        &&& forall|l: int|
            0 <= l < self.spec_levels() ==> #[trigger] self.spec_level_len(l) == self.spec_depth()
        &&& forall|l: int, b: int|
            0 <= l < self.spec_levels() && 0 <= b < self.spec_depth() ==> {
                let blk = #[trigger] self.spec_block(l, b);
                &&& blk.spec_coupling_type() == coupling_of(b)
                &&& blk.spec_mask() == mask_of(self.spec_mask_mode(), b, CHANNELS as nat)
                &&& blk.spec_depth() == self.spec_depth()
            }
    }

    #[verifier::type_invariant]
    closed spec fn layout_holds(self) -> bool {
        self.well_formed()
    }

    /// An unloaded engine of `levels` levels of `depth` blocks, every block
    /// transforming the even channels.
    pub fn new(levels: usize, depth: usize) -> (r: FlowNet)
        ensures
            r.well_formed(),
            r.spec_levels() == levels,
            r.spec_depth() == depth,
            r.spec_mask_mode() == MaskMode::Static,
            r.spec_state() == ModelState::Unloaded,
    {
        FlowNet::with_mask_mode(levels, depth, MaskMode::Static)
    }

    /// An unloaded engine of `levels` levels of `depth` blocks, with masks
    /// chosen by `mode`.
    pub fn with_mask_mode(levels: usize, depth: usize, mode: MaskMode) -> (r: FlowNet)
        ensures
            r.well_formed(),
            r.spec_levels() == levels,
            r.spec_depth() == depth,
            r.spec_mask_mode() == mode,
            r.spec_state() == ModelState::Unloaded,
    {
        let mut coupling_blocks: Vec<Vec<CouplingBlock>> = Vec::new();
        let mut l: usize = 0;
        while l < levels
            invariant
                l <= levels,
                coupling_blocks@.len() == l,
                forall|i: int| 0 <= i < l ==> (#[trigger] coupling_blocks@[i])@.len() == depth,
                forall|i: int, b: int|
                    0 <= i < l && 0 <= b < depth ==> {
                        let blk = #[trigger] coupling_blocks@[i]@[b];
                        &&& blk.spec_coupling_type() == coupling_of(b)
                        &&& blk.spec_mask() == mask_of(mode, b, CHANNELS as nat)
                        &&& blk.spec_depth() == depth
                    },
            decreases levels - l,
        {
            let mut level_blocks: Vec<CouplingBlock> = Vec::new();
            let mut b: usize = 0;
            while b < depth
                invariant
                    b <= depth,
                    level_blocks@.len() == b,
                    forall|j: int|
                        0 <= j < b ==> {
                            let blk = #[trigger] level_blocks@[j];
                            &&& blk.spec_coupling_type() == coupling_of(j)
                            &&& blk.spec_mask() == mask_of(mode, j, CHANNELS as nat)
                            &&& blk.spec_depth() == depth
                        },
                decreases depth - b,
            {
                let block = CouplingBlock::with_mask_mode(
                    CouplingType::for_block(b),
                    CHANNELS,
                    depth,
                    mode,
                    b,
                );
                level_blocks.push(block);
                b = b + 1;
            }
            coupling_blocks.push(level_blocks);
            l = l + 1;
        }
        FlowNet { levels, depth, mask_mode: mode, state: ModelState::Unloaded, coupling_blocks }
    }

    /// The default configuration: 4 levels of depth 4.
    pub fn default() -> (r: FlowNet)
        ensures
            r.well_formed(),
            r.spec_levels() == 4,
            r.spec_depth() == 4,
            r.spec_mask_mode() == MaskMode::Static,
            r.spec_state() == ModelState::Unloaded,
    {
        FlowNet::new(4, 4)
    }

    pub fn levels(&self) -> (r: usize)
        ensures
            r == self.spec_levels(),
    {
        self.levels
    }

    pub fn depth(&self) -> (r: usize)
        ensures
            r == self.spec_depth(),
    {
        self.depth
    }

    /// The number of channels that the engine's tensors have.
    pub fn channels(&self) -> (r: usize)
        ensures
            r == CHANNELS,
    {
        CHANNELS
    }

    pub fn mask_mode(&self) -> (r: MaskMode)
        ensures
            r == self.spec_mask_mode(),
    {
        self.mask_mode
    }

    pub fn state(&self) -> (r: ModelState)
        ensures
            r == self.spec_state(),
    {
        self.state
    }

    pub fn is_loaded(&self) -> (r: bool)
        ensures
            r == self.spec_loaded(),
    {
        match self.state {
            ModelState::Loaded => true,
            ModelState::Unloaded => false,
        }
    }

    /// Takes the engine to the loaded state. The weights are accepted as
    /// they are: the parameters come from the conditioning channels. A
    /// second call changes nothing.
    pub fn load_weights(&mut self, weights: &[u8]) -> (r: Result<(), FlowNetError>)
        ensures
            r is Ok,
            final(self).spec_state() == ModelState::Loaded,
            final(self).spec_levels() == old(self).spec_levels(),
            final(self).spec_depth() == old(self).spec_depth(),
            final(self).spec_mask_mode() == old(self).spec_mask_mode(),
            final(self).spec_level_count() == old(self).spec_level_count(),
            forall|l: int| #[trigger] final(self).spec_level_len(l) == old(self).spec_level_len(l),
            forall|l: int, b: int| #[trigger] final(self).spec_block(l, b) == old(self).spec_block(l, b),
            final(self).well_formed(),
    {
        proof {
            use_type_invariant(&*self);
            let next = FlowNet { state: ModelState::Loaded, ..*self };
            assert(forall|l: int| #[trigger] next.spec_level_len(l) == self.spec_level_len(l));
            assert(forall|l: int, b: int| #[trigger] next.spec_block(l, b) == self.spec_block(l, b));
            assert(next.well_formed());
        }
        self.state = ModelState::Loaded;
        assert(forall|l: int| #[trigger] self.spec_level_len(l) == old(self).spec_level_len(l));
        assert(forall|l: int, b: int| #[trigger] self.spec_block(l, b) == old(self).spec_block(l, b));
        proof {
            use_type_invariant(&*self);
        }
        Ok(())
    }

    /// Takes the engine to the loaded state from a serialized model, as
    /// `load_weights` does.
    pub fn load_onnx(&mut self, model_bytes: &[u8]) -> (r: Result<(), FlowNetError>)
        ensures
            r is Ok,
            final(self).spec_state() == ModelState::Loaded,
            final(self).spec_levels() == old(self).spec_levels(),
            final(self).spec_depth() == old(self).spec_depth(),
            final(self).spec_mask_mode() == old(self).spec_mask_mode(),
            final(self).spec_level_count() == old(self).spec_level_count(),
            forall|l: int| #[trigger] final(self).spec_level_len(l) == old(self).spec_level_len(l),
            forall|l: int, b: int| #[trigger] final(self).spec_block(l, b) == old(self).spec_block(l, b),
            final(self).well_formed(),
    {
        self.load_weights(model_bytes)
    }

    /// Block `index` of `level`.
    pub fn block(&self, level: usize, index: usize) -> (r: &CouplingBlock)
        requires
            level < self.spec_levels(),
            index < self.spec_depth(),
        ensures
            *r == self.spec_block(level as int, index as int),
    {
        proof {
            use_type_invariant(self);
        }
        assert(self.spec_level_len(level as int) == self.spec_depth());
        &self.coupling_blocks[level][index]
    }

    /// The blocks in the order that `encode_with` applies them, as
    /// `(level, block)` pairs.
    pub fn encode_plan(&self) -> (r: Vec<(usize, usize)>)
        ensures
            r@ == encode_order(self.spec_levels(), self.spec_depth()),
    {
        let mut r: Vec<(usize, usize)> = Vec::new();
        let mut l: usize = 0;
        while l < self.levels
            invariant
                l <= self.levels,
                r@.len() == l * self.depth,
                forall|k: int|
                    0 <= k < r@.len() ==> #[trigger] r@[k] == encode_order(
                        self.levels as nat,
                        self.depth as nat,
                    )[k],
            decreases self.levels - l,
        {
            let mut b: usize = 0;
            while b < self.depth
                invariant
                    l < self.levels,
                    b <= self.depth,
                    r@.len() == l * self.depth + b,
                    forall|k: int|
                        0 <= k < r@.len() ==> #[trigger] r@[k] == encode_order(
                            self.levels as nat,
                            self.depth as nat,
                        )[k],
                decreases self.depth - b,
            {
                proof {
                    let k = l * self.depth + b;
                    lemma_fundamental_div_mod_converse(k, self.depth as int, l as int, b as int);
                    assert(k < self.levels * self.depth) by (nonlinear_arith)
                        requires
                            k == l * self.depth + b,
                            b < self.depth,
                            l < self.levels,
                    ;
                }
                r.push((l, b));
                b = b + 1;
            }
            l = l + 1;
            assert(r@.len() == l * self.depth) by (nonlinear_arith)
                requires
                    r@.len() == (l - 1) * self.depth + self.depth,
            ;
        }
        assert(r@ =~= encode_order(self.spec_levels(), self.spec_depth()));
        r
    }

    /// The blocks in the order that `decode_with` applies them: the encode plan
    /// reversed, last level first and last block of each level first.
    pub fn decode_plan(&self) -> (r: Vec<(usize, usize)>)
        ensures
            r@ == decode_order(self.spec_levels(), self.spec_depth()),
    {
        let forward = self.encode_plan();
        let mut r: Vec<(usize, usize)> = Vec::with_capacity(forward.len());
        let mut i: usize = forward.len();
        while i > 0
            invariant
                i <= forward.len(),
                r@.len() == forward.len() - i,
                forall|k: int|
                    0 <= k < r@.len() ==> #[trigger] r@[k] == forward@[forward.len() - 1 - k],
            decreases i,
        {
            i = i - 1;
            r.push(forward[i]);
        }
        assert(r@ =~= forward@.reverse());
        r
    }

    /// Threads `input` through `step` with each block that `plan` names, in
    /// order, stopping at the first error.
    fn run_plan<T, F: Fn(&CouplingBlock, T) -> Result<T, FlowNetError>>(
        &self,
        plan: &Vec<(usize, usize)>,
        input: T,
        step: &F,
    ) -> (r: Result<T, FlowNetError>)
        requires
            forall|k: int|
                0 <= k < plan@.len() ==> (#[trigger] plan@[k]).0 < self.spec_levels() && plan@[k].1
                    < self.spec_depth(),
            forall|b: &CouplingBlock, z: T| step.requires((b, z)),
        ensures
            r is Ok ==> exists|zs: Seq<T>|
                #[trigger] is_run(self, plan@, *step, zs) && zs[0] == input && zs.last() == r->Ok_0,
            (forall|b: &CouplingBlock, z: T, o: Result<T, FlowNetError>|
                #[trigger] step.ensures((b, z), o) ==> o is Ok) ==> r is Ok,
            r is Err ==> exists|b: &CouplingBlock, z: T| #[trigger] step.ensures((b, z), r),
    {
        let mut z = input;
        let ghost mut zs: Seq<T> = seq![z];
        let mut k: usize = 0;
        while k < plan.len()
            invariant
                forall|j: int|
                    0 <= j < plan@.len() ==> (#[trigger] plan@[j]).0 < self.spec_levels()
                        && plan@[j].1 < self.spec_depth(),
                forall|b: &CouplingBlock, y: T| step.requires((b, y)),
                k <= plan.len(),
                zs.len() == k + 1,
                zs[0] == input,
                zs[k as int] == z,
                forall|j: int|
                    0 <= j < k ==> step.ensures(
                        (&#[trigger] self.spec_block(plan@[j].0 as int, plan@[j].1 as int), zs[j]),
                        Ok::<T, FlowNetError>(zs[j + 1]),
                    ),
            decreases plan.len() - k,
        {
            let (level, index) = plan[k];
            assert(plan@[k as int] == (level, index));
            let block = self.block(level, index);
            match step(block, z) {
                Ok(next) => {
                    proof {
                        zs = zs.push(next);
                    }
                    z = next;
                },
                Err(e) => {
                    return Err(e);
                },
            }
            k = k + 1;
        }
        assert(is_run(self, plan@, *step, zs));
        Ok(z)
    }

    /// Encodes `input`, a flat buffer of `len` values holding a tensor of
    /// `shape`: after the guard of `check_input`, `step` is applied with each
    /// block in the encode order, threading the tensor through, and the
    /// first error of a step is returned as it is.
    pub fn encode_with<T, F: Fn(&CouplingBlock, T) -> Result<T, FlowNetError>>(
        &self,
        shape: &TensorShape,
        len: usize,
        input: T,
        step: F,
    ) -> (r: Result<T, FlowNetError>)
        requires
            forall|b: &CouplingBlock, z: T| step.requires((b, z)),
        ensures
            !self.spec_loaded() ==> r == Err::<T, FlowNetError>(FlowNetError::ModelNotLoaded),
            self.spec_loaded() && !fits_engine(*shape, len as int) ==> r == Err::<T, FlowNetError>(
                FlowNetError::InvalidDimensions,
            ),
            self.spec_loaded() && fits_engine(*shape, len as int) && (forall|b: &CouplingBlock, z: T, o: Result<T, FlowNetError>|
                #[trigger] step.ensures((b, z), o) ==> o is Ok) ==> r is Ok,
            self.spec_loaded() && fits_engine(*shape, len as int) && r is Err ==> exists|b: &CouplingBlock, z: T|
                #[trigger] step.ensures((b, z), r),
            r is Ok ==> exists|zs: Seq<T>|
                #[trigger] is_run(self, encode_order(self.spec_levels(), self.spec_depth()), step, zs)
                    && zs[0] == input && zs.last() == r->Ok_0,
    {
        proof {
            use_type_invariant(self);
        }
        match self.check_input(shape, len) {
            Err(e) => Err(e),
            Ok(_) => {
                let plan = self.encode_plan();
                proof {
                    self.lemma_plan_in_range(plan@);
                }
                self.run_plan(&plan, input, &step)
            },
        }
    }

    /// Decodes `latent`, a flat buffer of `len` values holding a tensor of
    /// `shape`: after the guard of `check_input`, `step` is applied with
    /// each block in the decode order, and the first error of a step is
    /// returned as it is.
    pub fn decode_with<T, F: Fn(&CouplingBlock, T) -> Result<T, FlowNetError>>(
        &self,
        shape: &TensorShape,
        len: usize,
        latent: T,
        step: F,
    ) -> (r: Result<T, FlowNetError>)
        requires
            forall|b: &CouplingBlock, z: T| step.requires((b, z)),
        ensures
            !self.spec_loaded() ==> r == Err::<T, FlowNetError>(FlowNetError::ModelNotLoaded),
            self.spec_loaded() && !fits_engine(*shape, len as int) ==> r == Err::<T, FlowNetError>(
                FlowNetError::InvalidDimensions,
            ),
            self.spec_loaded() && fits_engine(*shape, len as int) && (forall|b: &CouplingBlock, z: T, o: Result<T, FlowNetError>|
                #[trigger] step.ensures((b, z), o) ==> o is Ok) ==> r is Ok,
            self.spec_loaded() && fits_engine(*shape, len as int) && r is Err ==> exists|b: &CouplingBlock, z: T|
                #[trigger] step.ensures((b, z), r),
            r is Ok ==> exists|zs: Seq<T>|
                #[trigger] is_run(self, decode_order(self.spec_levels(), self.spec_depth()), step, zs)
                    && zs[0] == latent && zs.last() == r->Ok_0,
    {
        proof {
            use_type_invariant(self);
        }
        match self.check_input(shape, len) {
            Err(e) => Err(e),
            Ok(_) => {
                let plan = self.decode_plan();
                proof {
                    let fwd = encode_order(self.spec_levels(), self.spec_depth());
                    self.lemma_plan_in_range(fwd);
                    assert forall|k: int| 0 <= k < plan@.len() implies (#[trigger] plan@[k]).0
                        < self.spec_levels() && plan@[k].1 < self.spec_depth() by {
                        assert(plan@[k] == fwd[fwd.len() - 1 - k]);
                    }
                }
                self.run_plan(&plan, latent, &step)
            },
        }
    }

    /// Every step of the encode order names a block that the engine holds.
    proof fn lemma_plan_in_range(&self, plan: Seq<(usize, usize)>)
        requires
            plan == encode_order(self.spec_levels(), self.spec_depth()),
        ensures
            forall|k: int|
                0 <= k < plan.len() ==> (#[trigger] plan[k]).0 < self.spec_levels() && plan[k].1
                    < self.spec_depth(),
    {
        assert forall|k: int| 0 <= k < plan.len() implies (#[trigger] plan[k]).0
            < self.spec_levels() && plan[k].1 < self.spec_depth() by {
            lemma_channel_of(self.spec_levels(), self.spec_depth(), k);
            let d = self.spec_depth() as int;
            assert(k % d < d);
        }
    }

    /// Guards `encode_with` and `decode_with`: an unloaded engine
    /// refuses every input; a loaded one accepts a flat buffer of `len`
    /// values holding a tensor of `shape` with `CHANNELS` channels, and
    /// returns the size of one channel.
    pub fn check_input(&self, shape: &TensorShape, len: usize) -> (r: Result<usize, FlowNetError>)
        ensures
            !self.spec_loaded() ==> r == Err::<usize, FlowNetError>(FlowNetError::ModelNotLoaded),
            self.spec_loaded() ==> (r is Ok <==> (shape.channels == CHANNELS && shape.spec_plane()
                <= usize::MAX && shape.spec_len() == len)),
            self.spec_loaded() && !(r is Ok) ==> r == Err::<usize, FlowNetError>(
                FlowNetError::InvalidDimensions,
            ),
            r is Ok ==> r->Ok_0 == shape.spec_plane(),
    {
        if !self.is_loaded() {
            return Err(FlowNetError::ModelNotLoaded);
        }
        shape.plane_for(CHANNELS, len)
    }
}

/// With two or more blocks the decode order is not the encode order: the
/// first block decoded is the last block encoded, which differs from the
/// first block encoded.
pub proof fn lemma_decode_order_differs(levels: nat, depth: nat)
    requires
        levels * depth >= 2,
        levels <= usize::MAX,
        depth <= usize::MAX,
    ensures
        decode_order(levels, depth)[0] != encode_order(levels, depth)[0],
        decode_order(levels, depth)[0] == ((levels - 1) as usize, (depth - 1) as usize),
        encode_order(levels, depth)[0] == (0usize, 0usize),
{
    let n = levels * depth;
    assert(depth > 0 && levels > 0) by (nonlinear_arith)
        requires
            n == levels * depth,
            n >= 2,
    ;
    assert(n - 1 == (levels - 1) * depth + (depth - 1)) by (nonlinear_arith)
        requires
            n == levels * depth,
    ;
    lemma_fundamental_div_mod_converse(n - 1, depth as int, levels - 1, depth - 1);
    lemma_fundamental_div_mod_converse(0, depth as int, 0, 0);
}

proof fn lemma_runs_meet<T, F, G>(
    net: &FlowNet,
    enc: F,
    dec: G,
    zs: Seq<T>,
    ws: Seq<T>,
    j: int,
)
    where
        F: Fn(&CouplingBlock, T) -> Result<T, FlowNetError>,
        G: Fn(&CouplingBlock, T) -> Result<T, FlowNetError>,
    requires
        is_run(net, encode_order(net.spec_levels(), net.spec_depth()), enc, zs),
        is_run(net, decode_order(net.spec_levels(), net.spec_depth()), dec, ws),
        ws[0] == zs.last(),
        forall|b: &CouplingBlock, u: T, v: T, w: T|
            enc.ensures((b, u), Ok::<T, FlowNetError>(v)) && dec.ensures(
                (b, v),
                Ok::<T, FlowNetError>(w),
            ) ==> w == u,
        0 <= j < ws.len(),
    ensures
        ws[j] == zs[zs.len() - 1 - j],
    decreases j,
{
    if j > 0 {
        lemma_runs_meet(net, enc, dec, zs, ws, j - 1);
        let fwd = encode_order(net.spec_levels(), net.spec_depth());
        let n = fwd.len() as int;
        let k = n - j;
        let blk = fwd[k];
        assert(decode_order(net.spec_levels(), net.spec_depth())[j - 1] == blk);
        let b = net.spec_block(blk.0 as int, blk.1 as int);
        assert(enc.ensures((&b, zs[k]), Ok::<T, FlowNetError>(zs[k + 1])));
        assert(dec.ensures((&b, ws[j - 1]), Ok::<T, FlowNetError>(ws[j])));
    }
}

/// Decoding undoes encoding through the engine's own traversals: where the
/// step given to `decode_with` undoes, block by block, the step given to
/// `encode_with`, a run of the decode order that starts from the end of a
/// run of the encode order ends where that run started.
pub proof fn lemma_decode_with_undoes_encode_with<T, F, G>(
    net: &FlowNet,
    enc: F,
    dec: G,
    x: T,
    z: T,
    y: T,
)
    where
        F: Fn(&CouplingBlock, T) -> Result<T, FlowNetError>,
        G: Fn(&CouplingBlock, T) -> Result<T, FlowNetError>,
    requires
        exists|zs: Seq<T>|
            #[trigger] is_run(net, encode_order(net.spec_levels(), net.spec_depth()), enc, zs)
                && zs[0] == x && zs.last() == z,
        exists|ws: Seq<T>|
            #[trigger] is_run(net, decode_order(net.spec_levels(), net.spec_depth()), dec, ws)
                && ws[0] == z && ws.last() == y,
        forall|b: &CouplingBlock, u: T, v: T, w: T|
            enc.ensures((b, u), Ok::<T, FlowNetError>(v)) && dec.ensures(
                (b, v),
                Ok::<T, FlowNetError>(w),
            ) ==> w == u,
    ensures
        y == x,
{
    let zs = choose|zs: Seq<T>|
        #[trigger] is_run(net, encode_order(net.spec_levels(), net.spec_depth()), enc, zs)
            && zs[0] == x && zs.last() == z;
    let ws = choose|ws: Seq<T>|
        #[trigger] is_run(net, decode_order(net.spec_levels(), net.spec_depth()), dec, ws)
            && ws[0] == z && ws.last() == y;
    lemma_runs_meet(net, enc, dec, zs, ws, ws.len() - 1);
}

} // verus!
