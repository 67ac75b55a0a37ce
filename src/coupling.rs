use vstd::prelude::*;

verus! {

/// The two reversible update laws of a coupling block.
#[derive(Debug, Clone, Copy, PartialEq, Eq, Structural)]
pub enum CouplingType {
    /// `y = x + t`; its log-determinant is zero.
    Additive,
    /// `y = x * exp(s) + t`; its log-determinant is the sum of `s` over the
    /// transformed positions.
    Affine,
}

/// The coupling law of the block at position `block_index` of a level:
/// even positions are additive, odd positions affine.
pub open spec fn coupling_of(block_index: int) -> CouplingType {
    if block_index % 2 == 0 {
        CouplingType::Additive
    } else {
        CouplingType::Affine
    }
}

/// Whether a law uses a scale, and so has a log-determinant that may differ
/// from zero.
pub open spec fn has_scale(t: CouplingType) -> bool {
    t == CouplingType::Affine
}

impl CouplingType {
    /// The law used at position `block_index` of a level.
    pub fn for_block(block_index: usize) -> (r: CouplingType)
        ensures
            r == coupling_of(block_index as int),
    {
        if block_index % 2 == 0 {
            CouplingType::Additive
        } else {
            CouplingType::Affine
        }
    }

    /// Whether this law computes a scale next to the translation.
    pub fn uses_scale(&self) -> (r: bool)
        ensures
            r == has_scale(*self),
    {
        match self {
            CouplingType::Additive => false,
            CouplingType::Affine => true,
        }
    }
}

/// A flat tensor of `mask.len()` channels, each a plane of `plane` values,
/// laid out channel after channel.
pub open spec fn fits<T>(mask: Seq<bool>, plane: nat, x: Seq<T>) -> bool {
    x.len() == mask.len() * plane
}

/// Whether flat position `p` lies in a transformed channel.
pub open spec fn is_transformed(mask: Seq<bool>, plane: nat, p: int) -> bool {
    mask[p / (plane as int)]
}

/// The conditioning channels of `x`, with the transformed channels filled
/// with `zero`. This is all that a block's parameters are computed from.
pub open spec fn conditioning_part<T>(mask: Seq<bool>, plane: nat, x: Seq<T>, zero: T) -> Seq<T> {
    Seq::new(x.len(), |p: int| if is_transformed(mask, plane, p) { zero } else { x[p] })
}

/// The transformed channels of `x`, with the conditioning channels filled
/// with `zero`.
pub open spec fn transformed_part<T>(mask: Seq<bool>, plane: nat, x: Seq<T>, zero: T) -> Seq<T> {
    Seq::new(x.len(), |p: int| if is_transformed(mask, plane, p) { x[p] } else { zero })
}

/// One coupling step: each transformed value `v` becomes `law(c, v)`, where
/// `c` is the conditioning part of the input; conditioning values pass
/// through unchanged.
pub open spec fn coupled<T>(
    mask: Seq<bool>,
    plane: nat,
    x: Seq<T>,
    zero: T,
    law: spec_fn(Seq<T>, T) -> T,
) -> Seq<T> {
    let c = conditioning_part(mask, plane, x, zero);
    Seq::new(x.len(), |p: int| if is_transformed(mask, plane, p) { law(c, x[p]) } else { x[p] })
}

pub(crate) proof fn lemma_channel_of(m: nat, plane: nat, p: int)
    requires
        0 <= p < m * plane,
    ensures
        plane > 0,
        0 <= p / (plane as int) < m,
{
    assert(plane > 0) by (nonlinear_arith)
        requires
            0 <= p < m * plane,
    ;
    assert(p / (plane as int) < m) by (nonlinear_arith)
        requires
            0 <= p < m * plane,
            plane > 0,
    ;
}

/// Splits `x` into its conditioning part and its transformed part.
pub fn split_channels<T: Copy>(mask: &Vec<bool>, plane: usize, x: &Vec<T>, zero: T) -> (r: (
    Vec<T>,
    Vec<T>,
))
    requires
        fits(mask@, plane as nat, x@),
    ensures
        r.0@ == conditioning_part(mask@, plane as nat, x@, zero),
        r.1@ == transformed_part(mask@, plane as nat, x@, zero),
{
    let mut id: Vec<T> = Vec::with_capacity(x.len());
    let mut tr: Vec<T> = Vec::with_capacity(x.len());
    let mut p: usize = 0;
    while p < x.len()
        invariant
            fits(mask@, plane as nat, x@),
            p <= x.len(),
            id@ =~= conditioning_part(mask@, plane as nat, x@, zero).take(p as int),
            tr@ =~= transformed_part(mask@, plane as nat, x@, zero).take(p as int),
        decreases x.len() - p,
    {
        proof {
            lemma_channel_of(mask.len() as nat, plane as nat, p as int);
        }
        if mask[p / plane] {
            id.push(zero);
            tr.push(x[p]);
        } else {
            id.push(x[p]);
            tr.push(zero);
        }
        p = p + 1;
        assert(id@ =~= conditioning_part(mask@, plane as nat, x@, zero).take(p as int));
        assert(tr@ =~= transformed_part(mask@, plane as nat, x@, zero).take(p as int));
    }
    assert(id@ =~= conditioning_part(mask@, plane as nat, x@, zero));
    assert(tr@ =~= transformed_part(mask@, plane as nat, x@, zero));
    (id, tr)
}

/// `y` is what `couple` returns for `x` and `law`.
pub open spec fn couples_to<T, F: Fn(T) -> T>(
    mask: Seq<bool>,
    plane: nat,
    x: Seq<T>,
    law: F,
    y: Seq<T>,
) -> bool {
    &&& y.len() == x.len()
    &&& forall|p: int|
        0 <= p < x.len() && is_transformed(mask, plane, p) ==> law.ensures((x[p],), #[trigger] y[p])
    &&& forall|p: int|
        0 <= p < x.len() && !is_transformed(mask, plane, p) ==> #[trigger] y[p] == x[p]
}

/// Applies `law` to every value of a transformed channel of `x`, and passes
/// every value of a conditioning channel through unchanged.
pub fn couple<T: Copy, F: Fn(T) -> T>(mask: &Vec<bool>, plane: usize, x: &Vec<T>, law: F) -> (r: Vec<
    T,
>)
    requires
        fits(mask@, plane as nat, x@),
        forall|v: T| law.requires((v,)),
    ensures
        couples_to(mask@, plane as nat, x@, law, r@),
        forall|zero: T|
            #[trigger] conditioning_part(mask@, plane as nat, r@, zero) == conditioning_part(
                mask@,
                plane as nat,
                x@,
                zero,
            ),
{
    let mut r: Vec<T> = Vec::with_capacity(x.len());
    let mut p: usize = 0;
    while p < x.len()
        invariant
            fits(mask@, plane as nat, x@),
            forall|v: T| law.requires((v,)),
            p <= x.len(),
            r.len() == p,
            forall|q: int|
                0 <= q < p && is_transformed(mask@, plane as nat, q) ==> law.ensures(
                    (x@[q],),
                    #[trigger] r@[q],
                ),
            forall|q: int|
                0 <= q < p && !is_transformed(mask@, plane as nat, q) ==> #[trigger] r@[q]
                    == x@[q],
        decreases x.len() - p,
    {
        proof {
            lemma_channel_of(mask.len() as nat, plane as nat, p as int);
        }
        if mask[p / plane] {
            let v = law(x[p]);
            r.push(v);
        } else {
            r.push(x[p]);
        }
        p = p + 1;
    }
    assert forall|zero: T|
        #[trigger] conditioning_part(mask@, plane as nat, r@, zero) == conditioning_part(
            mask@,
            plane as nat,
            x@,
            zero,
        ) by {
        assert(conditioning_part(mask@, plane as nat, r@, zero) =~= conditioning_part(
            mask@,
            plane as nat,
            x@,
            zero,
        ));
    }
    r
}

/// The number of transformed channels of `mask`.
pub open spec fn transformed_channels(mask: Seq<bool>) -> nat
    decreases mask.len(),
{
    if mask.len() == 0 {
        0
    } else {
        transformed_channels(mask.drop_last()) + if mask.last() {
            1nat
        } else {
            0nat
        }
    }
}

proof fn lemma_transformed_channels_bound(mask: Seq<bool>)
    ensures
        transformed_channels(mask) <= mask.len(),
    decreases mask.len(),
{
    if mask.len() > 0 {
        lemma_transformed_channels_bound(mask.drop_last());
    }
}

/// The number of values of a tensor of `len` values that a block with
/// `mask` transforms: the positions over which an affine step sums its
/// log-scale.
pub fn transformed_len(mask: &Vec<bool>, plane: usize, len: usize) -> (r: usize)
    requires
        len == mask.len() * plane,
    ensures
        r == transformed_channels(mask@) * plane,
        r <= len,
{
    let mut count: usize = 0;
    let mut i: usize = 0;
    while i < mask.len()
        invariant
            i <= mask.len(),
            count == transformed_channels(mask@.take(i as int)),
            count <= i,
        decreases mask.len() - i,
    {
        assert(mask@.take(i as int + 1).drop_last() =~= mask@.take(i as int));
        if mask[i] {
            count = count + 1;
        }
        i = i + 1;
    }
    assert(mask@.take(i as int) =~= mask@);
    proof {
        lemma_transformed_channels_bound(mask@);
    }
    assert(count * plane <= mask.len() * plane) by (nonlinear_arith)
        requires
            count <= mask.len(),
    ;
    count * plane
}

/// Coupling with a law and then with a law that undoes it gives back the
/// input: where every value that `back` returns for a value that `law`
/// returned is the value `law` was given, `couple` with `back` after
/// `couple` with `law` is the identity.
pub proof fn lemma_couple_undone<T, F: Fn(T) -> T, G: Fn(T) -> T>(
    mask: Seq<bool>,
    plane: nat,
    x: Seq<T>,
    y: Seq<T>,
    w: Seq<T>,
    law: F,
    back: G,
)
    requires
        couples_to(mask, plane, x, law, y),
        couples_to(mask, plane, y, back, w),
        forall|u: T, v: T, t: T|
            law.ensures((u,), v) && back.ensures((v,), t) ==> t == u,
    ensures
        w == x,
{
    assert forall|p: int| 0 <= p < x.len() implies w[p] == x[p] by {
        if is_transformed(mask, plane, p) {
            assert(law.ensures((x[p],), y[p]));
            assert(back.ensures((y[p],), w[p]));
        }
    }
    assert(w =~= x);
}

/// A coupling step leaves the conditioning part of its input unchanged, so
/// the parameters computed from it before and after the step are the same.
pub proof fn lemma_coupling_keeps_conditioning<T>(
    mask: Seq<bool>,
    plane: nat,
    x: Seq<T>,
    zero: T,
    law: spec_fn(Seq<T>, T) -> T,
)
    ensures
        conditioning_part(mask, plane, coupled(mask, plane, x, zero, law), zero)
            == conditioning_part(mask, plane, x, zero),
{
    assert(conditioning_part(mask, plane, coupled(mask, plane, x, zero, law), zero)
        =~= conditioning_part(mask, plane, x, zero));
}

/// A coupling step is undone by the step whose law undoes its law: applying
/// `inv` after `fwd`, each computed from the conditioning part of its own
/// input, gives back the input, whatever the parameter function is.
pub proof fn lemma_coupling_inverts<T>(
    mask: Seq<bool>,
    plane: nat,
    x: Seq<T>,
    zero: T,
    fwd: spec_fn(Seq<T>, T) -> T,
    inv: spec_fn(Seq<T>, T) -> T,
)
    requires
        forall|c: Seq<T>, v: T| #[trigger] inv(c, fwd(c, v)) == v,
    ensures
        coupled(mask, plane, coupled(mask, plane, x, zero, fwd), zero, inv) == x,
{
    lemma_coupling_keeps_conditioning(mask, plane, x, zero, fwd);
    assert(coupled(mask, plane, coupled(mask, plane, x, zero, fwd), zero, inv) =~= x);
}

/// A coupling step keeps the length of its input.
pub proof fn lemma_coupling_keeps_shape<T>(
    mask: Seq<bool>,
    plane: nat,
    x: Seq<T>,
    zero: T,
    law: spec_fn(Seq<T>, T) -> T,
)
    ensures
        coupled(mask, plane, x, zero, law).len() == x.len(),
        fits(mask, plane, x) ==> fits(mask, plane, coupled(mask, plane, x, zero, law)),
{
}

} // verus!
