use vstd::prelude::*;

verus! {

/// A lossless byte coder for the latent stream.
///
/// `encoded` and `decoded` say what `encode` and `decode` return, and every
/// implementation proves that decoding what it encoded gives the input back.
pub trait AlphaFlowEncode {
    /// What `encode` returns for `input`.
    spec fn encoded(&self, input: Seq<u8>) -> Seq<u8>;

    /// What `decode` returns for `compressed`.
    spec fn decoded(&self, compressed: Seq<u8>) -> Seq<u8>;

    /// Decoding what was encoded gives the input back.
    proof fn lemma_lossless(&self, data: Seq<u8>)
        ensures
            self.decoded(self.encoded(data)) == data,
    ;

    /// Encodes raw bytes.
    fn encode(&self, input: &[u8]) -> (r: Vec<u8>)
        ensures
            r@ == self.encoded(input@),
    ;

    /// Decodes what `encode` produced.
    fn decode(&self, compressed: &[u8]) -> (r: Vec<u8>)
        ensures
            r@ == self.decoded(compressed@),
    ;
}

/// The coder that passes bytes through unchanged.
#[derive(Debug, Clone, Copy, Default)]
pub struct NoopCoder;

fn copy_bytes(input: &[u8]) -> (r: Vec<u8>)
    ensures
        r@ == input@,
{
    let mut r: Vec<u8> = Vec::with_capacity(input.len());
    let mut i: usize = 0;
    while i < input.len()
        invariant
            i <= input@.len(),
            r@ == input@.take(i as int),
        decreases input.len() - i,
    {
        r.push(input[i]);
        i = i + 1;
        assert(r@ =~= input@.take(i as int));
    }
    assert(input@.take(i as int) =~= input@);
    r
}

impl AlphaFlowEncode for NoopCoder {
    open spec fn encoded(&self, input: Seq<u8>) -> Seq<u8> {
        input
    }

    open spec fn decoded(&self, compressed: Seq<u8>) -> Seq<u8> {
        compressed
    }

    proof fn lemma_lossless(&self, data: Seq<u8>) {
    }

    fn encode(&self, input: &[u8]) -> (r: Vec<u8>) {
        copy_bytes(input)
    }

    fn decode(&self, compressed: &[u8]) -> (r: Vec<u8>) {
        copy_bytes(compressed)
    }
}

/// The library's version.
pub fn version() -> (r: &'static str)
    ensures
        r@ == "0.1.0"@,
        r@.len() > 0,
{
    proof {
        reveal_strlit("0.1.0");
    }
    "0.1.0"
}

} // verus!
