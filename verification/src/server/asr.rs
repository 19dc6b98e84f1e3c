//! Speech recognition as the rest of the server sees it.

use crate::proto::SAMPLE_RATE;
use vstd::prelude::*;

verus! {

/// Samples per inference chunk: 560 ms at 16 kHz.
pub const CHUNK_SAMPLES: usize = 8960;

/// What a recogniser said: text, or why it could not say anything.
pub open spec fn said(r: Result<String, String>) -> Result<Seq<char>, Seq<char>> {
    match r {
        Ok(t) => Ok(t@),
        Err(e) => Err(e@),
    }
}

/// One client's decoder: audio in, text out. Samples are `f32` bit patterns.
pub trait AsrStream: Sized {
    /// Whether a decoder in the state `before` may answer `chunk` with
    /// `answer`, and be in the state `after`.
    spec fn hears(
        before: Self,
        chunk: Seq<u32>,
        after: Self,
        answer: Result<Seq<char>, Seq<char>>,
    ) -> bool;

    /// Whether a decoder in the state `before` may end with `answer`.
    spec fn ends(before: Self, after: Self, answer: Result<Seq<char>, Seq<char>>) -> bool;

    /// Decode one chunk.
    fn push(&mut self, audio: &[u32]) -> (r: Result<String, String>)
        ensures
            Self::hears(*old(self), audio@, *final(self), said(r)),
    ;

    /// Drain what the decoder still holds.
    fn finish(&mut self) -> (r: Result<String, String>)
        ensures
            Self::ends(*old(self), *final(self), said(r)),
    ;
}

/// A model: one set of weights, from which any number of decoders are made.
pub trait AsrBackend: Sized {
    type Stream: AsrStream;

    /// Whether a decoder has heard nothing.
    spec fn fresh(&self, s: Self::Stream) -> bool;

    spec fn chunk(&self) -> nat;

    spec fn name(&self) -> Seq<char>;

    /// A decoder that has heard nothing.
    fn stream(&self) -> (r: Self::Stream)
        ensures
            self.fresh(r),
    ;

    /// How many samples are decoded at once.
    fn chunk_samples(&self) -> (r: usize)
        ensures
            r == self.chunk(),
    ;

    fn model_name(&self) -> (r: String)
        ensures
            r@ == self.name(),
    ;
}

/// How long `samples` last, in milliseconds.
pub open spec fn milliseconds(samples: nat) -> nat {
    samples * 1000 / SAMPLE_RATE as nat
}

/// How much audio a chunk holds, in milliseconds.
pub fn chunk_ms<B: AsrBackend>(backend: &B) -> (r: u32)
    requires
        milliseconds(backend.chunk()) <= u32::MAX,
    ensures
        r == milliseconds(backend.chunk()),
{
    let n: usize = backend.chunk_samples();
    assert(n * 1000 / 16000 == n / 16) by (nonlinear_arith);
    (n / 16) as u32
}

/// Sixteen samples last a millisecond, and a chunk is 560 of those.
pub proof fn lemma_sixteen_samples_last_a_millisecond(n: nat)
    ensures
        milliseconds(16 * n) == n,
        milliseconds(CHUNK_SAMPLES as nat) == 560,
{
    assert(16 * n * 1000 / 16000 == n) by (nonlinear_arith);
}

} // verus!
