//! The wire protocol, shared by server and clients, and the PCM encoding audio
//! travels in.

use vstd::prelude::*;

verus! {

/// Target sample rate. The model is trained at 16 kHz; anything else is
/// resampled before sending.
pub const SAMPLE_RATE: u32 = 16000;

/// How a session delivers text.
#[derive(Debug, Clone, Copy, PartialEq, Eq, Structural)]
pub enum Mode {
    /// Append-only: text is committed and never taken back.
    Live,
    /// The client owns its buffer, so text may be revised.
    Transcript,
}

/// How samples are encoded on the wire.
#[derive(Debug, Clone, Copy, PartialEq, Eq, Structural)]
pub enum Encoding {
    PcmS16le,
}

/// Why a server refused or ended a session.
#[derive(Debug, Clone, Copy, PartialEq, Eq, Structural)]
pub enum ErrorCode {
    Unauthorized,
    Capacity,
    BadRequest,
    Internal,
}

/// A message from a client to the server.
#[derive(Debug, PartialEq, Eq)]
pub enum ClientMessage {
    SessionStart {
        mode: Mode,
        sample_rate: u32,
        encoding: Encoding,
        language: Option<String>,
        vocabulary: Option<Vec<String>>,
        diarize: bool,
    },
    SessionStop,
}

/// A message from the server to a client.
#[allow(inconsistent_fields)]
#[derive(Debug, PartialEq, Eq)]
pub enum ServerMessage {
    SessionReady { model: String, chunk_ms: u32, diarize: bool },
    TranscriptCommit { seq: u64, text: String, speaker: Option<u32> },
    TranscriptProvisional { seq: u64, text: String, speaker: Option<u32> },
    TranscriptRevise { seq: u64, retract_n: usize, text: String },
    TranscriptRelabel { from_seq: u64, to_seq: u64, speaker: u32 },
    SessionClosed { reason: String },
    Error { code: ErrorCode, message: String, retryable: bool },
}

/// The sample two little-endian bytes encode.
pub open spec fn sample_of(lo: u8, hi: u8) -> int {
    let u = lo as int + 256 * hi as int;
    if u < 32768 {
        u
    } else {
        u - 65536
    }
}

/// The samples a run of bytes encodes; an odd byte at the end is no sample.
pub open spec fn samples_of(bytes: Seq<u8>) -> Seq<i16> {
    Seq::new(bytes.len() / 2, |i: int| sample_of(bytes[2 * i], bytes[2 * i + 1]) as i16)
}

/// The bytes that encode a run of samples.
pub open spec fn bytes_of(samples: Seq<i16>) -> Seq<u8> {
    Seq::new(
        samples.len() * 2,
        |i: int|
            {
                let u = samples[i / 2] as int % 65536;
                if i % 2 == 0 {
                    (u % 256) as u8
                } else {
                    (u / 256) as u8
                }
            },
    )
}

/// Decode little-endian signed 16-bit PCM.
///
/// A trailing odd byte is dropped, since network frames can split mid-sample.
pub fn decode_pcm(bytes: &[u8]) -> (r: Vec<i16>)
    ensures
        r@ == samples_of(bytes@),
{
    let mut out: Vec<i16> = Vec::new();
    let n: usize = bytes.len() / 2;
    let mut i: usize = 0;
    while i < n
        invariant
            n == bytes@.len() / 2,
            i <= n,
            bytes@.len() <= usize::MAX,
            out@ == samples_of(bytes@).take(i as int),
        decreases n - i,
    {
        let u: i32 = bytes[2 * i] as i32 + 256 * (bytes[2 * i + 1] as i32);
        let v: i16 = if u < 32768 {
            u as i16
        } else {
            (u - 65536) as i16
        };
        out.push(v);
        assert(samples_of(bytes@)[i as int] == v);
        assert(samples_of(bytes@).take(i + 1) == samples_of(bytes@).take(i as int).push(v));
        i += 1;
    }
    assert(samples_of(bytes@).take(n as int) == samples_of(bytes@));
    out
}

/// Encode samples as little-endian signed 16-bit PCM.
pub fn encode_pcm(samples: &[i16]) -> (r: Vec<u8>)
    ensures
        r@ == bytes_of(samples@),
{
    let mut out: Vec<u8> = Vec::new();
    let mut i: usize = 0;
    while i < samples.len()
        invariant
            i <= samples@.len(),
            out@ == bytes_of(samples@).take(2 * i),
        decreases samples@.len() - i,
    {
        let s: i32 = samples[i] as i32;
        let u: i32 = if s < 0 {
            s + 65536
        } else {
            s
        };
        let ghost all = bytes_of(samples@);
        assert(u == samples@[i as int] as int % 65536);
        let lo: u8 = (u % 256) as u8;
        let hi: u8 = (u / 256) as u8;
        assert((2 * i) / 2 == i && (2 * i + 1) / 2 == i);
        assert(all[2 * i] == lo);
        assert(all[2 * i + 1] == hi);
        out.push(lo);
        out.push(hi);
        assert(all.take(2 * (i + 1)) == all.take(2 * i).push(lo).push(hi));
        i += 1;
    }
    assert(bytes_of(samples@).take(2 * samples@.len() as int) == bytes_of(samples@));
    out
}

/// Decoding what was encoded gives the samples back.
pub proof fn lemma_pcm_round_trip(samples: Seq<i16>)
    ensures
        samples_of(bytes_of(samples)) == samples,
{
    let b = bytes_of(samples);
    assert forall|i: int| 0 <= i < samples.len() implies samples_of(b)[i] == samples[i] by {
        assert((2 * i) / 2 == i && (2 * i + 1) / 2 == i);
        assert((2 * i) % 2 == 0 && (2 * i + 1) % 2 == 1);
    }
    assert(samples_of(b) =~= samples);
}

/// Decodes PCM that arrives in pieces of any size.
///
/// Samples can straddle reads, so the odd byte of one read is kept for the
/// next rather than decoded as half a sample.
pub struct PcmReader {
    carry: Vec<u8>,
}

impl PcmReader {
    /// The bytes read and not yet decoded: at most one.
    pub closed spec fn pending(self) -> Seq<u8> {
        self.carry@
    }

    pub closed spec fn wf(self) -> bool {
        self.carry@.len() <= 1
    }

    pub fn new() -> (r: PcmReader)
        ensures
            r.wf(),
            r.pending() == Seq::<u8>::empty(),
    {
        PcmReader { carry: Vec::new() }
    }

    /// Take one read's bytes and give the samples they complete.
    pub fn feed(&mut self, bytes: &[u8]) -> (r: Vec<i16>)
        requires
            old(self).wf(),
            bytes@.len() < usize::MAX,
        ensures
            final(self).wf(),
            r@ == samples_of(old(self).pending() + bytes@),
            final(self).pending() == (old(self).pending() + bytes@).skip(
                ((old(self).pending() + bytes@).len() / 2 * 2) as int,
            ),
    {
        let ghost before = self.carry@;
        let mut i: usize = 0;
        while i < bytes.len()
            invariant
                i <= bytes@.len(),
                bytes@.len() < usize::MAX,
                before.len() <= 1,
                self.carry@ == before + bytes@.take(i as int),
            decreases bytes@.len() - i,
        {
            self.carry.push(bytes[i]);
            assert(before + bytes@.take(i + 1) == (before + bytes@.take(i as int)).push(
                bytes@[i as int],
            ));
            i += 1;
        }
        assert(bytes@.take(bytes@.len() as int) == bytes@);
        let out = decode_pcm(self.carry.as_slice());
        let n: usize = self.carry.len();
        let mut rest: Vec<u8> = Vec::new();
        if n % 2 == 1 {
            rest.push(self.carry[n - 1]);
        }
        assert(rest@ == self.carry@.skip(((n / 2) * 2) as int));
        self.carry = rest;
        out
    }
}

/// Where a stream of bytes is split makes no difference to the samples read
/// from it, as long as each piece is fed in order.
pub proof fn lemma_pcm_split(a: Seq<u8>, b: Seq<u8>)
    ensures
        samples_of(a + b) == samples_of(a) + samples_of(a.skip((a.len() / 2 * 2) as int) + b),
{
    let k = a.len() / 2;
    let rest = a.skip((k * 2) as int) + b;
    let left = samples_of(a + b);
    let right = samples_of(a) + samples_of(rest);
    assert(left.len() == right.len());
    assert forall|i: int| 0 <= i < left.len() implies left[i] == right[i] by {
        if i < k {
            assert((a + b)[2 * i] == a[2 * i]);
            assert((a + b)[2 * i + 1] == a[2 * i + 1]);
        } else {
            let j = i - k;
            assert(rest[2 * j] == (a + b)[2 * i]);
            assert(rest[2 * j + 1] == (a + b)[2 * i + 1]);
        }
    }
    assert(left =~= right);
}

/// Two bytes are a sample with the low byte first: as a number of sixteen bits
/// the sample and the bytes are the same.
pub proof fn lemma_samples_are_little_endian(lo: u8, hi: u8)
    ensures
        -32768 <= sample_of(lo, hi) <= 32767,
        sample_of(lo, hi) == lo + 256 * hi || sample_of(lo, hi) == lo + 256 * hi - 65536,
{
}

/// Every two bytes are one sample, in order, and an odd one at the end is none.
pub proof fn lemma_two_bytes_are_a_sample(bytes: Seq<u8>, i: int)
    requires
        0 <= i < samples_of(bytes).len(),
    ensures
        2 * samples_of(bytes).len() <= bytes.len() < 2 * samples_of(bytes).len() + 2,
        samples_of(bytes)[i] % 256 == bytes[2 * i] as int,
        samples_of(bytes)[i] == bytes[2 * i] + 256 * bytes[2 * i + 1] || samples_of(bytes)[i]
            == bytes[2 * i] + 256 * bytes[2 * i + 1] - 65536,
{
    lemma_samples_are_little_endian(bytes[2 * i], bytes[2 * i + 1]);
}

/// A sample is sent as two bytes, low byte first.
pub proof fn lemma_a_sample_is_two_bytes(samples: Seq<i16>, i: int)
    requires
        0 <= i < samples.len(),
    ensures
        bytes_of(samples).len() == 2 * samples.len(),
        ({
            let lo = bytes_of(samples)[2 * i] as int;
            let hi = bytes_of(samples)[2 * i + 1] as int;
            lo + 256 * hi == samples[i] as int || lo + 256 * hi == samples[i] as int + 65536
        }),
{
    assert((2 * i) / 2 == i);
    assert((2 * i + 1) / 2 == i);
    let u = samples[i] as int % 65536;
    assert(u == samples[i] as int || u == samples[i] as int + 65536);
    assert(u % 256 + 256 * (u / 256) == u);
}

} // verus!
