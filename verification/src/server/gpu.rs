//! Whether a model that was asked to run on the GPU really does, and how its
//! decoder is drained.

use crate::order::{self, is_sorted, sort, sorted, Comparable, Ranked};
use crate::server::asr::{AsrStream, CHUNK_SAMPLES};
use crate::server::session::{decodes, lemma_decodes_one_more, SILENCE};
use crate::text::{self, decimal};
use vstd::prelude::*;

verus! {

/// A time in nanoseconds.
#[derive(Debug, Clone, Copy, PartialEq, Eq, Structural)]
pub struct Timing(pub u64);

impl Ranked for Timing {
    open spec fn at_most(&self, other: &Timing) -> bool {
        self.0 <= other.0
    }

    proof fn total(a: &Timing, b: &Timing) {
    }

    proof fn transitive(a: &Timing, b: &Timing, c: &Timing) {
    }
}

impl Comparable for Timing {
    fn is_at_most(&self, other: &Timing) -> (r: bool) {
        self.0 <= other.0
    }
}

/// The time in the middle of several, the later one where there are two.
pub fn median(times: Vec<Timing>) -> (r: Timing)
    requires
        times@.len() > 0,
    ensures
        r == sorted(times@)[(times@.len() / 2) as int],
{
    proof {
        order::lemma_sorted(times@);
    }
    let n: usize = times.len();
    let v = sort(times);
    v[n / 2]
}

/// A decoded chunk that takes longer than this, in nanoseconds, was not decoded
/// on a GPU, whatever the configuration claimed.
pub const GPU_SANITY_THRESHOLD: u64 = 90_000_000;

/// A time in whole milliseconds, to the nearest, and to the even one where two
/// are as near.
pub open spec fn nearest_ms(t: u64) -> nat {
    let whole = (t as nat) / 1_000_000;
    let part = (t as nat) % 1_000_000;
    if part > 500_000 || (part == 500_000 && whole % 2 == 1) {
        whole + 1
    } else {
        whole
    }
}

pub open spec fn cpu_speed(t: u64) -> Seq<char> {
    "GPU was requested but inference took "@ + decimal(nearest_ms(t)) + "ms per "@ + decimal(
        CHUNK_SAMPLES as nat,
    ) + "-sample chunk, above the "@ + decimal(nearest_ms(GPU_SANITY_THRESHOLD))
        + "ms threshold. This is CPU-speed: the CUDA provider almost certainly failed to register and ONNX Runtime fell back silently. Run the gpu_probe example with RUST_LOG=ort::ep=trace to see why."@
}

fn ms_text(t: u64) -> (r: String)
    ensures
        r@ == decimal(nearest_ms(t)),
{
    let whole: u64 = t / 1_000_000;
    let part: u64 = t % 1_000_000;
    let ms: u64 = if part > 500_000 || (part == 500_000 && whole % 2 == 1) {
        whole + 1
    } else {
        whole
    };
    text::decimal_text(ms)
}

/// Fail if a GPU was requested but inference is running at CPU speed; `took` is
/// the median time of a chunk.
///
/// A provider that fails to initialise degrades to the CPU with no error
/// anywhere. Timing measures the thing actually cared about, and catches every
/// cause rather than the one known failure mode.
pub fn verify_gpu(took: Timing) -> (r: Result<Timing, String>)
    ensures
        match r {
            Ok(t) => took.0 <= GPU_SANITY_THRESHOLD && t == took,
            Err(e) => took.0 > GPU_SANITY_THRESHOLD && e@ == cpu_speed(took.0),
        },
{
    if took.0 <= GPU_SANITY_THRESHOLD {
        return Ok(took);
    }
    let mut e = "GPU was requested but inference took ".to_owned();
    let a = ms_text(took.0);
    e.append(a.as_str());
    e.append("ms per ");
    let b = text::decimal_text(CHUNK_SAMPLES as u64);
    e.append(b.as_str());
    e.append("-sample chunk, above the ");
    let c = ms_text(GPU_SANITY_THRESHOLD);
    e.append(c.as_str());
    e.append(
        "ms threshold. This is CPU-speed: the CUDA provider almost certainly failed to register and ONNX Runtime fell back silently. Run the gpu_probe example with RUST_LOG=ort::ep=trace to see why.",
    );
    Err(e)
}

/// Silent chunks pushed at the end of a stream to drain the decoder.
pub const FLUSH_CHUNKS: usize = 3;

pub open spec fn silent_chunk() -> Seq<u32> {
    Seq::new(CHUNK_SAMPLES as nat, |i: int| SILENCE)
}

pub open spec fn silent_chunks(n: nat) -> Seq<Seq<u32>> {
    Seq::new(n, |i: int| silent_chunk())
}

/// Several texts end to end.
pub open spec fn all_said(texts: Seq<Seq<char>>) -> Seq<char>
    decreases texts.len(),
{
    if texts.len() == 0 {
        Seq::empty()
    } else {
        all_said(texts.drop_last()) + texts.last()
    }
}

/// Drain a decoder by feeding it silence.
///
/// The transducer holds words until enough context arrives, so without this the
/// tail of an utterance is lost.
pub fn drain<S: AsrStream>(stream: &mut S) -> (r: Result<String, String>)
    ensures
        match r {
            Ok(text) => exists|texts: Seq<Seq<char>>|
                #[trigger] decodes(
                    *old(stream),
                    silent_chunks(FLUSH_CHUNKS as nat),
                    texts,
                    *final(stream),
                ) && text@ == all_said(texts),
            Err(e) => exists|k: nat, texts: Seq<Seq<char>>, mid: S|
                #[trigger] decodes(*old(stream), silent_chunks(k), texts, mid) && k < FLUSH_CHUNKS
                    && S::hears(mid, silent_chunk(), *final(stream), Err(e@)),
        },
{
    let mut silence: Vec<u32> = Vec::new();
    let mut n: usize = 0;
    while n < CHUNK_SAMPLES
        invariant
            n <= CHUNK_SAMPLES,
            silence@ == Seq::new(n as nat, |i: int| SILENCE),
        decreases CHUNK_SAMPLES - n,
    {
        silence.push(SILENCE);
        assert(silence@ =~= Seq::new((n + 1) as nat, |i: int| SILENCE));
        n += 1;
    }
    assert(silence@ =~= silent_chunk());
    let mut out = String::new();
    let ghost mut texts: Seq<Seq<char>> = Seq::empty();
    let mut k: usize = 0;
    assert(silent_chunks(0) =~= Seq::empty());
    while k < FLUSH_CHUNKS
        invariant
            k <= FLUSH_CHUNKS,
            silence@ == silent_chunk(),
            decodes(*old(stream), silent_chunks(k as nat), texts, *stream),
            out@ == all_said(texts),
        decreases FLUSH_CHUNKS - k,
    {
        let ghost mid = *stream;
        match stream.push(silence.as_slice()) {
            Ok(text) => {
                proof {
                    lemma_decodes_one_more(
                        *old(stream),
                        silent_chunks(k as nat),
                        texts,
                        mid,
                        silent_chunk(),
                        text@,
                        *stream,
                    );
                    assert(silent_chunks(k as nat).push(silent_chunk()) =~= silent_chunks(
                        (k + 1) as nat,
                    ));
                    let more = texts.push(text@);
                    assert(more.drop_last() =~= texts);
                    texts = more;
                }
                out.append(text.as_str());
            },
            Err(e) => {
                assert(decodes(*old(stream), silent_chunks(k as nat), texts, mid));
                return Err(e);
            },
        }
        k += 1;
    }
    Ok(out)
}

/// At least half of the times are no longer than the median, and at least half
/// are no shorter.
pub proof fn lemma_median(times: Seq<Timing>)
    requires
        times.len() > 0,
    ensures
        ({
            let v = sorted(times);
            let m = v[(times.len() / 2) as int];
            &&& v.to_multiset() == times.to_multiset()
            &&& forall|i: int| 0 <= i < times.len() / 2 ==> (#[trigger] v[i]).0 <= m.0
            &&& forall|i: int| times.len() / 2 <= i < times.len() ==> m.0 <= (#[trigger] v[i]).0
        }),
{
    order::lemma_sorted(times);
    let v = sorted(times);
    let h = (times.len() / 2) as int;
    assert(is_sorted(v));
    assert forall|i: int| 0 <= i < h implies (#[trigger] v[i]).0 <= v[h].0 by {
        assert(v[i].at_most(&v[h]));
    }
    assert forall|i: int| h <= i < v.len() implies v[h].0 <= (#[trigger] v[i]).0 by {
        if h < i {
            assert(v[h].at_most(&v[i]));
        }
    }
}

/// A time in milliseconds is never more than half of one off.
pub proof fn lemma_a_time_is_rounded_to_the_nearest(t: u64)
    ensures
        -500_000 <= nearest_ms(t) * 1_000_000 - t <= 500_000,
        nearest_ms(t) * 1_000_000 - t == 500_000 || t - nearest_ms(t) * 1_000_000 == 500_000
            ==> nearest_ms(t) % 2 == 0,
{
}

/// A decoder is drained with chunks as long as any other, in which nothing is
/// said.
pub proof fn lemma_draining_is_silent(n: nat, k: int, i: int)
    requires
        0 <= k < n,
        0 <= i < CHUNK_SAMPLES,
    ensures
        silent_chunks(n).len() == n,
        silent_chunks(n)[k].len() == CHUNK_SAMPLES,
        silent_chunks(n)[k][i] == 0,
        FLUSH_CHUNKS > 0,
{
}

/// What a drained decoder says is everything it says, in order.
pub proof fn lemma_all_that_drains_is_said(texts: Seq<Seq<char>>)
    ensures
        all_said(texts) == texts.flatten(),
    decreases texts.len(),
{
    texts.lemma_flatten_and_flatten_alt_are_equivalent();
    if texts.len() > 0 {
        lemma_all_that_drains_is_said(texts.drop_last());
        texts.drop_last().lemma_flatten_and_flatten_alt_are_equivalent();
    }
}

/// The complaint about a slow model says how slow it was.
pub proof fn lemma_the_complaint_names_the_time(t: u64)
    ensures
        text::occurs_in(decimal(nearest_ms(t)), cpu_speed(t)),
{
    let head = "GPU was requested but inference took "@;
    let d = decimal(nearest_ms(t));
    let i: int = head.len() as int;
    assert(cpu_speed(t).subrange(i, i + d.len()) =~= d);
}

} // verus!
