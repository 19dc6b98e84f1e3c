//! Transcribing an audio file.
//!
//! A file goes through the same streaming session a microphone uses: the model
//! consumes fixed chunks and emits text as it goes, so a file is just a source
//! of chunks that happens to arrive faster than real time.

use crate::audio::mixer::SILENCE;
use crate::proto::{ClientMessage, Encoding, Mode, ServerMessage, SAMPLE_RATE};
use crate::text::{self, decimal, texts, trim_of};
use vstd::prelude::*;

verus! {

/// How many samples to send per frame: one model chunk.
pub const CHUNK: usize = 8960;

/// What ffmpeg is asked for: 16 kHz mono s16 on standard output.
pub fn ffmpeg_args(path: &str) -> (r: Vec<String>)
    ensures
        texts(r@) == seq![
            "-v"@,
            "error"@,
            "-i"@,
            path@,
            "-f"@,
            "s16le"@,
            "-acodec"@,
            "pcm_s16le"@,
            "-ac"@,
            "1"@,
            "-ar"@,
            decimal(SAMPLE_RATE as nat),
            "-"@,
        ],
{
    let mut v: Vec<String> = Vec::new();
    v.push("-v".to_owned());
    v.push("error".to_owned());
    v.push("-i".to_owned());
    v.push(path.to_owned());
    v.push("-f".to_owned());
    v.push("s16le".to_owned());
    v.push("-acodec".to_owned());
    v.push("pcm_s16le".to_owned());
    v.push("-ac".to_owned());
    v.push("1".to_owned());
    v.push("-ar".to_owned());
    v.push(text::decimal_text(SAMPLE_RATE as u64));
    v.push("-".to_owned());
    assert(texts(v@) =~= seq![
        "-v"@,
        "error"@,
        "-i"@,
        path@,
        "-f"@,
        "s16le"@,
        "-acodec"@,
        "pcm_s16le"@,
        "-ac"@,
        "1"@,
        "-ar"@,
        decimal(SAMPLE_RATE as nat),
        "-"@,
    ]);
    v
}

/// Explain why ffmpeg could not be started.
///
/// A missing ffmpeg and one that cannot be reached are different: being told to
/// install what you already installed sends you the wrong way.
pub fn ffmpeg_spawn_error(not_found: bool, why: &str) -> (r: String)
    ensures
        r@ == (if not_found {
            "ffmpeg is not on PATH. Install it to transcribe files."@
        } else {
            "could not run ffmpeg. It appears to be on PATH but could not be started; if PATH points at a shim or symlink, put the real ffmpeg directory on PATH instead: "@
                + why@
        }),
{
    if not_found {
        return "ffmpeg is not on PATH. Install it to transcribe files.".to_owned();
    }
    let mut s =
        "could not run ffmpeg. It appears to be on PATH but could not be started; if PATH points at a shim or symlink, put the real ffmpeg directory on PATH instead: ".to_owned();
    s.append(why);
    s
}

/// What decoding a file came to.
pub enum Decoding {
    NoSuchFile,
    /// ffmpeg could not be started: whether it is missing, and why.
    NotStarted { not_found: bool, why: String },
    /// ffmpeg gave up, with this on standard error.
    Refused(String),
    /// ffmpeg gave this many samples.
    Decoded(usize),
}

/// Whether a file can be transcribed, and why not.
pub fn decode(path: &str, outcome: &Decoding) -> (r: Result<(), String>)
    ensures
        match *outcome {
            Decoding::NoSuchFile => r matches Err(e) && e@ == "no such file: "@ + path@,
            Decoding::NotStarted { not_found, why } => r matches Err(e) && (not_found ==> e@
                == "ffmpeg is not on PATH. Install it to transcribe files."@) && (!not_found ==> e@
                == "could not run ffmpeg. It appears to be on PATH but could not be started; if PATH points at a shim or symlink, put the real ffmpeg directory on PATH instead: "@
                + why@),
            Decoding::Refused(why) => r matches Err(e) && e@ == "ffmpeg could not decode "@ + path@
                + ": "@ + trim_of(why@),
            Decoding::Decoded(n) => if n == 0 {
                r matches Err(e) && e@ == path@ + " contains no audio"@
            } else {
                r is Ok
            },
        },
{
    match outcome {
        Decoding::NoSuchFile => {
            let mut e = "no such file: ".to_owned();
            e.append(path);
            Err(e)
        },
        Decoding::NotStarted { not_found, why } => Err(
            ffmpeg_spawn_error(*not_found, why.as_str()),
        ),
        Decoding::Refused(why) => {
            let mut e = "ffmpeg could not decode ".to_owned();
            e.append(path);
            e.append(": ");
            let t = text::trim(why.as_str());
            e.append(t.as_str());
            Err(e)
        },
        Decoding::Decoded(n) => {
            if *n == 0 {
                let mut e = path.to_owned();
                e.append(" contains no audio");
                return Err(e);
            }
            Ok(())
        },
    }
}

/// The message that opens a session over a file.
pub fn hello() -> (r: ClientMessage)
    ensures
        r == (ClientMessage::SessionStart {
            mode: Mode::Transcript,
            sample_rate: SAMPLE_RATE,
            encoding: Encoding::PcmS16le,
            language: None,
            vocabulary: None,
            diarize: false,
        }),
{
    ClientMessage::SessionStart {
        mode: Mode::Transcript,
        sample_rate: SAMPLE_RATE,
        encoding: Encoding::PcmS16le,
        language: None,
        vocabulary: None,
        diarize: false,
    }
}

/// How many frames a file is sent as.
pub open spec fn frame_count(n: nat) -> nat {
    (n + CHUNK as nat - 1) as nat / (CHUNK as nat)
}

/// Frame `k` of a file: its samples, then silence.
pub open spec fn file_frame(samples: Seq<u32>, k: int) -> Seq<u32> {
    Seq::new(
        CHUNK as nat,
        |i: int|
            if k * CHUNK + i < samples.len() {
                samples[k * CHUNK + i]
            } else {
                SILENCE
            },
    )
}

/// How many frames `n` samples are sent as.
pub fn frames(n: usize) -> (r: usize)
    ensures
        r == frame_count(n as nat),
{
    if n % CHUNK == 0 {
        n / CHUNK
    } else {
        n / CHUNK + 1
    }
}

/// Frame `k` of a file. Every frame is a whole chunk: the last is padded with
/// silence, or the end of the audio would sit in the server's buffer.
pub fn frame(samples: &[u32], k: usize) -> (r: Vec<u32>)
    requires
        k < frame_count(samples@.len()),
    ensures
        r@ == file_frame(samples@, k as int),
        r@.len() == CHUNK,
{
    let len: usize = samples.len();
    assert(k * CHUNK < len) by (nonlinear_arith)
        requires
            k < (len + 8960 - 1) / 8960,
            CHUNK == 8960,
    ;
    let base: usize = k * CHUNK;
    let mut out: Vec<u32> = Vec::new();
    let mut i: usize = 0;
    while i < CHUNK
        invariant
            i <= CHUNK,
            base == k * CHUNK,
            base < len == samples@.len(),
            out@ == file_frame(samples@, k as int).take(i as int),
        decreases CHUNK - i,
    {
        let v: u32 = if i < len - base {
            samples[base + i]
        } else {
            SILENCE
        };
        out.push(v);
        assert(file_frame(samples@, k as int).take(i + 1) == file_frame(
            samples@,
            k as int,
        ).take(i as int).push(v));
        i += 1;
    }
    assert(file_frame(samples@, k as int).take(CHUNK as int) == file_frame(samples@, k as int));
    out
}

/// How much of a file has been sent after frame `k`: a number of samples, out of
/// the number there are.
pub fn progress(n: usize, k: usize) -> (r: (usize, usize))
    requires
        k < frame_count(n as nat),
    ensures
        r.1 == (if n == 0 {
            1int
        } else {
            n as int
        }),
        r.0 == (if (k + 1) * CHUNK < r.1 {
            (k + 1) * CHUNK
        } else {
            r.1 as int
        }),
{
    let total: usize = if n == 0 {
        1
    } else {
        n
    };
    // `k` whole chunks have been sent before this one.
    assert(k * CHUNK < n) by (nonlinear_arith)
        requires
            k < (n + 8960 - 1) / 8960,
            CHUNK == 8960,
    ;
    let before: usize = k * CHUNK;
    assert((k + 1) * CHUNK == before + CHUNK) by (nonlinear_arith)
        requires
            before == k * CHUNK,
    ;
    let done: usize = if total - before > CHUNK {
        before + CHUNK
    } else {
        total
    };
    (done, total)
}

/// Every sample of a file is sent, in order, and nothing but silence with it.
pub proof fn lemma_every_sample_is_sent(samples: Seq<u32>, j: int)
    requires
        0 <= j < samples.len(),
    ensures
        j / (CHUNK as int) < frame_count(samples.len()),
        file_frame(samples, j / (CHUNK as int))[j % (CHUNK as int)] == samples[j],
{
    let k = j / (CHUNK as int);
    assert(k * CHUNK + j % (CHUNK as int) == j);
}

/// What a message adds to a file's transcript, and whether it is the last.
pub fn on_message(message: &ServerMessage) -> (r: (Option<String>, bool))
    ensures
        match *message {
            ServerMessage::TranscriptCommit { text, .. } => r.0 matches Some(t) && t@ == text@
                && !r.1,
            ServerMessage::TranscriptProvisional { text, .. } => r.0 matches Some(t) && t@ == text@
                && !r.1,
            ServerMessage::SessionClosed { .. } => r.0 is None && r.1,
            ServerMessage::Error { message, .. } => r.0 matches Some(t) && t@
                == "\n[server error: "@ + message@ + "]"@ && r.1,
            _ => r.0 is None && !r.1,
        },
{
    match message {
        ServerMessage::TranscriptCommit { text, .. } => (Some(text.clone()), false),
        ServerMessage::TranscriptProvisional { text, .. } => (Some(text.clone()), false),
        ServerMessage::SessionClosed { .. } => (None, true),
        ServerMessage::Error { message, .. } => {
            let mut s = "\n[server error: ".to_owned();
            s.append(message.as_str());
            s.append("]");
            (Some(s), true)
        },
        _ => (None, false),
    }
}

/// Pieces of text, one after another.
pub open spec fn concatenated(p: Seq<Seq<char>>) -> Seq<char>
    decreases p.len(),
{
    if p.len() == 0 {
        Seq::empty()
    } else {
        concatenated(p.drop_last()) + p.last()
    }
}

/// A file's transcript, out of the pieces that arrived.
pub fn transcribe(pieces: &Vec<String>) -> (r: String)
    ensures
        r@ == trim_of(concatenated(texts(pieces@))),
{
    let ghost all = texts(pieces@);
    let mut out = String::new();
    let mut i: usize = 0;
    assert(all.take(0) == Seq::<Seq<char>>::empty());
    while i < pieces.len()
        invariant
            i <= pieces@.len(),
            all == texts(pieces@),
            out@ == concatenated(all.take(i as int)),
        decreases pieces@.len() - i,
    {
        assert(all.take(i + 1).drop_last() == all.take(i as int));
        out.append(pieces[i].as_str());
        i += 1;
    }
    assert(all.take(i as int) == all);
    text::trim(out.as_str())
}

/// A file is sent as just as many frames as its samples fill or begin.
pub proof fn lemma_frames_are_as_many_as_needed(n: nat)
    ensures
        n <= frame_count(n) * CHUNK,
        n > 0 ==> (frame_count(n) - 1) * CHUNK < n,
        n == 0 ==> frame_count(n) == 0,
{
    let q = frame_count(n);
    let c = CHUNK as int;
    assert(q == (n + c - 1) / c);
    vstd::arithmetic::div_mod::lemma_fundamental_div_mod(n + c - 1, c);
}

/// A frame is a whole chunk, in which only what lies past the end of the file is
/// silence.
pub proof fn lemma_a_frame_is_samples_then_zeroes(samples: Seq<u32>, k: int, i: int)
    requires
        0 <= k,
        0 <= i < CHUNK,
    ensures
        file_frame(samples, k).len() == CHUNK,
        k * CHUNK + i < samples.len() ==> file_frame(samples, k)[i] == samples[k * CHUNK + i],
        k * CHUNK + i >= samples.len() ==> file_frame(samples, k)[i] == 0,
{
}

/// Pieces of text read as one after another.
pub proof fn lemma_pieces_are_read_in_order(p: Seq<Seq<char>>)
    ensures
        concatenated(p) == p.flatten(),
    decreases p.len(),
{
    p.lemma_flatten_and_flatten_alt_are_equivalent();
    if p.len() > 0 {
        lemma_pieces_are_read_in_order(p.drop_last());
        p.drop_last().lemma_flatten_and_flatten_alt_are_equivalent();
    }
}

} // verus!
