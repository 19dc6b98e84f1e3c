//! What a session does with audio: protocol semantics, and nothing of transport.

use crate::proto::{Mode, ServerMessage};
use crate::server::asr::{AsrBackend, AsrStream};
use crate::text;
use vstd::prelude::*;

verus! {

/// Digital silence: `0.0` as an `f32` bit pattern.
pub const SILENCE: u32 = 0;

/// The whole chunks of `n` samples in `audio`, in order.
pub open spec fn whole_chunks(audio: Seq<u32>, n: nat) -> Seq<Seq<u32>>
    decreases audio.len(),
{
    if n == 0 || audio.len() < n {
        Seq::empty()
    } else {
        seq![audio.take(n as int)] + whole_chunks(audio.skip(n as int), n)
    }
}

/// What is left of `audio` after its whole chunks.
pub open spec fn remainder(audio: Seq<u32>, n: nat) -> Seq<u32>
    decreases audio.len(),
{
    if n == 0 || audio.len() < n {
        audio
    } else {
        remainder(audio.skip(n as int), n)
    }
}

/// A partial chunk made whole with silence.
pub open spec fn padded(tail: Seq<u32>, n: nat) -> Seq<u32> {
    tail + Seq::new((n - tail.len()) as nat, |i: int| SILENCE)
}

/// Whether a decoder may answer `chunks` with `texts`, one each.
pub open spec fn decodes<S: AsrStream>(
    before: S,
    chunks: Seq<Seq<u32>>,
    texts: Seq<Seq<char>>,
    after: S,
) -> bool
    decreases chunks.len(),
{
    if chunks.len() == 0 {
        texts.len() == 0 && after == before
    } else {
        &&& texts.len() == chunks.len()
        &&& exists|mid: S|
            decodes(before, chunks.drop_last(), texts.drop_last(), mid) && #[trigger] S::hears(
                mid,
                chunks.last(),
                after,
                Ok(texts.last()),
            )
    }
}

/// The texts that say something.
pub open spec fn spoken(texts: Seq<Seq<char>>) -> Seq<Seq<char>>
    decreases texts.len(),
{
    if texts.len() == 0 {
        Seq::empty()
    } else {
        let before = spoken(texts.drop_last());
        if texts.last().len() == 0 {
            before
        } else {
            before.push(texts.last())
        }
    }
}

/// Whether `messages` commit `texts`, numbered on from `seq`.
pub open spec fn commits(messages: Seq<ServerMessage>, texts: Seq<Seq<char>>, seq: u64) -> bool {
    &&& messages.len() == texts.len()
    &&& forall|i: int|
        0 <= i < messages.len() ==> (#[trigger] messages[i] matches ServerMessage::TranscriptCommit {
            seq: n,
            text,
            speaker,
        } && n == seq + i + 1 && text@ == texts[i] && speaker is None)
}

/// One client's session.
pub struct Session<S: AsrStream> {
    stream: S,
    chunk: usize,
    /// Audio that does not make a whole chunk yet.
    pending: Vec<u32>,
    /// How many fragments have been committed.
    seq: u64,
    mode: Mode,
    id: String,
}

impl<S: AsrStream> Session<S> {
    pub closed spec fn decoder(self) -> S {
        self.stream
    }

    pub closed spec fn chunk_len(self) -> nat {
        self.chunk as nat
    }

    pub closed spec fn waiting(self) -> Seq<u32> {
        self.pending@
    }

    pub closed spec fn committed(self) -> u64 {
        self.seq
    }

    /// The mode the client asked for, and the session's name.
    pub closed spec fn client(self) -> (Mode, Seq<char>) {
        (self.mode, self.id@)
    }

    /// A chunk holds something, and what is waiting does not make one.
    pub open spec fn wf(self) -> bool {
        self.chunk_len() > 0 && self.waiting().len() < self.chunk_len()
    }

    pub fn new<B: AsrBackend<Stream = S>>(mode: Mode, backend: &B, id: String) -> (r: Session<S>)
        requires
            backend.chunk() > 0,
        ensures
            r.wf(),
            backend.fresh(r.decoder()),
            r.chunk_len() == backend.chunk(),
            r.waiting().len() == 0,
            r.committed() == 0,
            r.client() == (mode, id@),
    {
        Session {
            stream: backend.stream(),
            chunk: backend.chunk_samples(),
            pending: Vec::new(),
            seq: 0,
            mode,
            id,
        }
    }

    /// A commit for what was decoded, unless nothing was.
    fn commit(&mut self, text: String, out: &mut Vec<ServerMessage>)
        requires
            old(self).committed() < u64::MAX,
        ensures
            final(self).decoder() == old(self).decoder(),
            final(self).chunk_len() == old(self).chunk_len(),
            final(self).waiting() == old(self).waiting(),
            final(self).client() == old(self).client(),
            text@.len() == 0 ==> final(self).committed() == old(self).committed() && final(out)@
                == old(out)@,
            text@.len() > 0 ==> final(self).committed() == old(self).committed() + 1 && final(out)@
                == old(out)@.push(
                ServerMessage::TranscriptCommit {
                    seq: (old(self).committed() + 1) as u64,
                    text,
                    speaker: None,
                },
            ),
    {
        if text::chars_of(text.as_str()).len() == 0 {
            return;
        }
        self.seq = self.seq + 1;
        out.push(ServerMessage::TranscriptCommit { seq: self.seq, text, speaker: None });
    }

    /// Take audio from the client, decoding every chunk it completes.
    ///
    /// Network frames have no relationship to the model's chunk size, so a
    /// partial chunk waits rather than being decoded short. An error drops the
    /// audio that was waiting with the audio that was given.
    pub fn push_audio(&mut self, audio: &[u32]) -> (r: Result<Vec<ServerMessage>, String>)
        requires
            old(self).wf(),
            old(self).waiting().len() + audio@.len() <= usize::MAX,
            old(self).committed() + old(self).waiting().len() + audio@.len() < u64::MAX,
        ensures
            final(self).wf(),
            final(self).chunk_len() == old(self).chunk_len(),
            final(self).client() == old(self).client(),
            ({
                let all = old(self).waiting() + audio@;
                let chunks = whole_chunks(all, old(self).chunk_len());
                match r {
                    Ok(messages) => {
                        &&& final(self).waiting() == remainder(all, old(self).chunk_len())
                        &&& exists|texts: Seq<Seq<char>>|
                            #![trigger decodes(
                                old(self).decoder(),
                                chunks,
                                texts,
                                final(self).decoder(),
                            )]
                            decodes(old(self).decoder(), chunks, texts, final(self).decoder())
                                && commits(messages@, spoken(texts), old(self).committed())
                                && final(self).committed() == old(self).committed() + spoken(
                                texts,
                            ).len()
                    },
                    Err(e) => {
                        &&& final(self).waiting().len() == 0
                        &&& exists|k: int, texts: Seq<Seq<char>>, mid: S|
                            #![trigger decodes(old(self).decoder(), chunks.take(k), texts, mid)]
                            0 <= k < chunks.len() && decodes(
                                old(self).decoder(),
                                chunks.take(k),
                                texts,
                                mid,
                            ) && S::hears(mid, chunks[k], final(self).decoder(), Err(e@))
                                && final(self).committed() == old(self).committed() + spoken(
                                texts,
                            ).len()
                    },
                }
            }),
    {
        let ghost n = self.chunk as nat;
        let ghost all = self.pending@ + audio@;
        let ghost chunks = whole_chunks(all, n);
        let ghost first = self.stream;
        let ghost start = self.seq;
        let mut held: Vec<u32> = Vec::new();
        held.append(&mut self.pending);
        held.extend_from_slice(audio);
        assert(held@ =~= all);
        let total: usize = held.len();
        let mut out: Vec<ServerMessage> = Vec::new();
        let mut at: usize = 0;
        let ghost mut texts: Seq<Seq<char>> = Seq::empty();
        let ghost mut k: int = 0;
        assert(all.skip(0) =~= all);
        assert(chunks.take(0) =~= Seq::empty());
        proof {
            lemma_chunk_count(all, n);
        }
        while total - at >= self.chunk
            invariant
                held@ == all,
                at <= total == all.len(),
                n == self.chunk as nat > 0,
                chunks == whole_chunks(all, n),
                0 <= k <= chunks.len() <= all.len(),
                whole_chunks(all.skip(at as int), n) == chunks.skip(k),
                remainder(all.skip(at as int), n) == remainder(all, n),
                k == texts.len(),
                self.client() == old(self).client(),
                self.pending@.len() == 0,
                start == old(self).committed(),
                first == old(self).decoder(),
                n == old(self).chunk_len(),
                all == old(self).waiting() + audio@,
                start + all.len() < u64::MAX,
                spoken(texts).len() <= k,
                self.seq == start + spoken(texts).len(),
                decodes(first, chunks.take(k), texts, self.stream),
                commits(out@, spoken(texts), start),
            decreases total - at,
        {
            let ghost rest = all.skip(at as int);
            let mut chunk: Vec<u32> = Vec::new();
            let end: usize = at + self.chunk;
            let mut i: usize = at;
            while i < end
                invariant
                    at <= i <= end <= total == all.len(),
                    held@ == all,
                    chunk@ == all.subrange(at as int, i as int),
                decreases end - i,
            {
                chunk.push(held[i]);
                assert(all.subrange(at as int, i + 1) == all.subrange(at as int, i as int).push(
                    all[i as int],
                ));
                i += 1;
            }
            assert(chunk@ =~= rest.take(n as int));
            assert(whole_chunks(rest, n) == seq![rest.take(n as int)] + whole_chunks(
                rest.skip(n as int),
                n,
            ));
            assert(chunks.skip(k).len() >= 1);
            assert(chunks.skip(k)[0] == rest.take(n as int));
            assert(chunks[k] == chunk@);
            let ghost mid = self.stream;
            match self.stream.push(chunk.as_slice()) {
                Ok(text) => {
                    let ghost t = text@;
                    let ghost more = texts.push(t);
                    let ghost was = out@;
                    proof {
                        lemma_decodes_one_more(
                            first,
                            chunks.take(k),
                            texts,
                            mid,
                            chunks[k],
                            t,
                            self.stream,
                        );
                        assert(chunks.take(k).push(chunks[k]) =~= chunks.take(k + 1));
                        assert(rest.skip(n as int) =~= all.skip(end as int));
                        lemma_next_tail(
                            chunks,
                            k,
                            rest.take(n as int),
                            whole_chunks(all.skip(end as int), n),
                        );
                        assert(remainder(rest, n) == remainder(rest.skip(n as int), n));
                    }
                    self.commit(text, &mut out);
                    proof {
                        assert(more.drop_last() =~= texts);
                        assert(spoken(more) == (if t.len() == 0 {
                            spoken(texts)
                        } else {
                            spoken(texts).push(t)
                        }));
                        texts = more;
                        k = k + 1;
                        assert(commits(out@, spoken(texts), start)) by {
                            if t.len() > 0 {
                                assert forall|j: int| 0 <= j < out@.len() implies (
                                #[trigger] out@[j] matches ServerMessage::TranscriptCommit {
                                    seq: m,
                                    text,
                                    speaker,
                                } && m == start + j + 1 && text@ == spoken(texts)[j]
                                    && speaker is None) by {
                                    if j < was.len() {
                                        assert(out@[j] == was[j]);
                                    }
                                }
                            }
                        }
                    }
                    at = end;
                },
                Err(e) => {
                    proof {
                        assert(decodes(first, chunks.take(k), texts, mid));
                        lemma_remainder_short(all, n);
                    }
                    return Err(e);
                },
            }
        }
        proof {
            assert(whole_chunks(all.skip(at as int), n).len() == 0);
            assert(chunks.skip(k).len() == 0);
            assert(chunks.take(k) =~= chunks);
        }
        let mut i: usize = at;
        let mut left: Vec<u32> = Vec::new();
        while i < total
            invariant
                at <= i <= total == all.len(),
                held@ == all,
                left@ == all.subrange(at as int, i as int),
            decreases total - i,
        {
            left.push(held[i]);
            assert(all.subrange(at as int, i + 1) == all.subrange(at as int, i as int).push(
                all[i as int],
            ));
            i += 1;
        }
        assert(left@ =~= all.skip(at as int));
        self.pending = left;
        assert(self.waiting() == remainder(all, old(self).chunk_len()));
        assert(decodes(old(self).decoder(), chunks, texts, self.decoder()));
        Ok(out)
    }
}

/// The chunk a session's last audio is decoded as, if there is any.
pub open spec fn last_chunk(waiting: Seq<u32>, n: nat) -> Seq<Seq<u32>> {
    if waiting.len() == 0 {
        Seq::empty()
    } else {
        seq![padded(waiting, n)]
    }
}

impl<S: AsrStream> Session<S> {
    /// End the session: decode the audio that does not fill a chunk, and drain
    /// what the decoder still holds.
    ///
    /// The decoder holds words until enough context arrives, so without this
    /// the tail of an utterance would be lost.
    pub fn finish(&mut self) -> (r: Result<Vec<ServerMessage>, String>)
        requires
            old(self).wf(),
            old(self).committed() < u64::MAX - 2,
        ensures
            final(self).wf(),
            final(self).chunk_len() == old(self).chunk_len(),
            final(self).client() == old(self).client(),
            final(self).waiting().len() == 0,
            ({
                let chunks = last_chunk(old(self).waiting(), old(self).chunk_len());
                match r {
                    Ok(messages) => exists|texts: Seq<Seq<char>>, mid: S, drained: Seq<char>|
                        #![trigger decodes(old(self).decoder(), chunks, texts, mid), S::ends(
                            mid,
                            final(self).decoder(),
                            Ok(drained),
                        )]
                        decodes(old(self).decoder(), chunks, texts, mid) && S::ends(
                            mid,
                            final(self).decoder(),
                            Ok(drained),
                        ) && commits(
                            messages@,
                            spoken(texts.push(drained)),
                            old(self).committed(),
                        ) && final(self).committed() == old(self).committed() + messages@.len(),
                    Err(e) => {
                        ||| chunks.len() > 0 && S::hears(
                            old(self).decoder(),
                            chunks[0],
                            final(self).decoder(),
                            Err(e@),
                        )
                        ||| exists|texts: Seq<Seq<char>>, mid: S|
                            #![trigger decodes(old(self).decoder(), chunks, texts, mid)]
                            decodes(old(self).decoder(), chunks, texts, mid) && S::ends(
                                mid,
                                final(self).decoder(),
                                Err(e@),
                            )
                    },
                }
            }),
    {
        let ghost n = self.chunk as nat;
        let ghost waiting = self.pending@;
        let ghost chunks = last_chunk(waiting, n);
        let ghost first = self.stream;
        let ghost start = self.seq;
        let mut out: Vec<ServerMessage> = Vec::new();
        let ghost mut texts: Seq<Seq<char>> = Seq::empty();
        let mut tail: Vec<u32> = Vec::new();
        tail.append(&mut self.pending);
        let held: usize = tail.len();
        reveal_with_fuel(spoken, 3);
        if held > 0 {
            let size: usize = self.chunk;
            while tail.len() < size
                invariant
                    held == waiting.len() <= tail@.len() <= size == n,
                    tail@ == waiting + Seq::new((tail@.len() - held) as nat, |i: int| SILENCE),
                decreases size - tail@.len(),
            {
                let ghost was = tail@;
                tail.push(SILENCE);
                assert(tail@ =~= waiting + Seq::new((tail@.len() - held) as nat, |i: int| SILENCE));
            }
            assert(tail@ =~= padded(waiting, n));
            match self.stream.push(tail.as_slice()) {
                Ok(text) => {
                    proof {
                        lemma_decodes_one_more(
                            first,
                            Seq::empty(),
                            Seq::empty(),
                            first,
                            tail@,
                            text@,
                            self.stream,
                        );
                        assert(Seq::<Seq<u32>>::empty().push(tail@) =~= chunks);
                        texts = Seq::<Seq<char>>::empty().push(text@);
                        assert(texts.drop_last() =~= Seq::empty());
                    }
                    self.commit(text, &mut out);
                },
                Err(e) => {
                    return Err(e);
                },
            }
        } else {
            assert(decodes(first, chunks, texts, self.stream));
        }
        let ghost mid = self.stream;
        assert(decodes(first, chunks, texts, mid));
        assert(commits(out@, spoken(texts), start));
        let ghost was = out@;
        match self.stream.finish() {
            Ok(text) => {
                let ghost t = text@;
                self.commit(text, &mut out);
                proof {
                    let more = texts.push(t);
                    assert(more.drop_last() =~= texts);
                    assert(spoken(more) == (if t.len() == 0 {
                        spoken(texts)
                    } else {
                        spoken(texts).push(t)
                    }));
                    assert(S::ends(mid, self.decoder(), Ok(t)));
                    assert(decodes(old(self).decoder(), chunks, texts, mid));
                    assert(self.committed() == old(self).committed() + out@.len());
                    assert(commits(out@, spoken(more), start)) by {
                        if t.len() > 0 {
                            assert forall|j: int| 0 <= j < out@.len() implies (
                            #[trigger] out@[j] matches ServerMessage::TranscriptCommit {
                                seq: m,
                                text,
                                speaker,
                            } && m == start + j + 1 && text@ == spoken(more)[j]
                                && speaker is None) by {
                                if j < was.len() {
                                    assert(out@[j] == was[j]);
                                }
                            }
                        }
                    }
                }
                Ok(out)
            },
            Err(e) => {
                assert(decodes(old(self).decoder(), chunks, texts, mid));
                Err(e)
            },
        }
    }
}

/// Decoding goes chunk by chunk: what a decoder may answer to one more chunk
/// follows what it may answer to those before.
pub proof fn lemma_decodes_one_more<S: AsrStream>(
    before: S,
    chunks: Seq<Seq<u32>>,
    texts: Seq<Seq<char>>,
    mid: S,
    chunk: Seq<u32>,
    text: Seq<char>,
    after: S,
)
    requires
        decodes(before, chunks, texts, mid),
        S::hears(mid, chunk, after, Ok(text)),
    ensures
        decodes(before, chunks.push(chunk), texts.push(text), after),
{
    let c = chunks.push(chunk);
    let t = texts.push(text);
    assert(c.drop_last() =~= chunks);
    assert(t.drop_last() =~= texts);
    assert(S::hears(mid, c.last(), after, Ok(t.last())));
}

proof fn lemma_next_tail<T>(all: Seq<T>, k: int, head: T, tail: Seq<T>)
    requires
        0 <= k < all.len(),
        all.skip(k) == seq![head] + tail,
    ensures
        tail == all.skip(k + 1),
{
    let both = seq![head] + tail;
    assert(both.len() == all.len() - k);
    assert forall|i: int| 0 <= i < tail.len() implies tail[i] == all.skip(k + 1)[i] by {
        assert(both[i + 1] == tail[i]);
        assert(all.skip(k)[i + 1] == all[k + i + 1]);
    }
    assert(tail =~= all.skip(k + 1));
}

proof fn lemma_remainder_short(audio: Seq<u32>, n: nat)
    requires
        n > 0,
    ensures
        remainder(audio, n).len() < n,
    decreases audio.len(),
{
    if audio.len() >= n {
        lemma_remainder_short(audio.skip(n as int), n);
    }
}

proof fn lemma_chunk_count(audio: Seq<u32>, n: nat)
    requires
        n > 0,
    ensures
        whole_chunks(audio, n).len() <= audio.len(),
    decreases audio.len(),
{
    if audio.len() >= n {
        lemma_chunk_count(audio.skip(n as int), n);
    }
}

/// Several sequences end to end.
pub open spec fn end_to_end(parts: Seq<Seq<u32>>) -> Seq<u32>
    decreases parts.len(),
{
    if parts.len() == 0 {
        Seq::empty()
    } else {
        parts[0] + end_to_end(parts.skip(1))
    }
}

/// Cutting audio into chunks loses none of it and changes no order, and every
/// chunk is whole.
pub proof fn lemma_chunks_keep_everything(audio: Seq<u32>, n: nat)
    requires
        n > 0,
    ensures
        end_to_end(whole_chunks(audio, n)) + remainder(audio, n) == audio,
        forall|i: int|
            0 <= i < whole_chunks(audio, n).len() ==> (#[trigger] whole_chunks(audio, n)[i]).len()
                == n,
        remainder(audio, n).len() < n,
    decreases audio.len(),
{
    if audio.len() >= n {
        let rest = audio.skip(n as int);
        lemma_chunks_keep_everything(rest, n);
        let c = whole_chunks(audio, n);
        assert(c.skip(1) =~= whole_chunks(rest, n));
        assert(c[0] == audio.take(n as int));
        assert forall|i: int| 0 <= i < c.len() implies (#[trigger] c[i]).len() == n by {
            if i > 0 {
                assert(c[i] == whole_chunks(rest, n)[i - 1]);
            }
        }
        let head = audio.take(n as int);
        let body = end_to_end(whole_chunks(rest, n));
        let tail = remainder(rest, n);
        assert(end_to_end(c) == head + body);
        assert(head + body + tail =~= head + (body + tail));
        assert(head + rest =~= audio);
    } else {
        assert(end_to_end(whole_chunks(audio, n)) + remainder(audio, n) =~= audio);
    }
}

/// How a client's frames cut its audio makes no difference: what was waiting and
/// what comes next are chunked as if they had come at once.
pub proof fn lemma_frames_make_no_difference(a: Seq<u32>, b: Seq<u32>, n: nat)
    requires
        n > 0,
    ensures
        whole_chunks(a + b, n) == whole_chunks(a, n) + whole_chunks(remainder(a, n) + b, n),
        remainder(a + b, n) == remainder(remainder(a, n) + b, n),
    decreases a.len(),
{
    if a.len() >= n {
        let rest = a.skip(n as int);
        lemma_frames_make_no_difference(rest, b, n);
        assert((a + b).skip(n as int) =~= rest + b);
        assert((a + b).take(n as int) =~= a.take(n as int));
        assert(whole_chunks(a + b, n) =~= whole_chunks(a, n) + whole_chunks(
            remainder(a, n) + b,
            n,
        ));
    } else {
        assert(whole_chunks(a, n) + whole_chunks(a + b, n) =~= whole_chunks(a + b, n));
    }
}

/// A session only ever commits, whatever its mode: it never asks a client to
/// take text back, which in an application the user is typing into would
/// destroy something.
pub proof fn lemma_a_session_only_commits(
    messages: Seq<ServerMessage>,
    texts: Seq<Seq<char>>,
    seq: u64,
    i: int,
)
    requires
        commits(messages, texts, seq),
        0 <= i < messages.len(),
    ensures
        messages[i] is TranscriptCommit,
        messages.len() == texts.len(),
        messages[i]->TranscriptCommit_seq == seq + i + 1,
        messages[i]->TranscriptCommit_text@ == texts[i],
        messages[i]->TranscriptCommit_speaker is None,
        messages[i] !is TranscriptProvisional && messages[i] !is TranscriptRevise,
{
}

/// The audio left at the end of a session is decoded as one chunk: whole,
/// beginning with exactly that audio, and zeroes after it. Where none is left,
/// no chunk is decoded.
pub proof fn lemma_the_last_chunk_begins_with_what_waited(waiting: Seq<u32>, n: nat)
    requires
        waiting.len() < n,
    ensures
        waiting.len() == 0 ==> last_chunk(waiting, n).len() == 0,
        waiting.len() > 0 ==> ({
            let c = last_chunk(waiting, n);
            &&& c.len() == 1
            &&& c[0].len() == n
            &&& forall|i: int| 0 <= i < waiting.len() ==> #[trigger] c[0][i] == waiting[i]
            &&& forall|i: int| waiting.len() <= i < n ==> #[trigger] c[0][i] == 0
        }),
{
}

proof fn lemma_end_to_end_push(parts: Seq<Seq<u32>>, last: Seq<u32>)
    ensures
        end_to_end(parts.push(last)) == end_to_end(parts) + last,
    decreases parts.len(),
{
    let all = parts.push(last);
    reveal_with_fuel(end_to_end, 2);
    if parts.len() == 0 {
        assert(all.skip(1) =~= Seq::empty());
        assert(end_to_end(all) =~= end_to_end(parts) + last);
    } else {
        assert(all.skip(1) =~= parts.skip(1).push(last));
        lemma_end_to_end_push(parts.skip(1), last);
        assert(parts[0] + (end_to_end(parts.skip(1)) + last) =~= parts[0] + end_to_end(
            parts.skip(1),
        ) + last);
    }
}

/// Nothing a client says is lost: over a whole session the decoder is given, in
/// whole chunks, all the audio that was sent, in order, then less than one chunk
/// of zeroes.
pub proof fn lemma_a_session_decodes_all_its_audio(audio: Seq<u32>, n: nat)
    requires
        n > 0,
    ensures
        ({
            let given = whole_chunks(audio, n) + last_chunk(remainder(audio, n), n);
            let heard = end_to_end(given);
            &&& forall|i: int| 0 <= i < given.len() ==> (#[trigger] given[i]).len() == n
            &&& audio.len() <= heard.len() < audio.len() + n
            &&& heard.take(audio.len() as int) == audio
            &&& forall|i: int| audio.len() <= i < heard.len() ==> #[trigger] heard[i] == 0
        }),
{
    lemma_chunks_keep_everything(audio, n);
    let whole = whole_chunks(audio, n);
    let rest = remainder(audio, n);
    let last = last_chunk(rest, n);
    let given = whole + last;
    let body = end_to_end(whole);
    assert(body + rest == audio);
    lemma_the_last_chunk_begins_with_what_waited(rest, n);
    if rest.len() == 0 {
        assert(given =~= whole);
        assert(audio =~= body);
    } else {
        assert(given =~= whole.push(last[0]));
        lemma_end_to_end_push(whole, last[0]);
        let heard = body + last[0];
        assert(heard.take(audio.len() as int) =~= audio) by {
            assert forall|i: int| 0 <= i < audio.len() implies heard[i] == audio[i] by {
                assert(audio[i] == (body + rest)[i]);
            }
        }
    }
    assert forall|i: int| 0 <= i < given.len() implies (#[trigger] given[i]).len() == n by {
        if i < whole.len() {
            assert(given[i] == whole[i]);
        } else {
            assert(given[i] == last[i - whole.len()]);
        }
    }
}

/// Decoding is hearing each chunk in turn: there is a state of the decoder
/// before and after every one, and each text is the answer to its own chunk.
pub proof fn lemma_every_chunk_is_heard<S: AsrStream>(
    before: S,
    chunks: Seq<Seq<u32>>,
    texts: Seq<Seq<char>>,
    after: S,
)
    requires
        decodes(before, chunks, texts, after),
    ensures
        texts.len() == chunks.len(),
        exists|states: Seq<S>|
            #![trigger states.len()]
            states.len() == chunks.len() + 1 && states[0] == before && states.last() == after
                && forall|i: int|
                0 <= i < chunks.len() ==> S::hears(
                    states[i],
                    #[trigger] chunks[i],
                    states[i + 1],
                    Ok(texts[i]),
                ),
    decreases chunks.len(),
{
    if chunks.len() == 0 {
        let states = seq![before];
        assert(states.len() == 1);
    } else {
        let c = chunks.drop_last();
        let t = texts.drop_last();
        let mid = choose|mid: S|
            decodes(before, c, t, mid) && #[trigger] S::hears(
                mid,
                chunks.last(),
                after,
                Ok(texts.last()),
            );
        lemma_every_chunk_is_heard(before, c, t, mid);
        let some = choose|states: Seq<S>|
            #![trigger states.len()]
            states.len() == c.len() + 1 && states[0] == before && states.last() == mid
                && forall|i: int|
                0 <= i < c.len() ==> S::hears(states[i], #[trigger] c[i], states[i + 1], Ok(t[i]));
        let states = some.push(after);
        assert(states.len() == chunks.len() + 1);
        assert forall|i: int| 0 <= i < chunks.len() implies S::hears(
            states[i],
            #[trigger] chunks[i],
            states[i + 1],
            Ok(texts[i]),
        ) by {
            if i < c.len() {
                assert(c[i] == chunks[i] && t[i] == texts[i]);
            }
        }
    }
}

/// What is committed is what was decoded, in order, and no decoded text that
/// says something is left out.
pub proof fn lemma_all_that_says_something_is_spoken(texts: Seq<Seq<char>>)
    ensures
        spoken(texts) == texts.filter(|t: Seq<char>| t.len() > 0),
    decreases texts.len(),
{
    reveal(Seq::filter);
    if texts.len() > 0 {
        lemma_all_that_says_something_is_spoken(texts.drop_last());
    }
}

} // verus!
