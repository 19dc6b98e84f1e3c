//! A deterministic recogniser, for everything that does not need a real one.

use crate::server::asr::{self, milliseconds, AsrBackend, AsrStream, CHUNK_SAMPLES};
use crate::text::texts;
use vstd::prelude::*;

verus! {

/// Emits one scripted word per chunk, then nothing.
///
/// Deterministic on purpose: what is built on it asserts exact message
/// sequences.
pub struct MockBackend {
    script: Vec<String>,
    chunk_samples: usize,
}

impl MockBackend {
    pub closed spec fn words(self) -> Seq<Seq<char>> {
        texts(self.script@)
    }

    pub closed spec fn samples(self) -> usize {
        self.chunk_samples
    }

    pub fn new(words: &[&str]) -> (r: MockBackend)
        ensures
            r.words() == words@.map_values(|w: &str| w@),
            r.samples() == CHUNK_SAMPLES,
    {
        let ghost all = words@.map_values(|w: &str| w@);
        let mut script: Vec<String> = Vec::new();
        let mut i: usize = 0;
        assert(texts(script@) == all.take(0));
        while i < words.len()
            invariant
                i <= words@.len(),
                all == words@.map_values(|w: &str| w@),
                texts(script@) == all.take(i as int),
            decreases words@.len() - i,
        {
            let w = words[i].to_owned();
            let ghost g = w@;
            let ghost was = script@;
            script.push(w);
            assert(texts(script@) == texts(was).push(g));
            assert(all.take(i + 1) == all.take(i as int).push(g));
            i += 1;
        }
        assert(all.take(i as int) == all);
        MockBackend { script, chunk_samples: CHUNK_SAMPLES }
    }

    /// The same words from chunks of another size.
    pub fn with_chunk_samples(self, n: usize) -> (r: MockBackend)
        ensures
            r.words() == self.words(),
            r.samples() == n,
    {
        MockBackend { script: self.script, chunk_samples: n }
    }

    /// How much audio a chunk holds, in milliseconds.
    pub fn chunk_ms(&self) -> (r: u32)
        requires
            milliseconds(self.samples() as nat) <= u32::MAX,
        ensures
            r == milliseconds(self.samples() as nat),
    {
        asr::chunk_ms(self)
    }
}

/// A decoder that says its script, whatever it hears.
pub struct MockStream {
    script: Vec<String>,
    idx: usize,
}

impl MockStream {
    /// What is still to be said.
    pub closed spec fn rest(self) -> Seq<Seq<char>> {
        texts(self.script@).skip(self.idx as int)
    }

    #[verifier::type_invariant]
    spec fn inv(self) -> bool {
        self.idx <= self.script@.len()
    }
}

/// What a script says next, and what is left of it.
pub open spec fn next_word(rest: Seq<Seq<char>>) -> (Seq<char>, Seq<Seq<char>>) {
    if rest.len() == 0 {
        (Seq::empty(), rest)
    } else {
        (rest[0] + " "@, rest.skip(1))
    }
}

impl AsrStream for MockStream {
    open spec fn hears(
        before: MockStream,
        chunk: Seq<u32>,
        after: MockStream,
        answer: Result<Seq<char>, Seq<char>>,
    ) -> bool {
        answer == Ok::<Seq<char>, Seq<char>>(next_word(before.rest()).0) && after.rest()
            == next_word(before.rest()).1
    }

    open spec fn ends(
        before: MockStream,
        after: MockStream,
        answer: Result<Seq<char>, Seq<char>>,
    ) -> bool {
        answer == Ok::<Seq<char>, Seq<char>>(Seq::empty()) && after.rest() == before.rest()
    }

    fn push(&mut self, audio: &[u32]) -> (r: Result<String, String>) {
        proof {
            use_type_invariant(&*self);
        }
        let ghost before = self.rest();
        if self.idx < self.script.len() {
            let i: usize = self.idx;
            let mut w = self.script[i].clone();
            w.append(" ");
            assert(before[0] == texts(self.script@)[i as int]);
            assert(before.skip(1) == texts(self.script@).skip(i + 1));
            self.idx = i + 1;
            Ok(w)
        } else {
            Ok(String::new())
        }
    }

    fn finish(&mut self) -> (r: Result<String, String>) {
        Ok(String::new())
    }
}

impl AsrBackend for MockBackend {
    type Stream = MockStream;

    open spec fn fresh(&self, s: MockStream) -> bool {
        s.rest() == self.words()
    }

    open spec fn chunk(&self) -> nat {
        self.samples() as nat
    }

    open spec fn name(&self) -> Seq<char> {
        "mock"@
    }

    fn stream(&self) -> (r: MockStream) {
        let script = crate::client::ipc::copy_texts(&self.script);
        assert(texts(script@).skip(0) =~= texts(script@));
        MockStream { script, idx: 0 }
    }

    fn chunk_samples(&self) -> (r: usize) {
        self.chunk_samples
    }

    fn model_name(&self) -> (r: String) {
        "mock".to_owned()
    }
}

/// Whatever other decoders of one model have said, a fresh one starts at the
/// first word: no session resumes where another left off.
pub proof fn lemma_streams_are_independent(
    b: MockBackend,
    s: MockStream,
    chunk: Seq<u32>,
    t: MockStream,
    answer: Result<Seq<char>, Seq<char>>,
)
    requires
        b.fresh(s),
        MockStream::hears(s, chunk, t, answer),
        b.words().len() > 0,
    ensures
        answer == Ok::<Seq<char>, Seq<char>>(b.words()[0] + " "@),
{
}

/// A script is said word by word, each followed by a blank, and then no more.
pub proof fn lemma_a_script_is_said_in_order(rest: Seq<Seq<char>>)
    ensures
        rest.len() == 0 ==> next_word(rest).0.len() == 0 && next_word(rest).1.len() == 0,
        rest.len() > 0 ==> next_word(rest).0 == rest[0].push(' ') && next_word(rest).1 == rest.skip(
            1,
        ),
{
    reveal_strlit(" ");
    if rest.len() > 0 {
        assert(rest[0] + " "@ =~= rest[0].push(' '));
    }
}

} // verus!
