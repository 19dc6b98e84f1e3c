//! Fragments of transcript.

use crate::order::{Comparable, Ranked};
use crate::text::opt_view;
use vstd::prelude::*;

verus! {

/// One fragment of transcript with the time it arrived.
#[derive(Debug, PartialEq, Eq)]
pub struct Segment {
    /// Nanoseconds since the session started.
    pub at: i64,
    pub text: String,
    /// Which source produced this, when more than one is in play. `None` for a
    /// single source or a combined mix, where attribution is meaningless.
    pub source: Option<String>,
    /// Anonymous speaker from the server's diarizer, when one ran.
    pub speaker: Option<u32>,
    /// The `seq` of the transcript message this came from, so a later
    /// relabelling of a range of seqs can find it. `None` for a segment that
    /// did not come from a commit.
    pub seq: Option<u64>,
}

impl Clone for Segment {
    fn clone(&self) -> (r: Segment)
        ensures
            r == *self,
    {
        Segment {
            at: self.at,
            text: self.text.clone(),
            source: self.source.clone(),
            speaker: self.speaker,
            seq: self.seq,
        }
    }
}

/// A fragment, as plain values.
pub struct SegmentView {
    pub at: i64,
    pub text: Seq<char>,
    pub source: Option<Seq<char>>,
    pub speaker: Option<u32>,
    pub seq: Option<u64>,
}

impl View for Segment {
    type V = SegmentView;

    open spec fn view(&self) -> SegmentView {
        SegmentView {
            at: self.at,
            text: self.text@,
            source: opt_view(self.source),
            speaker: self.speaker,
            seq: self.seq,
        }
    }
}

pub open spec fn segment_views(v: Seq<Segment>) -> Seq<SegmentView> {
    v.map_values(|s: Segment| s@)
}

/// Segments are ordered by when they arrived.
impl Ranked for SegmentView {
    open spec fn at_most(&self, other: &SegmentView) -> bool {
        self.at <= other.at
    }

    proof fn total(a: &SegmentView, b: &SegmentView) {
    }

    proof fn transitive(a: &SegmentView, b: &SegmentView, c: &SegmentView) {
    }
}

impl Ranked for Segment {
    open spec fn at_most(&self, other: &Segment) -> bool {
        self.at <= other.at
    }

    proof fn total(a: &Segment, b: &Segment) {
    }

    proof fn transitive(a: &Segment, b: &Segment, c: &Segment) {
    }
}

impl Comparable for Segment {
    fn is_at_most(&self, other: &Segment) -> (r: bool) {
        self.at <= other.at
    }
}

/// A copy of a list of segments.
pub fn copy_segments(v: &Vec<Segment>) -> (r: Vec<Segment>)
    ensures
        r@ == v@,
{
    let mut out: Vec<Segment> = Vec::new();
    let mut i: usize = 0;
    while i < v.len()
        invariant
            i <= v@.len(),
            out@ == v@.take(i as int),
        decreases v@.len() - i,
    {
        out.push(v[i].clone());
        assert(v@.take(i + 1) == v@.take(i as int).push(v@[i as int]));
        i += 1;
    }
    assert(v@.take(i as int) == v@);
    out
}

} // verus!
