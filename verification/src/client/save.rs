//! Laying out transcripts, and naming the files they go in.
//!
//! One implementation for every front-end, so a transcript saved from the
//! command line and one saved from a window are byte-identical.

use crate::audio::source::candidate;
use crate::client::segment::{segment_views, Segment, SegmentView};
use crate::paths::{self, extension_of, file_name_of, join_of, parent_of, stem_of};
use crate::platform::Platform;
use crate::text::{
    self, ascii_lower, decimal, is_blank, is_digit, is_lower, is_upper, joined, opt_view, texts, trim_of, trim_start_of, two_digits,
};
use vstd::prelude::*;

verus! {

/// How a saved transcript is laid out.
#[derive(Debug, Clone, Copy, PartialEq, Eq, Structural)]
pub enum Format {
    /// Continuous prose. What you want if the transcript is the point.
    Plain,
    /// Each fragment prefixed with its time, `[MM:SS]`. What you want when the
    /// transcript is an index into a recording.
    Timestamped,
    /// Time and source on each line. What you want for several sources
    /// transcribed separately, where who said it matters as much as when.
    Labelled,
}

impl Default for Format {
    fn default() -> (r: Format)
        ensures
            r == Format::Plain,
    {
        Format::Plain
    }
}

impl Format {
    pub const ALL: [Format; 3] = [Format::Plain, Format::Timestamped, Format::Labelled];

    pub open spec fn label_of(self) -> Seq<char> {
        match self {
            Format::Plain => "Plain"@,
            Format::Timestamped => "Timestamped"@,
            Format::Labelled => "Timestamped + source"@,
        }
    }

    pub fn label(self) -> (r: &'static str)
        ensures
            r@ == self.label_of(),
    {
        match self {
            Format::Plain => "Plain",
            Format::Timestamped => "Timestamped",
            Format::Labelled => "Timestamped + source",
        }
    }

    pub open spec fn name_of(self) -> Seq<char> {
        match self {
            Format::Plain => "plain"@,
            Format::Timestamped => "timestamped"@,
            Format::Labelled => "labelled"@,
        }
    }

    /// The value as written in the config file.
    pub fn name(self) -> (r: &'static str)
        ensures
            r@ == self.name_of(),
    {
        match self {
            Format::Plain => "plain",
            Format::Timestamped => "timestamped",
            Format::Labelled => "labelled",
        }
    }

    /// The format a config file names: the one whose name it is.
    pub fn named(s: &str) -> (r: Option<Format>)
        ensures
            forall|f: Format| r == Some(f) <==> #[trigger] f.name_of() == s@,
    {
        let r = if text::same(s, "plain") {
            Some(Format::Plain)
        } else if text::same(s, "timestamped") {
            Some(Format::Timestamped)
        } else if text::same(s, "labelled") {
            Some(Format::Labelled)
        } else {
            None
        };
        proof {
            lemma_format_names_differ();
            assert(r matches Some(f) ==> f.name_of() == s@);
            assert forall|f: Format| r == Some(f) <==> #[trigger] f.name_of() == s@ by {
                if r is None {
                    assert(f.name_of() != s@);
                }
            }
        }
        r
    }

    pub open spec fn summary_of(self) -> Seq<char> {
        match self {
            Format::Plain => "continuous prose. For when the words are the point"@,
            Format::Timestamped => "each line prefixed [MM:SS]. An index into a recording"@,
            Format::Labelled => "time and source per line. For several sources at once"@,
        }
    }

    /// One line for the generated config.
    pub fn summary(self) -> (r: &'static str)
        ensures
            r@ == self.summary_of(),
    {
        match self {
            Format::Plain => "continuous prose. For when the words are the point",
            Format::Timestamped => "each line prefixed [MM:SS]. An index into a recording",
            Format::Labelled => "time and source per line. For several sources at once",
        }
    }
}

/// How long a silence, in nanoseconds, finishes a stamped line.
///
/// The model emits a fragment roughly every 560 ms while speech continues, so
/// anything much longer than that is a real pause rather than a chunk boundary.
pub const NEW_LINE_AFTER_SILENCE: i64 = 1_500_000_000;

/// Whole seconds into a session; a moment before it counts as its start.
pub open spec fn whole_seconds(at: i64) -> nat {
    if at > 0 {
        (at as int / 1_000_000_000) as nat
    } else {
        0
    }
}

/// `[MM:SS]`, or `[HH:MM:SS]` past an hour.
pub open spec fn stamp_of(at: i64) -> Seq<char> {
    let total = whole_seconds(at);
    let h = total / 3600;
    let m = (total % 3600) / 60;
    let s = total % 60;
    if h > 0 {
        "["@ + two_digits(h) + ":"@ + two_digits(m) + ":"@ + two_digits(s) + "]"@
    } else {
        "["@ + two_digits(m) + ":"@ + two_digits(s) + "]"@
    }
}

/// Format a time as `[MM:SS]`, or `[HH:MM:SS]` past an hour.
///
/// Hours are only shown when needed: prefixing every line of a two-minute note
/// with `00:` is noise.
pub fn stamp(at: i64) -> (r: String)
    ensures
        r@ == stamp_of(at),
{
    let total: u64 = if at > 0 {
        (at / 1_000_000_000) as u64
    } else {
        0
    };
    let h: u64 = total / 3600;
    let m = text::two_digit_text((total % 3600) / 60);
    let s = text::two_digit_text(total % 60);
    let mut out = "[".to_owned();
    if h > 0 {
        let hh = text::two_digit_text(h);
        out.append(hh.as_str());
        out.append(":");
    }
    out.append(m.as_str());
    out.append(":");
    out.append(s.as_str());
    out.append("]");
    out
}

// ---------------------------------------------------------------------------
// Turns
// ---------------------------------------------------------------------------

/// The speaker last named by the current source, if it has named one.
pub open spec fn known_speaker(s: Seq<SegmentView>) -> Option<u32>
    decreases s.len(),
{
    if s.len() == 0 {
        None
    } else if s.last().speaker is Some {
        s.last().speaker
    } else if s.len() > 1 && s[s.len() - 2].source == s.last().source {
        known_speaker(s.drop_last())
    } else {
        None
    }
}

/// Whether `next` opens a turn after `before`: a change of source always does,
/// and so does a speaker other than the one last named.
pub open spec fn opens_turn(before: Seq<SegmentView>, next: SegmentView) -> bool {
    before.len() == 0 || before.last().source != next.source || (next.speaker is Some
        && next.speaker != known_speaker(before))
}

/// A run of segments by one speaker of one source.
pub struct TurnView {
    pub speaker: Option<u32>,
    pub segments: Seq<SegmentView>,
}

pub open spec fn extended(t: Seq<TurnView>, next: SegmentView) -> Seq<TurnView> {
    t.drop_last().push(
        TurnView { speaker: t.last().speaker, segments: t.last().segments.push(next) },
    )
}

/// Segments grouped into turns.
pub open spec fn turns_of(s: Seq<SegmentView>) -> Seq<TurnView>
    decreases s.len(),
{
    if s.len() == 0 {
        Seq::empty()
    } else {
        let t = turns_of(s.drop_last());
        let next = s.last();
        if opens_turn(s.drop_last(), next) {
            t.push(TurnView { speaker: next.speaker, segments: seq![next] })
        } else {
            extended(t, next)
        }
    }
}

pub open spec fn turn_view(t: (Option<u32>, Vec<Segment>)) -> TurnView {
    TurnView { speaker: t.0, segments: segment_views(t.1@) }
}

pub open spec fn turn_views(v: Seq<(Option<u32>, Vec<Segment>)>) -> Seq<TurnView> {
    v.map_values(|t: (Option<u32>, Vec<Segment>)| turn_view(t))
}

/// The segments of a list of turns, one after another.
pub open spec fn spoken(t: Seq<TurnView>) -> Seq<SegmentView>
    decreases t.len(),
{
    if t.len() == 0 {
        Seq::empty()
    } else {
        spoken(t.drop_last()) + t.last().segments
    }
}

/// Grouping into turns loses nothing and reorders nothing: the turns, one after
/// another, are the segments.
pub proof fn lemma_turns_keep_everything(s: Seq<SegmentView>)
    ensures
        spoken(turns_of(s)) == s,
        s.len() > 0 <==> turns_of(s).len() > 0,
        forall|i: int|
            0 <= i < turns_of(s).len() ==> (#[trigger] turns_of(s)[i]).segments.len() > 0,
        s.len() > 0 ==> turns_of(s).last().segments.last() == s.last(),
    decreases s.len(),
{
    if s.len() > 0 {
        let d = s.drop_last();
        lemma_turns_keep_everything(d);
        let t = turns_of(d);
        let next = s.last();
        let u = turns_of(s);
        assert(s == d.push(next));
        if opens_turn(d, next) {
            assert(u.drop_last() == t);
            assert(spoken(u) == spoken(t) + seq![next]);
            assert(spoken(t) + seq![next] == d.push(next));
            assert forall|i: int| 0 <= i < u.len() implies (#[trigger] u[i]).segments.len()
                > 0 by {
                if i < t.len() {
                    assert(u[i] == t[i]);
                }
            }
        } else {
            assert(u.drop_last() == t.drop_last());
            assert(u.last().segments == t.last().segments.push(next));
            assert(spoken(t) == spoken(t.drop_last()) + t.last().segments);
            assert(spoken(u) == spoken(t.drop_last()) + t.last().segments.push(next));
            assert(spoken(u) == spoken(t).push(next));
            assert forall|i: int| 0 <= i < u.len() implies (#[trigger] u[i]).segments.len()
                > 0 by {
                if i < t.len() - 1 {
                    assert(u[i] == t[i]);
                }
            }
        }
    } else {
        assert(spoken(turns_of(s)) == s);
    }
}

/// Whether one segment of a turn may follow another in it.
pub open spec fn one_voice(t: TurnView) -> bool {
    &&& forall|i: int|
        0 <= i < t.segments.len() ==> (#[trigger] t.segments[i]).source == t.segments[0].source
    &&& forall|i: int|
        0 <= i < t.segments.len() ==> (#[trigger] t.segments[i]).speaker is None
            || t.segments[i].speaker == t.speaker
}

pub proof fn lemma_turn_speaker(s: Seq<SegmentView>)
    ensures
        forall|i: int| 0 <= i < turns_of(s).len() ==> one_voice(#[trigger] turns_of(s)[i]),
        s.len() > 0 ==> known_speaker(s) == turns_of(s).last().speaker,
        s.len() > 0 ==> turns_of(s).last().segments[0].source == s.last().source,
    decreases s.len(),
{
    if s.len() > 0 {
        let d = s.drop_last();
        lemma_turn_speaker(d);
        lemma_turns_keep_everything(d);
        let t = turns_of(d);
        let next = s.last();
        let u = turns_of(s);
        if opens_turn(d, next) {
            assert forall|i: int| 0 <= i < u.len() implies one_voice(#[trigger] u[i]) by {
                if i < t.len() {
                    assert(u[i] == t[i]);
                }
            }
            if next.speaker is None && s.len() > 1 {
                assert(s[s.len() - 2] == d.last());
                assert(d.last().source != next.source);
            }
        } else {
            assert(s[s.len() - 2] == d.last());
            let last = t.last();
            assert(one_voice(t[t.len() - 1]));
            let grown = u.last();
            assert(grown.segments == last.segments.push(next));
            assert(one_voice(grown)) by {
                assert forall|i: int| 0 <= i < grown.segments.len() implies (
                #[trigger] grown.segments[i]).source == grown.segments[0].source by {
                    if i < last.segments.len() {
                        assert(grown.segments[i] == last.segments[i]);
                    }
                    assert(grown.segments[0] == last.segments[0]);
                }
                assert forall|i: int| 0 <= i < grown.segments.len() implies (
                #[trigger] grown.segments[i]).speaker is None || grown.segments[i].speaker
                    == grown.speaker by {
                    if i < last.segments.len() {
                        assert(grown.segments[i] == last.segments[i]);
                    }
                }
            }
            assert(grown.segments[0] == last.segments[0]);
            assert forall|i: int| 0 <= i < u.len() implies one_voice(#[trigger] u[i]) by {
                if i < t.len() - 1 {
                    assert(u[i] == t[i]);
                }
            }
        }
    }
}

/// No turn ever mixes two sources or two speakers.
pub proof fn lemma_turns_never_mix(s: Seq<SegmentView>, i: int)
    requires
        0 <= i < turns_of(s).len(),
    ensures
        one_voice(turns_of(s)[i]),
{
    lemma_turn_speaker(s);
}

/// Group segments into turns: a maximal run of one source whose speaker
/// matches the last labelled one. An unlabelled segment attaches to the turn
/// already open rather than starting a fresh one -- usually it is a short
/// connective fragment the diarizer could not call.
///
/// A change of source always opens a turn, whatever the labels say. Speaker
/// numbers are only meaningful within one session, and separate mode runs a
/// session per source, so two sources' "Speaker 1" are two different people.
pub fn turns(segments: &[Segment]) -> (r: Vec<(Option<u32>, Vec<Segment>)>)
    ensures
        turn_views(r@) == turns_of(segment_views(segments@)),
{
    let ghost all = segment_views(segments@);
    let mut done: Vec<(Option<u32>, Vec<Segment>)> = Vec::new();
    let mut open_speaker: Option<u32> = None;
    let mut open: Vec<Segment> = Vec::new();
    let mut last_speaker: Option<u32> = None;
    let mut i: usize = 0;
    assert(all.take(0) == Seq::<SegmentView>::empty());
    while i < segments.len()
        invariant
            i <= segments@.len(),
            all == segment_views(segments@),
            i == 0 ==> turn_views(done@) == turns_of(all.take(0)),
            i > 0 ==> turn_views(done@).push(
                TurnView { speaker: open_speaker, segments: segment_views(open@) },
            ) == turns_of(all.take(i as int)),
            last_speaker == known_speaker(all.take(i as int)),
        decreases segments@.len() - i,
    {
        let ghost before = all.take(i as int);
        let ghost next = all[i as int];
        let ghost after = all.take(i + 1);
        assert(after.drop_last() == before);
        assert(after.last() == next);
        assert(i > 0 ==> before.last() == all[i - 1]);
        assert(i > 0 ==> after[after.len() - 2] == before.last());
        let source_changed: bool = i > 0 && !text::same_opt(
            &segments[i - 1].source,
            &segments[i].source,
        );
        let named: bool = segments[i].speaker.is_some();
        let opens: bool = i == 0 || source_changed || (named && segments[i].speaker
            != last_speaker);
        assert(opens == opens_turn(before, next));
        if opens {
            if i > 0 {
                let ghost was = done@;
                let ghost closed = (open_speaker, open);
                done.push((open_speaker, open));
                assert(turn_views(done@) == turn_views(was).push(turn_view(closed)));
            }
            open = Vec::new();
            open_speaker = segments[i].speaker;
        }
        let ghost was_open = open@;
        open.push(segments[i].clone());
        assert(segment_views(open@) == segment_views(was_open).push(next));
        proof {
            if opens {
                assert(segment_views(was_open) == Seq::<SegmentView>::empty());
                assert(segment_views(open@) == seq![next]);
            } else {
                let t = turns_of(before);
                assert(t.drop_last() == turn_views(done@));
            }
        }
        if named {
            last_speaker = segments[i].speaker;
        } else if source_changed {
            last_speaker = None;
        }
        i += 1;
    }
    assert(all.take(i as int) == all);
    if i > 0 {
        let ghost was = done@;
        let ghost closed = (open_speaker, open);
        done.push((open_speaker, open));
        assert(turn_views(done@) == turn_views(was).push(turn_view(closed)));
    }
    done
}

/// The texts of a run of segments, one after another.
pub open spec fn prose(s: Seq<SegmentView>) -> Seq<char>
    decreases s.len(),
{
    if s.len() == 0 {
        Seq::empty()
    } else {
        prose(s.drop_last()) + s.last().text
    }
}

fn prose_text(v: &Vec<Segment>) -> (r: String)
    ensures
        r@ == prose(segment_views(v@)),
{
    let ghost all = segment_views(v@);
    let mut out = String::new();
    let mut i: usize = 0;
    assert(all.take(0) == Seq::<SegmentView>::empty());
    while i < v.len()
        invariant
            i <= v@.len(),
            all == segment_views(v@),
            out@ == prose(all.take(i as int)),
        decreases v@.len() - i,
    {
        assert(all.take(i + 1).drop_last() == all.take(i as int));
        out.append(v[i].text.as_str());
        i += 1;
    }
    assert(all.take(i as int) == all);
    out
}

/// A speaker, and what the speaker said in one turn.
pub open spec fn turn_text_views(v: Seq<(Option<u32>, String)>) -> Seq<(Option<u32>, Seq<char>)> {
    v.map_values(|t: (Option<u32>, String)| (t.0, t.1@))
}

pub open spec fn turn_texts_of(s: Seq<SegmentView>) -> Seq<(Option<u32>, Seq<char>)> {
    turns_of(s).map_values(|t: TurnView| (t.speaker, prose(t.segments)))
}

/// Turns as `(speaker, concatenated text)` pairs -- for a caller that wants
/// each turn's prose and nothing else.
pub fn turn_texts(segments: &[Segment]) -> (r: Vec<(Option<u32>, String)>)
    ensures
        turn_text_views(r@) == turn_texts_of(segment_views(segments@)),
{
    let t = turns(segments);
    let mut out: Vec<(Option<u32>, String)> = Vec::new();
    let mut i: usize = 0;
    while i < t.len()
        invariant
            i <= t@.len(),
            out@.len() == i,
            forall|j: int|
                0 <= j < i ==> (#[trigger] out@[j]).0 == t@[j].0 && out@[j].1@ == prose(
                    segment_views(t@[j].1@),
                ),
        decreases t@.len() - i,
    {
        let p = prose_text(&t[i].1);
        out.push((t[i].0, p));
        i += 1;
    }
    assert(turn_text_views(out@) =~= turn_texts_of(segment_views(segments@)));
    out
}

// ---------------------------------------------------------------------------
// Rendering
// ---------------------------------------------------------------------------

/// `Speaker N: `, or nothing while nobody has been named.
pub open spec fn speaker_prefix(speaker: Option<u32>) -> Seq<char> {
    match speaker {
        Some(n) => "Speaker "@ + decimal(n as nat) + ": "@,
        None => Seq::empty(),
    }
}

pub fn speaker_text(speaker: Option<u32>) -> (r: String)
    ensures
        r@ == speaker_prefix(speaker),
{
    match speaker {
        Some(n) => {
            let mut s = "Speaker ".to_owned();
            let d = text::decimal_text(n as u64);
            s.append(d.as_str());
            s.append(": ");
            s
        },
        None => String::new(),
    }
}

/// `[source] `, in the one layout that names sources.
pub open spec fn source_prefix(source: Option<Seq<char>>, format: Format) -> Seq<char> {
    match (format, source) {
        (Format::Labelled, Some(src)) => "["@ + src + "] "@,
        _ => Seq::empty(),
    }
}

pub fn source_text(source: &Option<String>, format: Format) -> (r: String)
    ensures
        r@ == source_prefix(opt_view(*source), format),
{
    match (format, source) {
        (Format::Labelled, Some(src)) => {
            let mut s = "[".to_owned();
            s.append(src.as_str());
            s.append("] ");
            s
        },
        _ => String::new(),
    }
}

/// The segments with something in them.
pub open spec fn audible(s: Seq<SegmentView>) -> Seq<SegmentView>
    decreases s.len(),
{
    if s.len() == 0 {
        Seq::empty()
    } else if is_blank(s.last().text) {
        audible(s.drop_last())
    } else {
        audible(s.drop_last()).push(s.last())
    }
}

/// A line holding one segment on its own.
pub open spec fn flat_line(s: SegmentView, format: Format) -> Seq<char> {
    stamp_of(s.at) + " "@ + source_prefix(s.source, format) + trim_of(s.text)
}

/// One line per segment, however close in time two of them are.
pub open spec fn flat(s: Seq<SegmentView>, format: Format) -> Seq<char> {
    joined(audible(s).map_values(|x: SegmentView| flat_line(x, format)), "\n"@)
}

/// Whether a segment starts a new line after the one before it in its turn.
pub open spec fn breaks_line(prev: SegmentView, next: SegmentView, format: Format) -> bool {
    (format == Format::Labelled && prev.source != next.source) || next.at - prev.at
        >= NEW_LINE_AFTER_SILENCE
}

/// A turn's segments split into lines.
pub open spec fn lines_of(s: Seq<SegmentView>, format: Format) -> Seq<Seq<SegmentView>>
    decreases s.len(),
{
    if s.len() == 0 {
        Seq::empty()
    } else {
        let l = lines_of(s.drop_last(), format);
        if s.len() == 1 || breaks_line(s[s.len() - 2], s.last(), format) {
            l.push(seq![s.last()])
        } else {
            l.drop_last().push(l.last().push(s.last()))
        }
    }
}

/// The text of a line: the spacing between fragments is kept, and only the
/// outer edges are trimmed -- the end only where the line is one fragment.
pub open spec fn line_text(line: Seq<SegmentView>) -> Seq<char> {
    if line.len() == 1 {
        trim_of(line[0].text)
    } else {
        trim_start_of(line[0].text) + prose(line.skip(1))
    }
}

/// What opens a line: its time, its source where the layout names sources, and
/// whose turn it belongs to.
pub open spec fn line_prefix(first: SegmentView, speaker: Option<u32>, format: Format) -> Seq<
    char,
> {
    stamp_of(first.at) + " "@ + source_prefix(first.source, format) + speaker_prefix(speaker)
}

pub open spec fn rendered_line(
    line: Seq<SegmentView>,
    speaker: Option<u32>,
    format: Format,
) -> Seq<char> {
    line_prefix(line[0], speaker, format) + line_text(line)
}

/// The lines one turn is rendered as.
pub open spec fn turn_lines(t: TurnView, format: Format) -> Seq<Seq<char>> {
    lines_of(t.segments, format).map_values(
        |l: Seq<SegmentView>| rendered_line(l, t.speaker, format),
    )
}

/// The lines of a list of turns.
pub open spec fn all_lines(t: Seq<TurnView>, format: Format) -> Seq<Seq<char>>
    decreases t.len(),
{
    if t.len() == 0 {
        Seq::empty()
    } else {
        all_lines(t.drop_last(), format) + turn_lines(t.last(), format)
    }
}

/// The layout of a transcript in which somebody has been named: one line per
/// turn, split further on a silence.
pub open spec fn stamped(s: Seq<SegmentView>, format: Format) -> Seq<char> {
    joined(all_lines(turns_of(audible(s)), format), "\n"@)
}

/// Whether anybody has been named.
pub open spec fn has_speaker(s: Seq<SegmentView>) -> bool {
    exists|i: int| 0 <= i < s.len() && (#[trigger] s[i]).speaker is Some
}

pub open spec fn paragraph(t: TurnView) -> Seq<char> {
    speaker_prefix(t.speaker) + prose(t.segments)
}

/// A transcript in the requested layout.
pub open spec fn rendered(s: Seq<SegmentView>, fallback: Seq<char>, format: Format) -> Seq<char> {
    if format == Format::Plain {
        if s.len() == 0 {
            trim_of(fallback)
        } else {
            trim_of(joined(turns_of(s).map_values(|t: TurnView| paragraph(t)), "\n"@))
        }
    } else if has_speaker(s) {
        stamped(s, format)
    } else {
        flat(s, format)
    }
}

fn any_speaker(segments: &[Segment]) -> (r: bool)
    ensures
        r == has_speaker(segment_views(segments@)),
{
    let ghost all = segment_views(segments@);
    let mut i: usize = 0;
    while i < segments.len()
        invariant
            i <= segments@.len(),
            all == segment_views(segments@),
            forall|j: int| 0 <= j < i ==> (#[trigger] all[j]).speaker is None,
        decreases segments@.len() - i,
    {
        assert(all[i as int].speaker == segments@[i as int].speaker);
        if segments[i].speaker.is_some() {
            return true;
        }
        i += 1;
    }
    false
}

/// One line per segment, regardless of how close in time two fragments are.
fn render_stamped_flat(segments: &[Segment], format: Format) -> (r: String)
    ensures
        r@ == flat(segment_views(segments@), format),
{
    let ghost all = segment_views(segments@);
    let ghost f = |x: SegmentView| flat_line(x, format);
    let mut lines: Vec<String> = Vec::new();
    let mut i: usize = 0;
    assert(texts(lines@) == audible(all.take(0)).map_values(f));
    while i < segments.len()
        invariant
            i <= segments@.len(),
            all == segment_views(segments@),
            f == (|x: SegmentView| flat_line(x, format)),
            texts(lines@) == audible(all.take(i as int)).map_values(f),
        decreases segments@.len() - i,
    {
        assert(all.take(i + 1).drop_last() == all.take(i as int));
        assert(all.take(i + 1).last() == segments@[i as int]@);
        if !text::blank(segments[i].text.as_str()) {
            let mut line = stamp(segments[i].at);
            line.append(" ");
            let src = source_text(&segments[i].source, format);
            line.append(src.as_str());
            let t = text::trim(segments[i].text.as_str());
            line.append(t.as_str());
            let ghost was = lines@;
            let ghost l = line@;
            lines.push(line);
            proof {
                let before = audible(all.take(i as int));
                assert(texts(lines@) == texts(was).push(l));
                assert(before.push(segments@[i as int]@).map_values(f) == before.map_values(
                    f,
                ).push(f(segments@[i as int]@)));
            }
        }
        i += 1;
    }
    assert(all.take(i as int) == all);
    text::join(&lines, "\n")
}

pub open spec fn line_views(v: Seq<Vec<Segment>>) -> Seq<Seq<SegmentView>> {
    v.map_values(|l: Vec<Segment>| segment_views(l@))
}

/// Split one turn's segments into physical lines on a silence gap or, for
/// `Labelled`, a source change. Every line belongs to the same turn, and so
/// to the same speaker.
fn lines_in_turn(segs: &Vec<Segment>, format: Format) -> (r: Vec<Vec<Segment>>)
    ensures
        line_views(r@) == lines_of(segment_views(segs@), format),
{
    let ghost all = segment_views(segs@);
    let mut done: Vec<Vec<Segment>> = Vec::new();
    let mut open: Vec<Segment> = Vec::new();
    let mut i: usize = 0;
    assert(line_views(done@) == lines_of(all.take(0), format));
    while i < segs.len()
        invariant
            i <= segs@.len(),
            all == segment_views(segs@),
            i == 0 ==> line_views(done@) == lines_of(all.take(0), format) && open@.len() == 0,
            i > 0 ==> line_views(done@).push(segment_views(open@)) == lines_of(
                all.take(i as int),
                format,
            ),
        decreases segs@.len() - i,
    {
        let ghost before = all.take(i as int);
        let ghost after = all.take(i + 1);
        let ghost next = all[i as int];
        assert(after.drop_last() == before);
        assert(after.last() == next);
        let breaks: bool = i > 0 && ((format == Format::Labelled && !text::same_opt(
            &segs[i - 1].source,
            &segs[i].source,
        )) || segs[i].at as i128 - segs[i - 1].at as i128 >= NEW_LINE_AFTER_SILENCE as i128);
        assert(i > 0 ==> after[after.len() - 2] == all[i - 1]);
        if breaks {
            let ghost was = done@;
            let ghost closed = open;
            done.push(open);
            assert(line_views(done@) == line_views(was).push(segment_views(closed@)));
            open = Vec::new();
        }
        let ghost was_open = open@;
        open.push(segs[i].clone());
        assert(segment_views(open@) == segment_views(was_open).push(next));
        proof {
            if breaks || i == 0 {
                assert(segment_views(open@) == seq![next]);
            } else {
                assert(lines_of(before, format).drop_last() == line_views(done@));
            }
        }
        i += 1;
    }
    assert(all.take(i as int) == all);
    if i > 0 {
        let ghost was = done@;
        let ghost closed = open;
        done.push(open);
        assert(line_views(done@) == line_views(was).push(segment_views(closed@)));
    }
    done
}

/// One rendered line.
fn render_line(segs: &Vec<Segment>, speaker: Option<u32>, format: Format) -> (r: String)
    requires
        segs@.len() > 0,
    ensures
        r@ == rendered_line(segment_views(segs@), speaker, format),
{
    let ghost all = segment_views(segs@);
    let mut out = stamp(segs[0].at);
    out.append(" ");
    let src = source_text(&segs[0].source, format);
    out.append(src.as_str());
    let who = speaker_text(speaker);
    out.append(who.as_str());
    assert(out@ == line_prefix(all[0], speaker, format));
    if segs.len() == 1 {
        let t = text::trim(segs[0].text.as_str());
        out.append(t.as_str());
        return out;
    }
    let t = text::trim_start(segs[0].text.as_str());
    out.append(t.as_str());
    let ghost opening = out@;
    let ghost rest = all.skip(1);
    let mut i: usize = 1;
    assert(rest.take(0) == Seq::<SegmentView>::empty());
    assert(opening + prose(rest.take(0)) == opening);
    while i < segs.len()
        invariant
            1 <= i <= segs@.len(),
            all == segment_views(segs@),
            rest == all.skip(1),
            out@ == opening + prose(rest.take(i - 1)),
        decreases segs@.len() - i,
    {
        assert(rest.take(i as int).drop_last() == rest.take(i - 1));
        assert(rest.take(i as int).last() == segs@[i as int]@);
        out.append(segs[i].text.as_str());
        assert(opening + prose(rest.take(i as int)) == opening + prose(rest.take(i - 1))
            + segs@[i as int]@.text);
        i += 1;
    }
    assert(rest.take(i - 1) == rest);
    assert(out@ == rendered_line(all, speaker, format));
    out
}

fn audible_segments(segments: &[Segment]) -> (r: Vec<Segment>)
    ensures
        segment_views(r@) == audible(segment_views(segments@)),
{
    let ghost all = segment_views(segments@);
    let mut out: Vec<Segment> = Vec::new();
    let mut i: usize = 0;
    assert(segment_views(out@) == audible(all.take(0)));
    while i < segments.len()
        invariant
            i <= segments@.len(),
            all == segment_views(segments@),
            segment_views(out@) == audible(all.take(i as int)),
        decreases segments@.len() - i,
    {
        assert(all.take(i + 1).drop_last() == all.take(i as int));
        assert(all.take(i + 1).last() == segments@[i as int]@);
        if !text::blank(segments[i].text.as_str()) {
            let ghost was = out@;
            out.push(segments[i].clone());
            assert(segment_views(out@) == segment_views(was).push(segments@[i as int]@));
        }
        i += 1;
    }
    assert(all.take(i as int) == all);
    out
}

pub proof fn lemma_lines_nonempty(s: Seq<SegmentView>, format: Format)
    ensures
        s.len() > 0 <==> lines_of(s, format).len() > 0,
        forall|i: int|
            0 <= i < lines_of(s, format).len() ==> (#[trigger] lines_of(s, format)[i]).len() > 0,
        s.len() > 0 ==> lines_of(s, format).last().last() == s.last(),
    decreases s.len(),
{
    if s.len() > 0 {
        let d = s.drop_last();
        lemma_lines_nonempty(d, format);
        let l = lines_of(d, format);
        let u = lines_of(s, format);
        assert forall|i: int| 0 <= i < u.len() implies (#[trigger] u[i]).len() > 0 by {
            if i < l.len() - 1 {
                assert(u[i] == l[i]);
            } else if i < l.len() && u.len() > l.len() {
                assert(u[i] == l[i]);
            }
        }
    }
}

/// Render `Timestamped` or `Labelled` once a label is present: one line per
/// turn, split further on a silence gap -- the same rule a streamed file is
/// written by. Every line names the speaker whose turn it belongs to,
/// including one merely reopened after a pause: something reading the file
/// back has only the line in front of it.
fn render_stamped(segments: &[Segment], format: Format) -> (r: String)
    ensures
        r@ == stamped(segment_views(segments@), format),
{
    let filtered = audible_segments(segments);
    let t = turns(filtered.as_slice());
    let ghost all = turn_views(t@);
    let mut lines: Vec<String> = Vec::new();
    let mut i: usize = 0;
    assert(texts(lines@) == all_lines(all.take(0), format));
    while i < t.len()
        invariant
            i <= t@.len(),
            all == turn_views(t@),
            texts(lines@) == all_lines(all.take(i as int), format),
        decreases t@.len() - i,
    {
        assert(all.take(i + 1).drop_last() == all.take(i as int));
        let ghost turn = all[i as int];
        assert(all.take(i + 1).last() == turn);
        let parts = lines_in_turn(&t[i].1, format);
        let ghost want = turn_lines(turn, format);
        let ghost before = texts(lines@);
        proof {
            lemma_lines_nonempty(turn.segments, format);
        }
        let mut j: usize = 0;
        assert(before + want.take(0) == before);
        while j < parts.len()
            invariant
                j <= parts@.len(),
                i < t@.len(),
                all == turn_views(t@),
                turn == all[i as int],
                line_views(parts@) == lines_of(turn.segments, format),
                want == turn_lines(turn, format),
                forall|k: int|
                    0 <= k < lines_of(turn.segments, format).len() ==> (#[trigger] lines_of(
                        turn.segments,
                        format,
                    )[k]).len() > 0,
                texts(lines@) == before + want.take(j as int),
            decreases parts@.len() - j,
        {
            assert(line_views(parts@)[j as int] == segment_views(parts@[j as int]@));
            let line = render_line(&parts[j], t[i].0, format);
            let ghost was = lines@;
            let ghost l = line@;
            lines.push(line);
            assert(texts(lines@) == texts(was).push(l));
            assert(want[j as int] == l);
            assert(before + want.take(j + 1) == (before + want.take(j as int)).push(l));
            j += 1;
        }
        assert(want.take(j as int) == want);
        i += 1;
    }
    assert(all.take(i as int) == all);
    text::join(&lines, "\n")
}

/// Render segments in the requested format.
pub fn render(segments: &[Segment], fallback: &str, format: Format) -> (r: String)
    ensures
        r@ == rendered(segment_views(segments@), fallback@, format),
{
    if format == Format::Plain {
        if segments.len() == 0 {
            return text::trim(fallback);
        }
        let t = turns(segments);
        let ghost want = turns_of(segment_views(segments@)).map_values(|t: TurnView| paragraph(t));
        let mut paragraphs: Vec<String> = Vec::new();
        let mut i: usize = 0;
        while i < t.len()
            invariant
                i <= t@.len(),
                turn_views(t@) == turns_of(segment_views(segments@)),
                want == turns_of(segment_views(segments@)).map_values(|t: TurnView| paragraph(t)),
                texts(paragraphs@) == want.take(i as int),
            decreases t@.len() - i,
        {
            assert(turn_views(t@)[i as int] == turn_view(t@[i as int]));
            let mut p = speaker_text(t[i].0);
            let words = prose_text(&t[i].1);
            p.append(words.as_str());
            let ghost was = paragraphs@;
            let ghost l = p@;
            paragraphs.push(p);
            assert(texts(paragraphs@) == texts(was).push(l));
            assert(want.take(i + 1) == want.take(i as int).push(l));
            i += 1;
        }
        assert(want.take(i as int) == want);
        let body = text::join(&paragraphs, "\n");
        return text::trim(body.as_str());
    }
    if any_speaker(segments) {
        render_stamped(segments, format)
    } else {
        render_stamped_flat(segments, format)
    }
}

// ---------------------------------------------------------------------------
// Sources and files
// ---------------------------------------------------------------------------

/// The name a segment's source is filed under.
pub open spec fn source_key(s: SegmentView) -> Seq<char> {
    match s.source {
        Some(n) => n,
        None => "transcript"@,
    }
}

/// Every source heard, in the order they were first heard.
pub open spec fn source_keys(s: Seq<SegmentView>) -> Seq<Seq<char>>
    decreases s.len(),
{
    if s.len() == 0 {
        Seq::empty()
    } else {
        let k = source_keys(s.drop_last());
        if k.contains(source_key(s.last())) {
            k
        } else {
            k.push(source_key(s.last()))
        }
    }
}

/// What one source said.
pub open spec fn said_by(s: Seq<SegmentView>, key: Seq<char>) -> Seq<SegmentView> {
    s.filter(|x: SegmentView| source_key(x) == key)
}

pub open spec fn group_views(v: Seq<(String, Vec<Segment>)>) -> Seq<(Seq<char>, Seq<SegmentView>)> {
    v.map_values(|g: (String, Vec<Segment>)| (g.0@, segment_views(g.1@)))
}

/// Segments grouped by source, in the order the sources were first heard.
pub open spec fn grouped(s: Seq<SegmentView>) -> Seq<(Seq<char>, Seq<SegmentView>)> {
    source_keys(s).map_values(|k: Seq<char>| (k, said_by(s, k)))
}

proof fn lemma_unheard_source(s: Seq<SegmentView>, key: Seq<char>)
    ensures
        !source_keys(s).contains(key) ==> said_by(s, key).len() == 0,
    decreases s.len(),
{
    broadcast use vstd::seq::Seq::lemma_filter_push;

    reveal(Seq::filter);
    if s.len() > 0 {
        let d = s.drop_last();
        lemma_unheard_source(d, key);
        assert(s == d.push(s.last()));
        let k = source_keys(d);
        if !source_keys(s).contains(key) {
            if k.contains(key) {
                let i = choose|i: int| 0 <= i < k.len() && k[i] == key;
                assert(source_keys(s)[i] == key);
            }
            if source_key(s.last()) == key && !k.contains(key) {
                assert(source_keys(s)[k.len() as int] == key);
            }
        }
    }
}

/// The sources are named once each.
pub proof fn lemma_source_keys_distinct(s: Seq<SegmentView>)
    ensures
        source_keys(s).no_duplicates(),
    decreases s.len(),
{
    if s.len() > 0 {
        lemma_source_keys_distinct(s.drop_last());
    }
}

/// Every segment is filed under its own source, in order.
pub proof fn lemma_grouped_keeps_everything(s: Seq<SegmentView>, i: int)
    requires
        0 <= i < s.len(),
    ensures
        source_keys(s).contains(source_key(s[i])),
        said_by(s, source_key(s[i])).contains(s[i]),
    decreases s.len(),
{
    broadcast use vstd::seq::Seq::lemma_filter_push;

    let d = s.drop_last();
    let k = source_keys(d);
    let key = source_key(s[i]);
    assert(s == d.push(s.last()));
    if i < d.len() {
        lemma_grouped_keeps_everything(d, i);
        assert(d[i] == s[i]);
        let j = choose|j: int| 0 <= j < k.len() && k[j] == key;
        assert(source_keys(s)[j] == key);
        let a = said_by(d, key);
        let m = choose|m: int| 0 <= m < a.len() && a[m] == s[i];
        assert(said_by(s, key)[m] == s[i]);
    } else {
        if !k.contains(key) {
            assert(source_keys(s)[k.len() as int] == key);
        }
        assert(said_by(s, key) == said_by(d, key).push(s[i]));
        assert(said_by(s, key)[said_by(d, key).len() as int] == s[i]);
    }
}

fn group_of(groups: &Vec<(String, Vec<Segment>)>, key: &str) -> (r: Option<usize>)
    ensures
        match r {
            Some(k) => k < groups@.len() && groups@[k as int].0@ == key@,
            None => forall|j: int| 0 <= j < groups@.len() ==> (#[trigger] groups@[j]).0@ != key@,
        },
{
    let mut i: usize = 0;
    while i < groups.len()
        invariant
            i <= groups@.len(),
            forall|j: int| 0 <= j < i ==> (#[trigger] groups@[j]).0@ != key@,
        decreases groups@.len() - i,
    {
        if text::same(groups[i].0.as_str(), key) {
            return Some(i);
        }
        i += 1;
    }
    None
}

/// Split segments by source, in first-appearance order.
///
/// For saving each source to its own file. Order is by when a source was first
/// heard rather than alphabetical, so files follow the conversation.
pub fn by_source(segments: &[Segment]) -> (r: Vec<(String, Vec<Segment>)>)
    ensures
        group_views(r@) == grouped(segment_views(segments@)),
{
    let ghost all = segment_views(segments@);
    let mut groups: Vec<(String, Vec<Segment>)> = Vec::new();
    let mut i: usize = 0;
    assert(group_views(groups@) =~= grouped(all.take(0)));
    while i < segments.len()
        invariant
            i <= segments@.len(),
            all == segment_views(segments@),
            group_views(groups@) == grouped(all.take(i as int)),
        decreases segments@.len() - i,
    {
        let ghost before = all.take(i as int);
        let ghost after = all.take(i + 1);
        let ghost next = all[i as int];
        let ghost keys = source_keys(before);
        let ghost was = group_views(groups@);
        proof {
            assert(after.drop_last() == before);
            assert(after.last() == next);
            assert(after == before.push(next));
            lemma_source_keys_distinct(before);
            assert forall|k: Seq<char>| #[trigger] said_by(after, k) == (if source_key(next) == k {
                said_by(before, k).push(next)
            } else {
                said_by(before, k)
            }) by {
                before.lemma_filter_push(next, |x: SegmentView| source_key(x) == k);
            }
            assert(was.len() == keys.len());
            assert forall|j: int| 0 <= j < groups@.len() implies (#[trigger] groups@[j]).0@
                == keys[j] by {
                assert(was[j] == grouped(before)[j]);
            }
        }
        let key = match &segments[i].source {
            Some(n) => n.clone(),
            None => "transcript".to_owned(),
        };
        match group_of(&groups, key.as_str()) {
            Some(k) => {
                assert(keys[k as int] == key@);
                assert(keys.contains(key@));
                let ghost old_group = groups@[k as int].1@;
                groups[k].1.push(segments[i].clone());
                proof {
                    let now = group_views(groups@);
                    assert(segment_views(groups@[k as int].1@) == segment_views(old_group).push(
                        next,
                    ));
                    assert(now =~= grouped(after)) by {
                        assert forall|j: int| 0 <= j < now.len() implies now[j] == grouped(
                            after,
                        )[j] by {
                            assert(was[j] == grouped(before)[j]);
                            if j != k {
                                assert(keys[j] != keys[k as int]);
                            }
                        }
                    }
                }
            },
            None => {
                proof {
                    if keys.contains(key@) {
                        let j = choose|j: int| 0 <= j < keys.len() && keys[j] == key@;
                        assert(groups@[j].0@ == key@);
                    }
                    lemma_unheard_source(before, key@);
                }
                let ghost old_groups = groups@;
                let mut fresh: Vec<Segment> = Vec::new();
                fresh.push(segments[i].clone());
                assert(segment_views(fresh@) =~= seq![next]);
                let ghost g = (key, fresh);
                groups.push((key, fresh));
                proof {
                    let now = group_views(groups@);
                    assert(now == was.push((key@, seq![next])));
                    assert(said_by(before, key@) == Seq::<SegmentView>::empty());
                    assert(source_keys(after) == keys.push(key@));
                    assert(now =~= grouped(after)) by {
                        assert forall|j: int| 0 <= j < now.len() implies now[j] == grouped(
                            after,
                        )[j] by {
                            if j < was.len() {
                                assert(was[j] == grouped(before)[j]);
                                assert(keys[j] != key@);
                            }
                        }
                    }
                }
            },
        }
        i += 1;
    }
    assert(all.take(i as int) == all);
    groups
}

/// ASCII letters and digits, the only characters kept in a file's name.
pub open spec fn is_plain(c: char) -> bool {
    is_lower(c) || is_upper(c) || is_digit(c)
}

/// `s` in lower case with each run of other characters made one dash, and none
/// at the front.
pub open spec fn dashed(s: Seq<char>) -> Seq<char>
    decreases s.len(),
{
    if s.len() == 0 {
        Seq::empty()
    } else {
        let r = dashed(s.drop_last());
        if is_plain(s.last()) {
            r.push(ascii_lower(s.last()))
        } else if s.len() > 1 && is_plain(s[s.len() - 2]) {
            r.push('-')
        } else {
            r
        }
    }
}

/// `s` without the dashes at its end.
pub open spec fn undashed(s: Seq<char>) -> Seq<char>
    decreases s.len(),
{
    if s.len() > 0 && s.last() == '-' {
        undashed(s.drop_last())
    } else {
        s
    }
}

/// A source name as part of a file's name.
pub open spec fn slug_of(name: Seq<char>) -> Seq<char> {
    let s = undashed(dashed(name));
    s.take(if s.len() < 40 {
        s.len() as int
    } else {
        40
    })
}

/// Turn a source name into something safe to put in a filename.
pub fn slug(name: &str) -> (r: String)
    ensures
        r@ == slug_of(name@),
{
    let v = text::chars_of(name);
    let mut out: Vec<char> = Vec::new();
    let mut last_dash: bool = false;
    let mut i: usize = 0;
    assert(v@.take(0) == Seq::<char>::empty());
    while i < v.len()
        invariant
            v@ == name@,
            i <= v@.len(),
            out@ == dashed(v@.take(i as int)),
            last_dash == (i > 0 && !is_plain(v@[i - 1])),
            i > 0 && !last_dash ==> out@.len() > 0,
            out@.len() == 0 ==> i == 0 || last_dash,
        decreases v@.len() - i,
    {
        let c = v[i];
        assert(v@.take(i + 1).drop_last() == v@.take(i as int));
        assert(v@.take(i + 1).last() == c);
        assert(i > 0 ==> v@.take(i + 1)[i - 1] == v@[i - 1]);
        let keep: bool = ('a' <= c && c <= 'z') || ('A' <= c && c <= 'Z') || ('0' <= c && c
            <= '9');
        if keep {
            out.push(text::lower_char(c));
            last_dash = false;
        } else {
            if !last_dash && out.len() > 0 {
                out.push('-');
            }
            last_dash = true;
        }
        i += 1;
    }
    assert(v@.take(i as int) == v@);
    let mut e: usize = out.len();
    assert(out@.take(e as int) == out@);
    while e > 0 && out[e - 1] == '-'
        invariant
            e <= out@.len(),
            undashed(out@) == undashed(out@.take(e as int)),
        decreases e,
    {
        assert(out@.take(e as int).drop_last() == out@.take(e - 1));
        e -= 1;
    }
    assert(e > 0 ==> out@.take(e as int).last() == out@[e - 1]);
    let k: usize = if e < 40 {
        e
    } else {
        40
    };
    assert(out@.take(e as int).take(k as int) == out@.subrange(0, k as int));
    text::string_from(&out, 0, k)
}

/// A character that is safe in a file's name on every system.
pub open spec fn is_safe(c: char) -> bool {
    is_lower(c) || is_digit(c) || c == '-'
}

proof fn lemma_dashed(s: Seq<char>)
    ensures
        forall|i: int| 0 <= i < dashed(s).len() ==> is_safe(#[trigger] dashed(s)[i]),
        dashed(s).len() > 0 ==> dashed(s)[0] != '-',
        s.len() > 0 && is_plain(s.last()) ==> dashed(s).len() > 0 && dashed(s).last() != '-',
        forall|i: int|
            0 <= i < dashed(s).len() - 1 ==> !(#[trigger] dashed(s)[i] == '-' && dashed(s)[i + 1]
                == '-'),
        s.len() > 0 && !is_plain(s.last()) && dashed(s).len() > 0 ==> dashed(s).last() == '-',
    decreases s.len(),
{
    if s.len() > 0 {
        let d = s.drop_last();
        lemma_dashed(d);
        assert(s.len() > 1 ==> s[s.len() - 2] == d.last());
        let r = dashed(d);
        let u = dashed(s);
        assert forall|i: int| 0 <= i < u.len() implies is_safe(#[trigger] u[i]) by {
            if i < r.len() {
                assert(u[i] == r[i]);
            }
        }
        assert forall|i: int| 0 <= i < u.len() - 1 implies !(#[trigger] u[i] == '-' && u[i + 1]
            == '-') by {
            if i + 1 < r.len() {
                assert(u[i] == r[i]);
                assert(u[i + 1] == r[i + 1]);
            } else {
                assert(u[i] == r[i]);
            }
        }
    }
}

proof fn lemma_undashed(s: Seq<char>)
    ensures
        undashed(s).len() <= s.len(),
        undashed(s) == s.take(undashed(s).len() as int),
    decreases s.len(),
{
    if s.len() > 0 && s.last() == '-' {
        lemma_undashed(s.drop_last());
        assert(s.drop_last().take(undashed(s).len() as int) == s.take(undashed(s).len() as int));
    } else {
        assert(s.take(s.len() as int) == s);
    }
}

/// A slug is safe in a file's name on every system: at most 40 lower-case
/// letters, digits and dashes, not starting with a dash and never two in a row.
pub proof fn lemma_slug_is_safe(name: Seq<char>)
    ensures
        slug_of(name).len() <= 40,
        forall|i: int| 0 <= i < slug_of(name).len() ==> is_safe(#[trigger] slug_of(name)[i]),
        slug_of(name).len() > 0 ==> slug_of(name)[0] != '-',
        forall|i: int|
            0 <= i < slug_of(name).len() - 1 ==> !(#[trigger] slug_of(name)[i] == '-' && slug_of(
                name,
            )[i + 1] == '-'),
{
    lemma_dashed(name);
    let d = dashed(name);
    lemma_undashed(d);
    let s = slug_of(name);
    assert forall|i: int| 0 <= i < s.len() implies s[i] == d[i] by {}
    assert forall|i: int| 0 <= i < s.len() - 1 implies !(#[trigger] s[i] == '-' && s[i + 1]
        == '-') by {
        assert(s[i] == d[i]);
        assert(s[i + 1] == d[i + 1]);
    }
}

/// Where one source's half of `base` goes.
pub open spec fn source_path(base: Seq<char>, source: Seq<char>, here: Platform) -> Seq<char> {
    let name = file_name_of(base, here);
    let stem = match name {
        Some(n) => stem_of(n),
        None => "transcript"@,
    };
    let ext = match name {
        Some(n) => match extension_of(n) {
            Some(e) => e,
            None => "txt"@,
        },
        None => "txt"@,
    };
    let dir = match parent_of(base, here) {
        Some(d) => d,
        None => "."@,
    };
    join_of(dir, stem + "-"@ + slug_of(source) + "."@ + ext, here)
}

/// Where one source's half of `base` goes: `meeting.txt` and `Yeti` give
/// `meeting-yeti.txt`.
///
/// Shared by the two things that split one requested path into a file per
/// source -- saving and separate mode's streaming -- because they must agree.
pub fn path_for_source(base: &str, source: &str, here: Platform) -> (r: String)
    ensures
        r@ == source_path(base@, source@, here),
{
    let name = paths::file_name(base, here);
    let mut file = match &name {
        Some(n) => paths::stem(n.as_str()),
        None => "transcript".to_owned(),
    };
    let ext = match &name {
        Some(n) => match paths::extension(n.as_str()) {
            Some(e) => e,
            None => "txt".to_owned(),
        },
        None => "txt".to_owned(),
    };
    let dir = match paths::parent(base, here) {
        Some(d) => d,
        None => ".".to_owned(),
    };
    file.append("-");
    let s = slug(source);
    file.append(s.as_str());
    file.append(".");
    file.append(ext.as_str());
    paths::join(dir.as_str(), file.as_str(), here)
}

/// What is written for a transcript: the words and a newline, or nothing for a
/// transcript that has none.
///
/// A zero-byte file named as if it held a recording looks like the recording
/// failed silently rather than never having happened.
pub fn write(transcript: &str) -> (r: Result<String, String>)
    ensures
        match r {
            Ok(body) => !is_blank(transcript@) && body@ == trim_of(transcript@) + "\n"@,
            Err(e) => is_blank(transcript@) && e@ == "nothing to save: the transcript is empty"@,
        },
{
    if text::blank(transcript) {
        return Err("nothing to save: the transcript is empty".to_owned());
    }
    let mut body = text::trim(transcript);
    body.append("\n");
    Ok(body)
}

/// The name of a transcript saved at the moment `stamp`.
pub open spec fn saved_name(stamp: Seq<char>) -> Seq<char> {
    stamp + ".txt"@
}

/// Build a filename from a timestamp.
pub fn filename_for(stamp: &str) -> (r: String)
    ensures
        r@ == saved_name(stamp@),
{
    let mut s = stamp.to_owned();
    s.append(".txt");
    s
}

/// Whether `s` is a moment as transcripts are named: `YYYY-MM-DD_HH-MM-SS`.
pub open spec fn is_stamp(s: Seq<char>) -> bool {
    &&& s.len() == 19
    &&& forall|i: int|
        0 <= i < 19 ==> (if i == 4 || i == 7 || i == 13 || i == 16 {
            #[trigger] s[i] == '-'
        } else if i == 10 {
            s[i] == '_'
        } else {
            is_digit(s[i])
        })
}

/// Whether `s` is a moment as the clock tells it: a stamp, whose year stands
/// behind a sign where four digits cannot hold it.
pub open spec fn is_moment(s: Seq<char>) -> bool {
    &&& s.len() >= 19
    &&& is_stamp(s.skip(s.len() - 19))
    &&& forall|i: int| 0 <= i < s.len() - 19 ==> (#[trigger] s[i] == '+' || is_digit(s[i]))
}

/// Local time as `YYYY-MM-DD_HH-MM-SS`: `chrono::Local::now`, laid out by
/// `chrono::DateTime::format`.
///
/// What is claimed is the shape: each part but the year has two digits, and the
/// year four, or a sign and more than four past the year 9999. Which moment it
/// is depends on the machine's clock and its time zone, and nothing is claimed
/// of that. A clock set to before 1970 is one `chrono` refuses by panicking.
#[verifier::external_body]
pub fn timestamp() -> (r: String)
    ensures
        is_moment(r@),
{
    chrono::Local::now().format("%Y-%m-%d_%H-%M-%S").to_string()
}

/// The name of a transcript saved now.
pub fn filename_now() -> (r: String)
    ensures
        exists|moment: Seq<char>| #[trigger] is_moment(moment) && r@ == saved_name(moment),
{
    let moment = timestamp();
    filename_for(moment.as_str())
}

/// A character no file's name may hold on Windows.
pub open spec fn is_reserved(c: char) -> bool {
    c == '<' || c == '>' || c == ':' || c == '"' || c == '/' || c == '\\' || c == '|' || c == '?'
        || c == '*'
}

/// A generated name is legal on Windows too.
pub proof fn lemma_generated_name_is_legal(moment: Seq<char>, i: int)
    requires
        is_moment(moment),
        0 <= i < saved_name(moment).len(),
    ensures
        !is_reserved(saved_name(moment)[i]),
{
    reveal_strlit(".txt");
    let d = moment.len() - 19;
    if d <= i < moment.len() {
        assert(moment.skip(d)[i - d] == moment[i]);
    } else if i < d {
        assert(moment[i] == '+' || is_digit(moment[i]));
    }
}

/// A streamed file's path with a generated name brought up to `now`.
///
/// Only a name of the generated shape and of another day is touched: a name the
/// user chose is kept, and two sessions on one day meet in one file.
pub open spec fn fresh_path(path: Seq<char>, now: Seq<char>, here: Platform) -> Seq<char> {
    match file_name_of(path, here) {
        Some(name) => if name.len() == 23 && is_stamp(name.take(19)) && name.skip(19) == ".txt"@
            && name.take(10) != now.take(10) {
            paths::folder_of(path, here) + saved_name(now)
        } else {
            path
        },
        None => path,
    }
}

fn stamp_shaped(v: &Vec<char>) -> (r: bool)
    requires
        v@.len() >= 19,
    ensures
        r == is_stamp(v@.take(19)),
{
    let mut i: usize = 0;
    while i < 19
        invariant
            i <= 19 <= v@.len(),
            forall|j: int|
                0 <= j < i ==> (if j == 4 || j == 7 || j == 13 || j == 16 {
                    #[trigger] v@.take(19)[j] == '-'
                } else if j == 10 {
                    v@.take(19)[j] == '_'
                } else {
                    is_digit(v@.take(19)[j])
                }),
        decreases 19 - i,
    {
        let c = v[i];
        assert(v@.take(19)[i as int] == c);
        let ok: bool = if i == 4 || i == 7 || i == 13 || i == 16 {
            c == '-'
        } else if i == 10 {
            c == '_'
        } else {
            '0' <= c && c <= '9'
        };
        if !ok {
            return false;
        }
        i += 1;
    }
    true
}

/// Give a generated stream name today's date, before a session opens it.
pub fn restamped(path: &str, now: &str, here: Platform) -> (r: String)
    requires
        now@.len() >= 10,
    ensures
        r@ == fresh_path(path@, now@, here),
{
    match paths::file_name(path, here) {
        Some(name) => {
            let v = text::chars_of(name.as_str());
            let n = text::chars_of(now);
            if v.len() != 23 || !stamp_shaped(&v) {
                return path.to_owned();
            }
            let end = text::string_from(&v, 19, 23);
            assert(end@ == name@.skip(19));
            let day = text::string_from(&v, 0, 10);
            assert(day@ == name@.take(10));
            let today = text::string_from(&n, 0, 10);
            assert(today@ == now@.take(10));
            if !text::same(end.as_str(), ".txt") || text::same(day.as_str(), today.as_str()) {
                return path.to_owned();
            }
            let mut out = paths::folder(path, here);
            let fresh = filename_for(now);
            out.append(fresh.as_str());
            out
        },
        None => path.to_owned(),
    }
}

/// A name brought up to a moment stays as it is for the rest of that day.
pub proof fn lemma_two_sessions_of_a_day_share_a_file(
    path: Seq<char>,
    now: Seq<char>,
    later: Seq<char>,
    here: Platform,
)
    requires
        is_stamp(now),
        is_stamp(later),
        now.take(10) == later.take(10),
    ensures
        fresh_path(fresh_path(path, now, here), later, here) == fresh_path(path, now, here),
{
    reveal_strlit(".txt");
    if let Some(old_name) = file_name_of(path, here) {
        if old_name.len() == 23 && is_stamp(old_name.take(19)) && old_name.skip(19) == ".txt"@
            && old_name.take(10) != now.take(10) {
            let name = saved_name(now);
            assert forall|i: int| 0 <= i < name.len() implies !paths::is_separator(
                #[trigger] name[i],
                here,
            ) by {
                if i < 19 {
                    assert(name[i] == now[i]);
                }
            }
            assert(name[1] == now[1]);
            paths::lemma_renamed(path, name, here);
            assert(name.take(10) == now.take(10));
        }
    }
}

/// Render and check in one step: what is written when a transcript is saved.
pub fn save_rendered(segments: &[Segment], fallback: &str, format: Format) -> (r: Result<
    String,
    String,
>)
    ensures
        ({
            let body = rendered(segment_views(segments@), fallback@, format);
            match r {
                Ok(b) => !is_blank(body) && b@ == trim_of(body) + "\n"@,
                Err(e) => is_blank(body) && e@ == "nothing to save: the transcript is empty"@,
            }
        }),
{
    let body = render(segments, fallback, format);
    write(body.as_str())
}

/// Where a transcript saved at `stamp` goes inside `dir`, and what is written.
pub fn save_default(transcript: &str, dir: &str, stamp: &str, here: Platform) -> (r: Result<
    (String, String),
    String,
>)
    ensures
        match r {
            Ok((path, body)) => !is_blank(transcript@) && path@ == join_of(dir@, saved_name(stamp@), here)
                && body@ == trim_of(transcript@) + "\n"@,
            Err(e) => is_blank(transcript@) && e@ == "nothing to save: the transcript is empty"@,
        },
{
    let name = filename_for(stamp);
    let path = paths::join(dir, name.as_str(), here);
    match write(transcript) {
        Ok(body) => Ok((path, body)),
        Err(e) => Err(e),
    }
}

/// The directory transcripts are saved in.
pub open spec fn transcripts_dir(
    documents: Option<Seq<char>>,
    home: Option<Seq<char>>,
    has_documents: bool,
    here: Platform,
) -> Seq<char> {
    let h = match home {
        Some(h) => h,
        None => "."@,
    };
    match documents {
        Some(d) => join_of(d, "syrinx"@, here),
        None => if has_documents {
            join_of(join_of(h, "Documents"@, here), "syrinx"@, here)
        } else {
            join_of(h, "syrinx"@, here)
        },
    }
}

/// Default directory for saved transcripts: inside the documents directory
/// where there is one, else inside the home directory.
pub fn default_dir(
    documents: &Option<String>,
    home: &Option<String>,
    has_documents: bool,
    here: Platform,
) -> (r: String)
    ensures
        r@ == transcripts_dir(opt_view(*documents), opt_view(*home), has_documents, here),
{
    if let Some(d) = documents {
        return paths::join(d.as_str(), "syrinx", here);
    }
    let h = match home {
        Some(h) => h.clone(),
        None => ".".to_owned(),
    };
    if has_documents {
        let docs = paths::join(h.as_str(), "Documents", here);
        paths::join(docs.as_str(), "syrinx", here)
    } else {
        paths::join(h.as_str(), "syrinx", here)
    }
}

/// The files a conversation is saved as, one per source that said anything.
pub open spec fn source_files(
    base: Seq<char>,
    groups: Seq<(Seq<char>, Seq<SegmentView>)>,
    format: Format,
    here: Platform,
) -> Seq<(Seq<char>, Seq<char>)>
    decreases groups.len(),
{
    if groups.len() == 0 {
        Seq::empty()
    } else {
        let rest = source_files(base, groups.drop_last(), format, here);
        let body = rendered(groups.last().1, ""@, format);
        if is_blank(body) {
            rest
        } else {
            rest.push((source_path(base, groups.last().0, here), trim_of(body) + "\n"@))
        }
    }
}

pub open spec fn file_views(v: Seq<(String, String)>) -> Seq<(Seq<char>, Seq<char>)> {
    v.map_values(|f: (String, String)| (f.0@, f.1@))
}

/// What to write, and where, to save each source to its own file beside `base`.
pub fn save_per_source(
    base: &str,
    segments: &[Segment],
    format: Format,
    here: Platform,
) -> (r: Result<Vec<(String, String)>, String>)
    ensures
        ({
            let groups = grouped(segment_views(segments@));
            let files = source_files(base@, groups, format, here);
            match r {
                Ok(v) => files.len() > 0 && file_views(v@) == files,
                Err(e) => files.len() == 0 && e@ == (if groups.len() == 0 {
                    "nothing to save: the transcript is empty"@
                } else {
                    "nothing to save: no source produced any text"@
                }),
            }
        }),
{
    let groups = by_source(segments);
    let ghost all = group_views(groups@);
    if groups.len() == 0 {
        return Err("nothing to save: the transcript is empty".to_owned());
    }
    let mut files: Vec<(String, String)> = Vec::new();
    let mut i: usize = 0;
    assert(file_views(files@) == source_files(base@, all.take(0), format, here));
    while i < groups.len()
        invariant
            i <= groups@.len(),
            all == group_views(groups@),
            file_views(files@) == source_files(base@, all.take(i as int), format, here),
        decreases groups@.len() - i,
    {
        assert(all.take(i + 1).drop_last() == all.take(i as int));
        assert(all.take(i + 1).last() == (groups@[i as int].0@, segment_views(groups@[i as int].1@)));
        let body = render(groups[i].1.as_slice(), "", format);
        if let Ok(text) = write(body.as_str()) {
            let path = path_for_source(base, groups[i].0.as_str(), here);
            let ghost was = files@;
            let ghost f = (path@, text@);
            files.push((path, text));
            assert(file_views(files@) == file_views(was).push(f));
        }
        i += 1;
    }
    assert(all.take(i as int) == all);
    if files.len() == 0 {
        return Err("nothing to save: no source produced any text".to_owned());
    }
    Ok(files)
}

/// No two formats share a name.
pub proof fn lemma_format_names_differ()
    ensures
        forall|a: Format, b: Format| a.name_of() == b.name_of() ==> a == b,
{
    reveal_strlit("plain");
    reveal_strlit("timestamped");
    reveal_strlit("labelled");
    assert("plain"@[0] == 'p' && "timestamped"@[0] == 't' && "labelled"@[0] == 'l');
}

/// The numbers of a clock, each counting sixty times what follows it.
pub open spec fn clock_value(parts: Seq<Seq<char>>) -> nat
    decreases parts.len(),
{
    if parts.len() == 0 {
        0
    } else {
        60 * clock_value(parts.drop_last()) + text::value_of(parts.last())
    }
}

/// A stamp reads back as the time it was made from: between its brackets stand
/// numbers parted by colons, minutes and seconds, and hours in front of them
/// from an hour on. Read as a clock is read they are the whole seconds since the
/// start, and neither minutes nor seconds reach sixty.
#[verifier::spinoff_prover]
pub proof fn lemma_a_stamp_reads_back(at: i64)
    ensures
        ({
            let s = stamp_of(at);
            let parts = text::split_of(s.subrange(1, s.len() - 1), ':');
            let n = parts.len();
            &&& s.len() >= 7 && s[0] == '[' && s.last() == ']'
            &&& n == if at >= 3_600_000_000_000 {
                3nat
            } else {
                2nat
            }
            &&& forall|i: int|
                0 <= i < n ==> text::all_digits(#[trigger] parts[i]) && parts[i].len() >= 2
            &&& clock_value(parts) == if at > 0 {
                at as int / 1_000_000_000
            } else {
                0
            }
            &&& text::value_of(parts[n - 1]) < 60 && parts[n - 1].len() == 2
            &&& text::value_of(parts[n - 2]) < 60 && parts[n - 2].len() == 2
        }),
{
    reveal_strlit("[");
    reveal_strlit("]");
    reveal_strlit(":");
    let s = stamp_of(at);
    let total = whole_seconds(at);
    let h = total / 3600;
    let m = (total % 3600) / 60;
    let sec = total % 60;
    let (hh, mm, ss) = (two_digits(h), two_digits(m), two_digits(sec));
    text::lemma_two_digits_read_back(h);
    text::lemma_two_digits_read_back(m);
    text::lemma_two_digits_read_back(sec);
    lemma_no_colon(hh);
    lemma_no_colon(mm);
    lemma_no_colon(ss);
    let inner = s.subrange(1, s.len() - 1);
    if h > 0 {
        assert(inner =~= (hh.push(':') + mm).push(':') + ss);
        lemma_three_parts(hh, mm, ss);
        assert(total == 3600 * h + 60 * m + sec);
    } else {
        assert(inner =~= mm.push(':') + ss);
        lemma_two_parts(mm, ss);
        assert(total == 60 * m + sec);
    }
}

proof fn lemma_two_parts(m: Seq<char>, s: Seq<char>)
    requires
        !m.contains(':'),
        !s.contains(':'),
    ensures
        text::split_of(m.push(':') + s, ':') == seq![m, s],
        clock_value(seq![m, s]) == 60 * text::value_of(m) + text::value_of(s),
{
    reveal_with_fuel(clock_value, 3);
    text::lemma_split_of_one(m, ':');
    text::lemma_split_at(m, s, ':');
    let parts = seq![m, s];
    assert(seq![m].push(s) =~= parts);
    assert(parts.drop_last() =~= seq![m]);
    assert(seq![m].drop_last() =~= Seq::empty());
}

proof fn lemma_three_parts(h: Seq<char>, m: Seq<char>, s: Seq<char>)
    requires
        !h.contains(':'),
        !m.contains(':'),
        !s.contains(':'),
    ensures
        text::split_of((h.push(':') + m).push(':') + s, ':') == seq![h, m, s],
        clock_value(seq![h, m, s]) == 3600 * text::value_of(h) + 60 * text::value_of(m)
            + text::value_of(s),
{
    lemma_two_parts(h, m);
    text::lemma_split_at(h.push(':') + m, s, ':');
    let parts = seq![h, m, s];
    assert(seq![h, m].push(s) =~= parts);
    assert(parts.drop_last() =~= seq![h, m]);
}

proof fn lemma_no_colon(s: Seq<char>)
    requires
        text::all_digits(s),
    ensures
        !s.contains(':'),
{
    if s.contains(':') {
        let i = choose|i: int| 0 <= i < s.len() && s[i] == ':';
        assert(is_digit(s[i]));
    }
}

/// Two stamps are the same exactly when they are of the same second.
pub proof fn lemma_a_stamp_tells_the_second(a: i64, b: i64)
    ensures
        stamp_of(a) == stamp_of(b) <==> (if a > 0 {
            a as int / 1_000_000_000
        } else {
            0
        }) == (if b > 0 {
            b as int / 1_000_000_000
        } else {
            0
        }),
{
    lemma_a_stamp_reads_back(a);
    lemma_a_stamp_reads_back(b);
}

/// A turn has the speaker its first segment names, and ends only where it must:
/// the next turn is of another source, or opens with somebody else's words.
pub proof fn lemma_turns_are_as_long_as_they_can_be(s: Seq<SegmentView>, i: int)
    requires
        0 <= i < turns_of(s).len(),
    ensures
        turns_of(s)[i].segments.len() > 0,
        turns_of(s)[i].speaker == turns_of(s)[i].segments[0].speaker,
        i > 0 ==> ({
            let before = turns_of(s)[i - 1];
            let first = turns_of(s)[i].segments[0];
            before.segments.last().source != first.source || (first.speaker is Some
                && first.speaker != before.speaker)
        }),
    decreases s.len(),
{
    lemma_turns_keep_everything(s);
    if s.len() > 0 {
        let d = s.drop_last();
        let t = turns_of(d);
        let u = turns_of(s);
        lemma_turns_keep_everything(d);
        lemma_turn_speaker(d);
        if opens_turn(d, s.last()) {
            if i < t.len() {
                lemma_turns_are_as_long_as_they_can_be(d, i);
                assert(u[i] == t[i]);
                if i > 0 {
                    assert(u[i - 1] == t[i - 1]);
                }
            } else if i > 0 {
                assert(u[i - 1] == t.last());
            }
        } else {
            lemma_turns_are_as_long_as_they_can_be(d, i);
            assert(u[i].segments[0] == t[i].segments[0]);
            if i > 0 {
                assert(u[i - 1] == t[i - 1]);
            }
        }
    }
}

/// What a run of segments says is the text of each, one after another.
pub proof fn lemma_prose_is_every_text(s: Seq<SegmentView>)
    ensures
        prose(s) == s.map_values(|x: SegmentView| x.text).flatten(),
    decreases s.len(),
{
    let f = |x: SegmentView| x.text;
    if s.len() == 0 {
        assert(s.map_values(f) =~= Seq::empty());
    } else {
        let d = s.drop_last();
        lemma_prose_is_every_text(d);
        assert(s.map_values(f) =~= d.map_values(f).push(s.last().text));
        d.map_values(f).lemma_flatten_push(s.last().text);
    }
}

/// The segments a layout shows are those with something in them, in order.
pub proof fn lemma_audible_is_what_is_not_blank(s: Seq<SegmentView>)
    ensures
        audible(s) == s.filter(|x: SegmentView| !is_blank(x.text)),
    decreases s.len(),
{
    reveal(Seq::filter);
    if s.len() > 0 {
        lemma_audible_is_what_is_not_blank(s.drop_last());
    }
}

/// A speaker's heading names that speaker and nobody else, and there is none
/// while nobody is named.
pub proof fn lemma_a_heading_names_its_speaker(a: u32, b: u32)
    ensures
        speaker_prefix(None).len() == 0,
        speaker_prefix(Some(a)) == speaker_prefix(Some(b)) <==> a == b,
        text::occurs_in(decimal(a as nat), speaker_prefix(Some(a))),
        text::ends(speaker_prefix(Some(a)), ": "@),
{
    let p = "Speaker "@;
    let x = speaker_prefix(Some(a));
    let y = speaker_prefix(Some(b));
    let q = ": "@;
    assert(x.skip(x.len() - q.len()) =~= q);
    let i: int = p.len() as int;
    assert(x.subrange(i, i + decimal(a as nat).len()) =~= decimal(a as nat));
    if x == y {
        assert(decimal(a as nat) =~= x.subrange(p.len() as int, x.len() - q.len()));
        assert(decimal(b as nat) =~= y.subrange(p.len() as int, y.len() - q.len()));
        text::lemma_decimal_injective(a as nat, b as nat);
    }
}

/// Without anybody named and with one source, plain text is everything that was
/// said, one fragment after another, with only the outer edges trimmed.
pub proof fn lemma_plain_without_names_is_the_words(s: Seq<SegmentView>, fallback: Seq<char>)
    requires
        s.len() > 0,
        !has_speaker(s),
        forall|i: int| 0 <= i < s.len() ==> (#[trigger] s[i]).source == s[0].source,
    ensures
        rendered(s, fallback, Format::Plain) == trim_of(
            s.map_values(|x: SegmentView| x.text).flatten(),
        ),
{
    lemma_one_turn(s);
    lemma_prose_is_every_text(s);
    let p = turns_of(s).map_values(|t: TurnView| paragraph(t));
    assert(p =~= seq![prose(s)]);
    reveal_with_fuel(joined, 2);
}

proof fn lemma_one_turn(s: Seq<SegmentView>)
    requires
        s.len() > 0,
        !has_speaker(s),
        forall|i: int| 0 <= i < s.len() ==> (#[trigger] s[i]).source == s[0].source,
    ensures
        turns_of(s) == seq![TurnView { speaker: None, segments: s }],
    decreases s.len(),
{
    let d = s.drop_last();
    assert(s.last() == s[s.len() - 1]);
    assert(s[s.len() - 1].speaker is None);
    if s.len() == 1 {
        assert(s =~= seq![s.last()]);
        assert(d =~= Seq::empty());
        reveal_with_fuel(turns_of, 2);
        assert(turns_of(s) =~= seq![TurnView { speaker: None, segments: s }]);
    } else {
        assert forall|i: int| 0 <= i < d.len() implies (#[trigger] d[i]).source == d[0].source
            && d[i].speaker is None by {
            assert(d[i] == s[i]);
            assert(d[0] == s[0]);
        }
        assert(d.last() == s[s.len() - 2]);
        lemma_one_turn(d);
        assert(d.push(s.last()) =~= s);
        assert(turns_of(s) =~= seq![TurnView { speaker: None, segments: s }]);
    }
}

/// In plain text every turn is a paragraph: the speaker's heading, then all the
/// turn says.
pub proof fn lemma_a_paragraph_is_a_turn(t: TurnView)
    ensures
        text::begins(paragraph(t), speaker_prefix(t.speaker)),
        text::ends(paragraph(t), t.segments.map_values(|x: SegmentView| x.text).flatten()),
        t.speaker is None ==> paragraph(t) == t.segments.map_values(
            |x: SegmentView| x.text,
        ).flatten(),
        paragraph(t).len() == speaker_prefix(t.speaker).len() + t.segments.map_values(
            |x: SegmentView| x.text,
        ).flatten().len(),
{
    lemma_prose_is_every_text(t.segments);
    let p = speaker_prefix(t.speaker);
    let w = prose(t.segments);
    assert(paragraph(t).take(p.len() as int) =~= p);
    assert(paragraph(t).skip(paragraph(t).len() - w.len()) =~= w);
    if t.speaker is None {
        assert(paragraph(t) =~= w);
    }
}

/// Plain text is the paragraphs of its turns, each on a line of its own; a
/// session without segments falls back on its flat transcript.
pub proof fn lemma_plain_is_its_paragraphs(s: Seq<SegmentView>, fallback: Seq<char>, i: int)
    requires
        0 <= i < turns_of(s).len(),
        !is_blank(paragraph(turns_of(s)[i])),
    ensures
        text::occurs_in(
            trim_of(paragraph(turns_of(s)[i])),
            rendered(s, fallback, Format::Plain),
        ),
        rendered(Seq::empty(), fallback, Format::Plain) == trim_of(fallback),
{
    lemma_turns_keep_everything(s);
    let parts = turns_of(s).map_values(|t: TurnView| paragraph(t));
    text::lemma_joined_in_order(parts, "\n"@, i);
    let before = if i == 0 {
        Seq::empty()
    } else {
        joined(parts.take(i), "\n"@) + "\n"@
    };
    let after = if i == parts.len() - 1 {
        Seq::empty()
    } else {
        "\n"@ + joined(parts.skip(i + 1), "\n"@)
    };
    text::lemma_trim_keeps_the_inside(before, paragraph(turns_of(s)[i]), after);
}

/// A line of one segment opens with its time and closes with its words, and
/// names its source in the one layout that does, and only there.
pub proof fn lemma_a_line_says_when_who_and_what(s: SegmentView, format: Format)
    ensures
        ({
            let line = flat_line(s, format);
            let named = format == Format::Labelled && s.source is Some;
            &&& text::begins(line, stamp_of(s.at) + " "@)
            &&& text::ends(line, trim_of(s.text))
            &&& named ==> text::occurs_in("["@ + s.source->0 + "]"@, line)
            &&& !named ==> line.len() == (stamp_of(s.at) + " "@).len() + trim_of(s.text).len()
        }),
{
    let line = flat_line(s, format);
    let head = stamp_of(s.at) + " "@;
    let words = trim_of(s.text);
    let mid = source_prefix(s.source, format);
    assert(line.take(head.len() as int) =~= head);
    assert(line.skip(line.len() - words.len()) =~= words);
    if format == Format::Labelled && s.source is Some {
        let tag = "["@ + s.source->0 + "]"@;
        reveal_strlit("] ");
        reveal_strlit("]");
        assert(mid =~= tag.push(' '));
        let i: int = head.len() as int;
        assert(line.subrange(i, i + tag.len()) =~= tag);
    }
}

/// One line per segment that says anything, in order, while nobody is named: a
/// transcript whose words and sources hold no line breaks has exactly as many
/// lines.
pub proof fn lemma_one_line_for_each_segment(s: Seq<SegmentView>, format: Format)
    requires
        format != Format::Plain,
        !has_speaker(s),
        s.filter(|x: SegmentView| !is_blank(x.text)).len() > 0,
        forall|i: int|
            0 <= i < s.len() ==> !flat_line(#[trigger] s[i], format).contains('\n'),
    ensures
        text::split_of(rendered(s, ""@, format), '\n') == s.filter(
            |x: SegmentView| !is_blank(x.text),
        ).map_values(|x: SegmentView| flat_line(x, format)),
{
    reveal_strlit("\n");
    lemma_audible_is_what_is_not_blank(s);
    let keep = |x: SegmentView| !is_blank(x.text);
    let shown = audible(s);
    let lines = shown.map_values(|x: SegmentView| flat_line(x, format));
    assert forall|i: int| 0 <= i < lines.len() implies !(#[trigger] lines[i]).contains('\n') by {
        s.lemma_filter_contains_rev(keep, shown[i]);
        assert(shown.contains(shown[i]));
        let j = choose|j: int| 0 <= j < s.len() && s[j] == shown[i];
        assert(!flat_line(s[j], format).contains('\n'));
    }
    assert("\n"@ =~= seq!['\n']);
    text::lemma_joined_parts_split_again(lines, '\n');
}

/// Splitting a turn into lines loses nothing, and a line ends exactly where the
/// silence after it is long enough, or the source changes in the layout that
/// names sources.
pub proof fn lemma_lines_end_at_a_silence(s: Seq<SegmentView>, format: Format)
    ensures
        lines_of(s, format).flatten() == s,
        forall|i: int, j: int|
            0 <= i < lines_of(s, format).len() && 0 < j < lines_of(s, format)[i].len() ==> ({
                let prev = lines_of(s, format)[i][j - 1];
                let next = #[trigger] lines_of(s, format)[i][j];
                next.at - prev.at < 1_500_000_000 && (format == Format::Labelled ==> prev.source
                    == next.source)
            }),
        forall|i: int|
            0 < i < lines_of(s, format).len() ==> ({
                let prev = lines_of(s, format)[i - 1].last();
                let next = (#[trigger] lines_of(s, format)[i])[0];
                next.at - prev.at >= 1_500_000_000 || (format == Format::Labelled && prev.source
                    != next.source)
            }),
    decreases s.len(),
{
    if s.len() > 0 {
        let d = s.drop_last();
        let next = s.last();
        lemma_lines_end_at_a_silence(d, format);
        lemma_lines_nonempty(d, format);
        let l = lines_of(d, format);
        let u = lines_of(s, format);
        assert(s =~= d.push(next));
        if s.len() > 1 {
            assert(s[s.len() - 2] == d.last());
        }
        if s.len() == 1 || breaks_line(s[s.len() - 2], next, format) {
            l.lemma_flatten_push(seq![next]);
            assert(l.flatten() + seq![next] =~= s);
            assert forall|i: int, j: int| 0 <= i < u.len() && 0 < j < u[i].len() implies ({
                let prev = u[i][j - 1];
                let n = #[trigger] u[i][j];
                n.at - prev.at < 1_500_000_000 && (format == Format::Labelled ==> prev.source
                    == n.source)
            }) by {
                assert(u[i] == l[i]);
                assert(l[i][j] == u[i][j]);
            }
            assert forall|i: int| 0 < i < u.len() implies ({
                let prev = u[i - 1].last();
                let n = (#[trigger] u[i])[0];
                n.at - prev.at >= 1_500_000_000 || (format == Format::Labelled && prev.source
                    != n.source)
            }) by {
                assert(u[i - 1] == l[i - 1]);
                if i < l.len() {
                    assert(u[i] == l[i]);
                }
            }
        } else {
            let h = l.drop_last();
            let last = l.last();
            assert(l =~= h.push(last));
            h.lemma_flatten_push(last);
            h.lemma_flatten_push(last.push(next));
            assert(h.flatten() + last.push(next) =~= (h.flatten() + last).push(next));
            assert forall|i: int, j: int| 0 <= i < u.len() && 0 < j < u[i].len() implies ({
                let prev = u[i][j - 1];
                let n = #[trigger] u[i][j];
                n.at - prev.at < 1_500_000_000 && (format == Format::Labelled ==> prev.source
                    == n.source)
            }) by {
                if i < h.len() {
                    assert(u[i] == l[i]);
                    assert(l[i][j] == u[i][j]);
                } else if j < last.len() {
                    assert(l[i][j] == u[i][j]);
                    assert(l[i][j - 1] == u[i][j - 1]);
                }
            }
            assert forall|i: int| 0 < i < u.len() implies ({
                let prev = u[i - 1].last();
                let n = (#[trigger] u[i])[0];
                n.at - prev.at >= 1_500_000_000 || (format == Format::Labelled && prev.source
                    != n.source)
            }) by {
                assert(u[i - 1] == l[i - 1]);
                assert(l[i][0] == u[i][0]);
            }
        }
    } else {
        assert(lines_of(s, format).flatten() =~= s);
    }
}

/// A line of a turn opens with the time of its first segment, names its source
/// where the layout does and the turn's speaker, and closes with its words: all
/// of them, but for whitespace at the outer edges.
pub proof fn lemma_a_turns_line_says_when_who_and_what(
    line: Seq<SegmentView>,
    speaker: Option<u32>,
    format: Format,
)
    requires
        line.len() > 0,
    ensures
        ({
            let r = rendered_line(line, speaker, format);
            let words = line.map_values(|x: SegmentView| x.text).flatten();
            &&& text::begins(r, stamp_of(line[0].at) + " "@)
            &&& text::occurs_in(speaker_prefix(speaker), r)
            &&& text::ends(r, line_text(line))
            &&& line.len() == 1 ==> line_text(line) == trim_of(line[0].text)
            &&& line.len() > 1 ==> text::ends(words, line_text(line)) && (forall|i: int|
                0 <= i < words.len() - line_text(line).len() ==> text::is_white(
                    #[trigger] words[i],
                ))
        }),
{
    let r = rendered_line(line, speaker, format);
    let head = stamp_of(line[0].at) + " "@;
    let src = source_prefix(line[0].source, format);
    let who = speaker_prefix(speaker);
    let t = line_text(line);
    assert(r.take(head.len() as int) =~= head);
    let i: int = (head + src).len() as int;
    assert(r.subrange(i, i + who.len()) =~= who);
    assert(r.skip(r.len() - t.len()) =~= t);
    if line.len() > 1 {
        let words = line.map_values(|x: SegmentView| x.text).flatten();
        lemma_prose_is_every_text(line);
        lemma_prose_front(line);
        text::lemma_trim_start(line[0].text);
        assert(words.skip(words.len() - t.len()) =~= t);
        assert forall|i: int| 0 <= i < words.len() - t.len() implies text::is_white(
            #[trigger] words[i],
        ) by {
            assert(words[i] == line[0].text[i]);
        }
    }
}

proof fn lemma_prose_front(s: Seq<SegmentView>)
    requires
        s.len() > 0,
    ensures
        prose(s) == s[0].text + prose(s.skip(1)),
{
    let f = |x: SegmentView| x.text;
    lemma_prose_is_every_text(s);
    lemma_prose_is_every_text(s.skip(1));
    assert(s.map_values(f).drop_first() =~= s.skip(1).map_values(f));
}

/// A transcript in which somebody is named is the lines of its turns, in order.
pub proof fn lemma_all_lines_are_each_turns(t: Seq<TurnView>, format: Format)
    ensures
        all_lines(t, format) == t.map_values(|x: TurnView| turn_lines(x, format)).flatten(),
    decreases t.len(),
{
    let f = |x: TurnView| turn_lines(x, format);
    if t.len() == 0 {
        assert(t.map_values(f) =~= Seq::empty());
    } else {
        let d = t.drop_last();
        lemma_all_lines_are_each_turns(d, format);
        assert(t.map_values(f) =~= d.map_values(f).push(turn_lines(t.last(), format)));
        d.map_values(f).lemma_flatten_push(turn_lines(t.last(), format));
    }
}

/// Which layout is used: prose when it is asked for, otherwise one line per
/// segment until somebody is named, and one per turn and silence from then on.
pub proof fn lemma_names_decide_the_layout(
    s: Seq<SegmentView>,
    fallback: Seq<char>,
    format: Format,
    i: int,
)
    requires
        format != Format::Plain,
        0 <= i < s.len(),
    ensures
        s[i].speaker is Some ==> rendered(s, fallback, format) == joined(
            all_lines(turns_of(audible(s)), format),
            "\n"@,
        ),
        (forall|j: int| 0 <= j < s.len() ==> (#[trigger] s[j]).speaker is None) ==> rendered(
            s,
            fallback,
            format,
        ) == joined(audible(s).map_values(|x: SegmentView| flat_line(x, format)), "\n"@),
{
}

/// The letters and digits of ASCII in `name`, in order and in lower case.
pub open spec fn letters_of(name: Seq<char>) -> Seq<char> {
    name.filter(
        |c: char| ('a' <= c && c <= 'z') || ('A' <= c && c <= 'Z') || ('0' <= c && c <= '9'),
    ).map_values(|c: char| if 'A' <= c && c <= 'Z' {
        (c as u32 + 32) as char
    } else {
        c
    })
}

/// `s` without its dashes.
pub open spec fn without_dashes(s: Seq<char>) -> Seq<char> {
    s.filter(|c: char| c != '-')
}

proof fn lemma_letters_push(s: Seq<char>, c: char)
    ensures
        letters_of(s.push(c)) == (if ('a' <= c && c <= 'z') || ('A' <= c && c <= 'Z') || ('0' <= c
            && c <= '9') {
            letters_of(s).push(ascii_lower(c))
        } else {
            letters_of(s)
        }),
{
    let keep = |c: char|
        ('a' <= c && c <= 'z') || ('A' <= c && c <= 'Z') || ('0' <= c && c <= '9');
    s.lemma_filter_push(c, keep);
    let low = |c: char|
        if 'A' <= c && c <= 'Z' {
            (c as u32 + 32) as char
        } else {
            c
        };
    if keep(c) {
        assert(s.filter(keep).push(c).map_values(low) =~= s.filter(keep).map_values(low).push(
            low(c),
        ));
    }
}

proof fn lemma_dashed_letters(s: Seq<char>)
    ensures
        without_dashes(dashed(s)) == letters_of(s),
        dashed(s).len() <= s.len(),
    decreases s.len(),
{
    let other = |c: char| c != '-';
    if s.len() == 0 {
        reveal(Seq::filter);
        assert(letters_of(s) =~= Seq::empty());
        assert(without_dashes(dashed(s)) =~= Seq::empty());
    } else {
        let d = s.drop_last();
        let c = s.last();
        lemma_dashed_letters(d);
        assert(d.push(c) =~= s);
        lemma_letters_push(d, c);
        dashed(d).lemma_filter_push(ascii_lower(c), other);
        dashed(d).lemma_filter_push('-', other);
    }
}

proof fn lemma_undashed_letters(s: Seq<char>)
    ensures
        without_dashes(undashed(s)) == without_dashes(s),
        undashed(s).len() <= s.len(),
    decreases s.len(),
{
    if s.len() > 0 && s.last() == '-' {
        let d = s.drop_last();
        lemma_undashed_letters(d);
        assert(d.push('-') =~= s);
        d.lemma_filter_push('-', |c: char| c != '-');
    }
}

/// A slug keeps every letter and digit of a name, in order and in lower case,
/// up to its bound: without its dashes it is what they are, or where it is cut
/// off, where they begin.
pub proof fn lemma_a_slug_keeps_letters_and_digits(name: Seq<char>)
    ensures
        ({
            let kept = without_dashes(slug_of(name));
            &&& kept.len() <= letters_of(name).len()
            &&& kept == letters_of(name).take(kept.len() as int)
            &&& slug_of(name).len() < 40 ==> kept == letters_of(name)
            &&& name.len() <= 40 ==> kept == letters_of(name)
        }),
{
    let other = |c: char| c != '-';
    let s = undashed(dashed(name));
    lemma_dashed_letters(name);
    lemma_undashed_letters(dashed(name));
    let t = slug_of(name);
    let n = t.len() as int;
    assert(s =~= t + s.skip(n));
    Seq::filter_distributes_over_add(t, s.skip(n), other);
    let kept = without_dashes(t);
    assert(kept =~= letters_of(name).take(kept.len() as int));
    if s.len() <= 40 {
        assert(t =~= s);
    }
}

proof fn lemma_letters_add(a: Seq<char>, b: Seq<char>)
    ensures
        letters_of(a + b) == letters_of(a) + letters_of(b),
    decreases b.len(),
{
    if b.len() == 0 {
        reveal(Seq::filter);
        assert(a + b =~= a);
        assert(letters_of(b) =~= Seq::empty());
        assert(letters_of(a) + letters_of(b) =~= letters_of(a));
    } else {
        let d = b.drop_last();
        lemma_letters_add(a, d);
        assert((a + d).push(b.last()) =~= a + b);
        assert(d.push(b.last()) =~= b);
        lemma_letters_push(a + d, b.last());
        lemma_letters_push(d, b.last());
        assert(letters_of(a + b) =~= letters_of(a) + letters_of(b));
    }
}

proof fn lemma_digits_are_letters(s: Seq<char>)
    requires
        text::all_digits(s),
    ensures
        letters_of(s) == s,
    decreases s.len(),
{
    if s.len() == 0 {
        reveal(Seq::filter);
        assert(letters_of(s) =~= s);
    } else {
        let d = s.drop_last();
        assert(is_digit(s[s.len() - 1]));
        assert forall|i: int| 0 <= i < d.len() implies is_digit(#[trigger] d[i]) by {
            assert(d[i] == s[i]);
        }
        lemma_digits_are_letters(d);
        assert(d.push(s.last()) =~= s);
        lemma_letters_push(d, s.last());
    }
}

/// The numbered labels that sources of one name are given have slugs of their
/// own, as long as nothing of them is cut off.
pub proof fn lemma_numbered_labels_have_their_own_slugs(base: Seq<char>, j: nat, k: nat)
    requires
        1 <= j,
        1 <= k,
        j != k,
        candidate(base, j).len() <= 40,
        candidate(base, k).len() <= 40,
    ensures
        slug_of(candidate(base, j)) != slug_of(candidate(base, k)),
{
    reveal_strlit(" ");
    lemma_a_slug_keeps_letters_and_digits(candidate(base, j));
    lemma_a_slug_keeps_letters_and_digits(candidate(base, k));
    lemma_letters_of_candidate(base, j);
    lemma_letters_of_candidate(base, k);
    text::lemma_decimal_round_trip(j);
    text::lemma_decimal_round_trip(k);
    let b = letters_of(base);
    if slug_of(candidate(base, j)) == slug_of(candidate(base, k)) {
        let n = b.len() as int;
        if j > 1 && k > 1 {
            assert((b + decimal(j)).skip(n) =~= decimal(j));
            assert((b + decimal(k)).skip(n) =~= decimal(k));
        } else if j > 1 {
            assert((b + decimal(j)).len() == b.len());
        } else {
            assert((b + decimal(k)).len() == b.len());
        }
    }
}

proof fn lemma_letters_of_candidate(base: Seq<char>, k: nat)
    ensures
        k <= 1 ==> letters_of(candidate(base, k)) == letters_of(base),
        k > 1 ==> letters_of(candidate(base, k)) == letters_of(base) + decimal(k),
{
    reveal_strlit(" ");
    if k > 1 {
        assert(base + " "@ =~= base.push(' '));
        lemma_letters_push(base, ' ');
        lemma_letters_add(base.push(' '), decimal(k));
        text::lemma_decimal_round_trip(k);
        lemma_digits_are_letters(decimal(k));
    }
}

/// Two sources whose slugs differ never share a file, whatever file was asked
/// for, and each file has the extension that was asked for.
#[verifier::spinoff_prover]
pub proof fn lemma_each_slug_has_its_own_file(
    base: Seq<char>,
    a: Seq<char>,
    b: Seq<char>,
    here: Platform,
)
    ensures
        slug_of(a) != slug_of(b) ==> source_path(base, a, here) != source_path(base, b, here),
        text::ends(source_path(base, a, here), "-"@ + slug_of(a) + "."@ + (match file_name_of(
            base,
            here,
        ) {
            Some(n) => match extension_of(n) {
                Some(e) => e,
                None => "txt"@,
            },
            None => "txt"@,
        })),
{
    reveal_strlit("-");
    reveal_strlit(".");
    reveal_strlit("transcript");
    let name = file_name_of(base, here);
    let stem = match name {
        Some(n) => stem_of(n),
        None => "transcript"@,
    };
    let ext = match name {
        Some(n) => match extension_of(n) {
            Some(e) => e,
            None => "txt"@,
        },
        None => "txt"@,
    };
    let dir = match parent_of(base, here) {
        Some(d) => d,
        None => "."@,
    };
    if let Some(n) = name {
        paths::lemma_a_file_name_is_plain(base, here);
        paths::lemma_a_name_is_stem_and_extension(n);
        assert(stem[0] == n[0]);
    }
    assert(stem.len() > 0 && !paths::is_separator(stem[0], here));
    let head = stem + "-"@;
    let tail = "."@ + ext;
    let f = stem + "-"@ + slug_of(a) + "."@ + ext;
    let g = stem + "-"@ + slug_of(b) + "."@ + ext;
    assert(f =~= head + slug_of(a) + tail);
    assert(g =~= head + slug_of(b) + tail);
    paths::lemma_names_stay_apart(dir, f, g, here);
    let p = source_path(base, a, here);
    let end = "-"@ + slug_of(a) + "."@ + ext;
    assert(f.skip(f.len() - end.len()) =~= end);
    assert(p.skip(p.len() - end.len()) =~= f.skip(f.len() - end.len()));
    if f == g {
        lemma_same_between(head, slug_of(a), slug_of(b), tail);
    }
}

proof fn lemma_same_between(head: Seq<char>, a: Seq<char>, b: Seq<char>, tail: Seq<char>)
    requires
        head + a + tail == head + b + tail,
    ensures
        a == b,
{
    let f = head + a + tail;
    let g = head + b + tail;
    assert(f.len() == g.len());
    assert(a =~= f.subrange(head.len() as int, f.len() - tail.len()));
    assert(b =~= g.subrange(head.len() as int, g.len() - tail.len()));
}

/// Saving a conversation source by source writes one file for each source that
/// said anything, in order: that source's file, holding what that source said
/// and a line break.
pub proof fn lemma_one_file_for_each_source(
    base: Seq<char>,
    groups: Seq<(Seq<char>, Seq<SegmentView>)>,
    format: Format,
    here: Platform,
)
    ensures
        source_files(base, groups, format, here) == groups.filter(
            |g: (Seq<char>, Seq<SegmentView>)| !is_blank(rendered(g.1, ""@, format)),
        ).map_values(
            |g: (Seq<char>, Seq<SegmentView>)|
                (source_path(base, g.0, here), trim_of(rendered(g.1, ""@, format)) + "\n"@),
        ),
    decreases groups.len(),
{
    let keep = |g: (Seq<char>, Seq<SegmentView>)| !is_blank(rendered(g.1, ""@, format));
    let file = |g: (Seq<char>, Seq<SegmentView>)|
        (source_path(base, g.0, here), trim_of(rendered(g.1, ""@, format)) + "\n"@);
    if groups.len() == 0 {
        reveal(Seq::filter);
        assert(groups.filter(keep).map_values(file) =~= Seq::empty());
    } else {
        let d = groups.drop_last();
        let g = groups.last();
        lemma_one_file_for_each_source(base, d, format, here);
        assert(d.push(g) =~= groups);
        d.lemma_filter_push(g, keep);
        if keep(g) {
            assert(d.filter(keep).push(g).map_values(file) =~= d.filter(keep).map_values(file).push(
                file(g),
            ));
        }
    }
}

/// What is filed under a source is everything that carries its label, in order,
/// and what carries none is filed under one name of its own.
pub proof fn lemma_a_group_is_one_sources_words(s: Seq<SegmentView>, i: int)
    requires
        0 <= i < grouped(s).len(),
    ensures
        grouped(s)[i].1 == s.filter(
            |x: SegmentView|
                x.source == Some(grouped(s)[i].0) || (x.source is None && grouped(s)[i].0
                    == "transcript"@),
        ),
        grouped(s)[i].1.len() > 0,
        forall|j: int| 0 <= j < grouped(s).len() && j != i ==> grouped(s)[i].0 != (
        #[trigger] grouped(s)[j]).0,
{
    let key = grouped(s)[i].0;
    let p = |x: SegmentView| source_key(x) == key;
    let q = |x: SegmentView| x.source == Some(key) || (x.source is None && key == "transcript"@);
    lemma_same_filter(s, p, q);
    lemma_source_keys_distinct(s);
    lemma_heard(s, i);
    assert(source_keys(s)[i] == key);
    assert forall|j: int| 0 <= j < grouped(s).len() && j != i implies key != (
    #[trigger] grouped(s)[j]).0 by {
        assert(source_keys(s)[j] == grouped(s)[j].0);
    }
}

proof fn lemma_same_filter(
    s: Seq<SegmentView>,
    p: spec_fn(SegmentView) -> bool,
    q: spec_fn(SegmentView) -> bool,
)
    requires
        forall|x: SegmentView| #[trigger] p(x) == q(x),
    ensures
        s.filter(p) == s.filter(q),
    decreases s.len(),
{
    reveal(Seq::filter);
    if s.len() > 0 {
        lemma_same_filter(s.drop_last(), p, q);
    }
}

proof fn lemma_heard(s: Seq<SegmentView>, i: int)
    requires
        0 <= i < source_keys(s).len(),
    ensures
        said_by(s, source_keys(s)[i]).len() > 0,
    decreases s.len(),
{
    if s.len() > 0 {
        let d = s.drop_last();
        let key = source_keys(s)[i];
        assert(d.push(s.last()) =~= s);
        d.lemma_filter_push(s.last(), |x: SegmentView| source_key(x) == key);
        if i < source_keys(d).len() {
            lemma_heard(d, i);
        }
    }
}

/// Sources are listed in the order they were first heard.
pub proof fn lemma_sources_are_in_order_of_first_words(s: Seq<SegmentView>, next: SegmentView)
    ensures
        ({
            let before = source_keys(s);
            let after = source_keys(s.push(next));
            let key = match next.source {
                Some(n) => n,
                None => "transcript"@,
            };
            &&& after.take(before.len() as int) == before
            &&& before.contains(key) ==> after == before
            &&& !before.contains(key) ==> after == before.push(key)
        }),
{
    assert(s.push(next).drop_last() =~= s);
    assert(source_keys(s.push(next)).take(source_keys(s).len() as int) =~= source_keys(s));
}

/// Only a file whose name was generated on another day is renamed, and it is
/// then named for today, in the folder it was in.
pub proof fn lemma_a_renamed_file_is_todays(path: Seq<char>, now: Seq<char>, here: Platform)
    requires
        is_stamp(now),
    ensures
        ({
            let after = fresh_path(path, now, here);
            &&& after != path ==> {
                &&& file_name_of(path, here) matches Some(old_name) && old_name.len() == 23
                    && is_stamp(old_name.take(19)) && text::ends(old_name, ".txt"@)
                    && old_name.take(10) != now.take(10)
                &&& file_name_of(after, here) == Some(now + ".txt"@)
                &&& paths::folder_of(after, here) == paths::folder_of(path, here)
            }
            &&& (file_name_of(path, here) matches Some(n) && n.len() == 23 && is_stamp(n.take(19))
                && text::ends(n, ".txt"@)) ==> file_name_of(after, here)->0.take(10) == now.take(10)
        }),
{
    reveal_strlit(".txt");
    if let Some(old_name) = file_name_of(path, here) {
        if old_name.len() == 23 && is_stamp(old_name.take(19)) && old_name.skip(19) == ".txt"@
            && old_name.take(10) != now.take(10) {
            let name = saved_name(now);
            assert forall|i: int| 0 <= i < name.len() implies !paths::is_separator(
                #[trigger] name[i],
                here,
            ) by {
                if i < 19 {
                    assert(name[i] == now[i]);
                }
            }
            assert(name[1] == now[1]);
            paths::lemma_renamed(path, name, here);
            assert(name.take(10) =~= now.take(10));
        }
    }
}

/// Transcripts go into a directory of their own under the documents, where those
/// are known or found, and otherwise under the home directory.
pub proof fn lemma_transcripts_are_kept_under_documents(
    documents: Option<Seq<char>>,
    home: Option<Seq<char>>,
    has_documents: bool,
    here: Platform,
)
    ensures
        ({
            let d = transcripts_dir(documents, home, has_documents, here);
            &&& text::ends(d, "syrinx"@)
            &&& documents is Some ==> text::begins(d, documents->0)
            &&& documents is None && home is Some ==> text::begins(d, home->0)
            &&& documents is None && has_documents ==> text::occurs_in("Documents"@, d)
        }),
{
    reveal_strlit("syrinx");
    reveal_strlit("Documents");
    let d = transcripts_dir(documents, home, has_documents, here);
    let h = match home {
        Some(h) => h,
        None => "."@,
    };
    assert(paths::prefix_len("syrinx"@, here) == 0);
    assert(paths::prefix_len("Documents"@, here) == 0);
    if let Some(x) = documents {
        paths::lemma_a_name_goes_into_its_directory(x, "syrinx"@, here);
    } else if has_documents {
        let docs = join_of(h, "Documents"@, here);
        paths::lemma_a_name_goes_into_its_directory(h, "Documents"@, here);
        paths::lemma_a_name_goes_into_its_directory(docs, "syrinx"@, here);
        let n = h.len() as int;
        assert(d.take(n) =~= docs.take(n));
        let i: int = docs.len() - "Documents"@.len();
        assert(d.subrange(i, i + "Documents"@.len()) =~= docs.skip(i));
    } else {
        paths::lemma_a_name_goes_into_its_directory(h, "syrinx"@, here);
    }
}

/// A stamp is a date and a time of day: four digits and two and two, an
/// underscore, and two and two and two, with dashes between.
pub proof fn lemma_a_stamp_is_a_date_and_a_time(s: Seq<char>)
    ensures
        is_stamp(s) <==> {
            &&& s.len() == 19
            &&& s[4] == '-' && s[7] == '-' && s[10] == '_' && s[13] == '-' && s[16] == '-'
            &&& text::all_digits(s.subrange(0, 4)) && text::all_digits(s.subrange(5, 7))
                && text::all_digits(s.subrange(8, 10)) && text::all_digits(s.subrange(11, 13))
                && text::all_digits(s.subrange(14, 16)) && text::all_digits(s.subrange(17, 19))
        },
{
    if is_stamp(s) {
        assert(s[4] == '-' && s[7] == '-' && s[10] == '_' && s[13] == '-' && s[16] == '-');
    }
    if s.len() == 19 && s[4] == '-' && s[7] == '-' && s[10] == '_' && s[13] == '-' && s[16] == '-'
        && text::all_digits(s.subrange(0, 4)) && text::all_digits(s.subrange(5, 7))
        && text::all_digits(s.subrange(8, 10)) && text::all_digits(s.subrange(11, 13))
        && text::all_digits(s.subrange(14, 16)) && text::all_digits(s.subrange(17, 19)) {
        assert forall|i: int| 0 <= i < 19 implies (if i == 4 || i == 7 || i == 13 || i == 16 {
            #[trigger] s[i] == '-'
        } else if i == 10 {
            s[i] == '_'
        } else {
            is_digit(s[i])
        }) by {
            if i < 4 {
                assert(is_digit(s.subrange(0, 4)[i]));
            } else if 5 <= i < 7 {
                assert(is_digit(s.subrange(5, 7)[i - 5]));
            } else if 8 <= i < 10 {
                assert(is_digit(s.subrange(8, 10)[i - 8]));
            } else if 11 <= i < 13 {
                assert(is_digit(s.subrange(11, 13)[i - 11]));
            } else if 14 <= i < 16 {
                assert(is_digit(s.subrange(14, 16)[i - 14]));
            } else if 17 <= i {
                assert(is_digit(s.subrange(17, 19)[i - 17]));
            }
        }
    }
}

/// Somebody is named if and only if some segment says who spoke.
pub proof fn lemma_who_is_named(s: Seq<SegmentView>, i: int)
    ensures
        0 <= i < s.len() && s[i].speaker is Some ==> has_speaker(s),
        (forall|j: int| 0 <= j < s.len() ==> (#[trigger] s[j]).speaker is None) ==> !has_speaker(s),
{
}

} // verus!
