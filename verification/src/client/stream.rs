//! Appending a transcript to a file as it arrives.
//!
//! Saving at the end is fine until something goes wrong at minute forty of a
//! meeting. Each fragment is written the moment the server commits it, so
//! whatever has been said is already on disk. The file is opened for append,
//! so a second session continues the first rather than replacing it.
//!
//! **Only committed text is written.** A file that has been flushed cannot take
//! anything back.

use crate::client::save::{
    all_lines, audible, breaks_line, has_speaker, known_speaker, lemma_lines_nonempty,
    lemma_turn_speaker, lemma_turns_keep_everything, line_prefix, line_text, lines_of, opens_turn, prose,
    rendered, rendered_line, source_text, speaker_text, stamp, stamped, turn_lines, turns_of,
    Format, TurnView, NEW_LINE_AFTER_SILENCE,
};
use crate::client::segment::{Segment, SegmentView};
use crate::text::{
    self, is_blank, is_white, joined, lemma_trim_start, opt_view, trim_of, trim_start_of,
};
use vstd::prelude::*;

verus! {

/// The fragment written last: when it arrived, what produced it, and whose turn
/// it belongs to.
pub struct Written {
    pub at: i64,
    pub source: Option<String>,
    pub speaker: Option<u32>,
}

/// An open transcript file being appended to: what has to be remembered to
/// know how the next fragment is written.
pub struct StreamWriter {
    path: String,
    format: Format,
    needs_newline: bool,
    last: Option<Written>,
}

pub struct WrittenView {
    pub at: i64,
    pub source: Option<Seq<char>>,
    pub speaker: Option<u32>,
}

pub struct WriterView {
    pub format: Format,
    /// Whether the next write needs a newline in front of it, because the file
    /// already has content that did not end in one.
    pub needs_newline: bool,
    pub last: Option<WrittenView>,
}

impl View for StreamWriter {
    type V = WriterView;

    closed spec fn view(&self) -> WriterView {
        WriterView {
            format: self.format,
            needs_newline: self.needs_newline,
            last: match self.last {
                Some(w) => Some(
                    WrittenView { at: w.at, source: opt_view(w.source), speaker: w.speaker },
                ),
                None => None,
            },
        }
    }
}

impl WriterView {
    pub open spec fn fresh(format: Format, needs_newline: bool) -> WriterView {
        WriterView { format, needs_newline, last: None }
    }

    /// Whether `seg` opens a turn: the rule transcripts are grouped by, except
    /// that a change of source shows only where the layout names sources or
    /// somebody has been named on either side of it.
    pub open spec fn opens(self, seg: SegmentView) -> bool {
        match self.last {
            None => true,
            Some(w) => (w.source != seg.source && (self.format == Format::Labelled
                || seg.speaker is Some || w.speaker is Some)) || (seg.speaker is Some
                && seg.speaker != w.speaker),
        }
    }

    /// Whose turn `seg` belongs to.
    pub open spec fn turn(self, seg: SegmentView) -> Option<u32> {
        if self.opens(seg) {
            seg.speaker
        } else {
            self.last->0.speaker
        }
    }

    /// Whether `seg` belongs on the line already open.
    pub open spec fn continues(self, seg: SegmentView) -> bool {
        !self.opens(seg) && seg.at - self.last->0.at < NEW_LINE_AFTER_SILENCE
    }

    /// What is appended to the file for `seg`.
    pub open spec fn written(self, seg: SegmentView) -> Seq<char> {
        if is_blank(seg.text) {
            Seq::empty()
        } else {
            let gap = if self.needs_newline {
                "\n"@
            } else {
                Seq::empty()
            };
            if self.format == Format::Plain || self.continues(seg) {
                gap + seg.text
            } else {
                let fresh_line = if self.last is Some {
                    "\n"@
                } else {
                    Seq::empty()
                };
                gap + fresh_line + line_prefix(seg, self.turn(seg), self.format) + trim_start_of(
                    seg.text,
                )
            }
        }
    }

    pub open spec fn after(self, seg: SegmentView) -> WriterView {
        if is_blank(seg.text) {
            self
        } else {
            WriterView {
                format: self.format,
                needs_newline: false,
                last: Some(
                    WrittenView { at: seg.at, source: seg.source, speaker: self.turn(seg) },
                ),
            }
        }
    }
}

impl StreamWriter {
    /// The file being appended to.
    pub closed spec fn file(&self) -> Seq<char> {
        self.path@
    }

    /// Start appending to the file at `path`, which already has content or not,
    /// and whose content ends in a newline or not.
    ///
    /// A new session never continues the previous session's line: its clock
    /// restarts at zero, so the times would be nonsense.
    pub fn open(path: &str, format: Format, has_content: bool, ends_with_newline: bool) -> (r:
        StreamWriter)
        ensures
            r.file() == path@,
            r@ == WriterView::fresh(format, has_content && !ends_with_newline),
    {
        StreamWriter {
            path: path.to_owned(),
            format,
            needs_newline: has_content && !ends_with_newline,
            last: None,
        }
    }

    pub fn path(&self) -> (r: &str)
        ensures
            r@ == self.file(),
    {
        self.path.as_str()
    }

    /// What to append to the file for one committed fragment.
    pub fn append(&mut self, seg: &Segment) -> (r: String)
        ensures
            r@ == old(self)@.written(seg@),
            final(self).file() == old(self).file(),
            final(self)@ == old(self)@.after(seg@),
    {
        if text::blank(seg.text.as_str()) {
            return String::new();
        }
        let mut out = String::new();
        if self.needs_newline {
            out.append("\n");
            self.needs_newline = false;
        }
        let ghost gap = out@;
        assert(gap == (if old(self)@.needs_newline {
            "\n"@
        } else {
            Seq::<char>::empty()
        }));
        let opens: bool = match &self.last {
            None => true,
            Some(w) => (!text::same_opt(&w.source, &seg.source) && (self.format
                == Format::Labelled || seg.speaker.is_some() || w.speaker.is_some())) || (
            seg.speaker.is_some() && seg.speaker != w.speaker),
        };
        let turn: Option<u32> = match &self.last {
            Some(w) => if opens {
                seg.speaker
            } else {
                w.speaker
            },
            None => seg.speaker,
        };
        let continues: bool = match &self.last {
            Some(w) => !opens && (seg.at as i128 - w.at as i128) < NEW_LINE_AFTER_SILENCE as i128,
            None => false,
        };
        if self.format == Format::Plain || continues {
            out.append(seg.text.as_str());
        } else {
            if self.last.is_some() {
                out.append("\n");
            } else {
                assert(gap + Seq::<char>::empty() == gap);
            }
            let ghost opening = out@;
            let prefix = line_prefix_text(seg, turn, self.format);
            out.append(prefix.as_str());
            let t = text::trim_start(seg.text.as_str());
            out.append(t.as_str());
        }
        self.last = Some(Written { at: seg.at, source: seg.source.clone(), speaker: turn });
        out
    }
}

/// What opens a line.
fn line_prefix_text(seg: &Segment, speaker: Option<u32>, format: Format) -> (r: String)
    ensures
        r@ == line_prefix(seg@, speaker, format),
{
    let mut s = stamp(seg.at);
    s.append(" ");
    let src = source_text(&seg.source, format);
    s.append(src.as_str());
    let who = speaker_text(speaker);
    s.append(who.as_str());
    s
}

/// The writer after a run of fragments.
pub open spec fn writer_after(w: WriterView, s: Seq<SegmentView>) -> WriterView
    decreases s.len(),
{
    if s.len() == 0 {
        w
    } else {
        writer_after(w, s.drop_last()).after(s.last())
    }
}

/// Everything appended to the file for a run of fragments.
pub open spec fn streamed(w: WriterView, s: Seq<SegmentView>) -> Seq<char>
    decreases s.len(),
{
    if s.len() == 0 {
        Seq::empty()
    } else {
        streamed(w, s.drop_last()) + writer_after(w, s.drop_last()).written(s.last())
    }
}

/// The lines of one turn as they are streamed: like the saved lines, except
/// that nothing is trimmed from the end of a line, which may yet be continued.
pub open spec fn raw_line(line: Seq<SegmentView>, speaker: Option<u32>, format: Format) -> Seq<
    char,
> {
    line_prefix(line[0], speaker, format) + trim_start_of(line[0].text) + prose(line.skip(1))
}

pub open spec fn raw_turn(t: TurnView, format: Format) -> Seq<Seq<char>> {
    lines_of(t.segments, format).map_values(|l: Seq<SegmentView>| raw_line(l, t.speaker, format))
}

pub open spec fn raw_lines(t: Seq<TurnView>, format: Format) -> Seq<Seq<char>>
    decreases t.len(),
{
    if t.len() == 0 {
        Seq::empty()
    } else {
        raw_lines(t.drop_last(), format) + raw_turn(t.last(), format)
    }
}

proof fn lemma_prose_push(s: Seq<SegmentView>, x: SegmentView)
    ensures
        prose(s.push(x)) == prose(s) + x.text,
{
    assert(s.push(x).drop_last() == s);
}

proof fn lemma_lines_push(s: Seq<SegmentView>, x: SegmentView, format: Format)
    requires
        s.len() > 0,
    ensures
        ({
            let l = lines_of(s, format);
            lines_of(s.push(x), format) == (if breaks_line(s.last(), x, format) {
                l.push(seq![x])
            } else {
                l.drop_last().push(l.last().push(x))
            })
        }),
{
    assert(s.push(x).drop_last() == s);
    assert(s.push(x)[s.len() - 1] == s.last());
}

proof fn lemma_raw_line_push(
    line: Seq<SegmentView>,
    x: SegmentView,
    speaker: Option<u32>,
    format: Format,
)
    requires
        line.len() > 0,
    ensures
        raw_line(line.push(x), speaker, format) == raw_line(line, speaker, format) + x.text,
{
    assert(line.push(x).skip(1) == line.skip(1).push(x));
    lemma_prose_push(line.skip(1), x);
    assert(line.push(x)[0] == line[0]);
    let p = line_prefix(line[0], speaker, format) + trim_start_of(line[0].text);
    assert(p + (prose(line.skip(1)) + x.text) == (p + prose(line.skip(1))) + x.text);
}

/// How one more audible fragment changes the raw lines.
proof fn lemma_raw_step(f: Seq<SegmentView>, x: SegmentView, format: Format)
    requires
        format != Format::Plain,
    ensures
        ({
            let before = raw_lines(turns_of(f), format);
            let after = raw_lines(turns_of(f.push(x)), format);
            let opens = opens_turn(f, x);
            let speaker = if opens {
                x.speaker
            } else {
                turns_of(f).last().speaker
            };
            if opens || x.at - f.last().at >= NEW_LINE_AFTER_SILENCE {
                after == before.push(line_prefix(x, speaker, format) + trim_start_of(x.text))
            } else {
                before.len() > 0 && after == before.drop_last().push(before.last() + x.text)
            }
        }),
        f.len() > 0 ==> raw_lines(turns_of(f), format).len() > 0,
        f.len() == 0 ==> raw_lines(turns_of(f), format).len() == 0,
{
    let t = turns_of(f);
    let u = turns_of(f.push(x));
    let before = raw_lines(t, format);
    let after = raw_lines(u, format);
    let opens = opens_turn(f, x);
    assert(f.push(x).drop_last() == f);
    lemma_turns_keep_everything(f);
    lemma_turn_speaker(f);
    let lone = line_prefix(x, if opens {
        x.speaker
    } else {
        t.last().speaker
    }, format) + trim_start_of(x.text);
    if f.len() > 0 {
        lemma_lines_nonempty(t.last().segments, format);
        assert(raw_turn(t.last(), format).len() > 0);
        assert(before == raw_lines(t.drop_last(), format) + raw_turn(t.last(), format));
    }
    if opens {
        let fresh = TurnView { speaker: x.speaker, segments: seq![x] };
        assert(u.drop_last() == t);
        assert(u.last() == fresh);
        assert(seq![x].drop_last() == Seq::<SegmentView>::empty());
        assert(lines_of(seq![x].drop_last(), format) == Seq::<Seq<SegmentView>>::empty());
        assert(lines_of(seq![x], format) == seq![seq![x]]);
        assert(prose(seq![x].skip(1)) == Seq::<char>::empty());
        assert(raw_line(seq![x], x.speaker, format) == lone);
        assert(raw_turn(fresh, format) == seq![lone]);
        assert(after == before.push(lone));
    } else {
        let last = t.last();
        let segs = last.segments;
        let grown = TurnView { speaker: last.speaker, segments: segs.push(x) };
        assert(u.drop_last() == t.drop_last());
        assert(u.last() == grown);
        assert(segs.last() == f.last());
        lemma_lines_push(segs, x, format);
        let l = lines_of(segs, format);
        let g = |line: Seq<SegmentView>| raw_line(line, last.speaker, format);
        // A turn has one source, so only a silence breaks its lines.
        assert(breaks_line(f.last(), x, format) == (x.at - f.last().at >= NEW_LINE_AFTER_SILENCE));
        if breaks_line(f.last(), x, format) {
            assert(prose(seq![x].skip(1)) == Seq::<char>::empty());
            assert(g(seq![x]) == lone);
            assert(l.push(seq![x]).map_values(g) == l.map_values(g).push(lone));
            assert(raw_turn(grown, format) == raw_turn(last, format).push(lone));
            assert(after == before.push(lone));
        } else {
            let n = l.drop_last().push(l.last().push(x));
            lemma_raw_line_push(l.last(), x, last.speaker, format);
            assert(n.map_values(g) == l.map_values(g).drop_last().push(g(l.last().push(x))));
            assert(l.map_values(g).last() == g(l.last()));
            assert(raw_turn(grown, format) == raw_turn(last, format).drop_last().push(
                raw_turn(last, format).last() + x.text,
            ));
            assert(before.last() == raw_turn(last, format).last());
            assert(after == before.drop_last().push(before.last() + x.text));
        }
    }
}

proof fn lemma_joined_push(p: Seq<Seq<char>>, x: Seq<char>, sep: Seq<char>)
    ensures
        joined(p.push(x), sep) == (if p.len() == 0 {
            x
        } else {
            joined(p, sep) + sep + x
        }),
{
    assert(p.push(x).drop_last() == p);
}

proof fn lemma_joined_extend(p: Seq<Seq<char>>, x: Seq<char>, sep: Seq<char>)
    requires
        p.len() > 0,
    ensures
        joined(p.drop_last().push(p.last() + x), sep) == joined(p, sep) + x,
{
    let q = p.drop_last().push(p.last() + x);
    assert(q.drop_last() == p.drop_last());
    if p.len() > 1 {
        let a = joined(p.drop_last(), sep) + sep;
        assert(a + (p.last() + x) == (a + p.last()) + x);
    }
}

/// What the writer remembers of the fragments written so far.
proof fn lemma_writer_state(s: Seq<SegmentView>, format: Format)
    ensures
        ({
            let w = writer_after(WriterView::fresh(format, false), s);
            let f = audible(s);
            &&& w.format == format
            &&& !w.needs_newline
            &&& w.last is Some <==> f.len() > 0
            &&& w.last matches Some(l) ==> l.at == f.last().at && l.source == f.last().source
                && l.speaker == known_speaker(f) && l.speaker == turns_of(f).last().speaker
        }),
    decreases s.len(),
{
    if s.len() > 0 {
        let d = s.drop_last();
        lemma_writer_state(d, format);
        let f = audible(d);
        let x = s.last();
        lemma_turn_speaker(f);
        if !is_blank(x.text) {
            lemma_turn_speaker(f.push(x));
            assert(f.push(x).drop_last() == f);
            let w = writer_after(WriterView::fresh(format, false), d);
            assert(w.opens(x) ==> opens_turn(f, x));
            assert(!w.opens(x) && opens_turn(f, x) ==> x.speaker is None && w.last->0.speaker is None);
        }
    }
}

/// Whether no fragment comes from another source than the one just before it
/// while nobody has been named on either side, in a layout that names no
/// sources.
pub open spec fn no_quiet_change(s: Seq<SegmentView>, format: Format) -> bool {
    format == Format::Labelled || forall|i: int|
        #![trigger audible(s)[i]]
        0 < i < audible(s).len() ==> {
            ||| audible(s)[i - 1].source == audible(s)[i].source
            ||| audible(s)[i].speaker is Some
            ||| known_speaker(audible(s).take(i)) is Some
            ||| audible(s)[i].at - audible(s)[i - 1].at >= NEW_LINE_AFTER_SILENCE
        }
}

/// A streamed file, in a stamped layout, is the lines of its turns with a
/// newline between each two.
pub proof fn lemma_streamed_lines(s: Seq<SegmentView>, format: Format)
    requires
        format != Format::Plain,
        no_quiet_change(s, format),
    ensures
        streamed(WriterView::fresh(format, false), s) == joined(
            raw_lines(turns_of(audible(s)), format),
            "\n"@,
        ),
    decreases s.len(),
{
    let w0 = WriterView::fresh(format, false);
    if s.len() == 0 {
        assert(raw_lines(turns_of(audible(s)), format) == Seq::<Seq<char>>::empty());
    } else {
        let d = s.drop_last();
        assert(no_quiet_change(d, format)) by {
            assert forall|i: int| format != Format::Labelled && 0 < i < audible(
                d,
            ).len() implies #[trigger] audible(d)[i] == audible(s)[i] && audible(d)[i - 1]
                == audible(s)[i - 1] && audible(d).take(i) == audible(s).take(i) by {}
        }
        lemma_streamed_lines(d, format);
        lemma_writer_state(d, format);
        let f = audible(d);
        let x = s.last();
        let w = writer_after(w0, d);
        let before = raw_lines(turns_of(f), format);
        if is_blank(x.text) {
            assert(streamed(w0, s) == streamed(w0, d) + Seq::<char>::empty());
            assert(streamed(w0, s) == streamed(w0, d));
        } else {
            lemma_raw_step(f, x, format);
            lemma_turn_speaker(f);
            if f.len() > 0 {
                assert(audible(s)[f.len() as int] == x);
                assert(audible(s).take(f.len() as int) == f);
            }
            assert(w.continues(x) <==> !opens_turn(f, x) && x.at - f.last().at
                < NEW_LINE_AFTER_SILENCE);
            let line = line_prefix(x, w.turn(x), format) + trim_start_of(x.text);
            if w.continues(x) {
                lemma_joined_extend(before, x.text, "\n"@);
                assert(w.written(x) == Seq::<char>::empty() + x.text);
                assert(w.written(x) == x.text);
            } else {
                lemma_joined_push(before, line, "\n"@);
                if f.len() > 0 {
                    assert(w.written(x) == Seq::<char>::empty() + "\n"@ + line_prefix(
                        x,
                        w.turn(x),
                        format,
                    ) + trim_start_of(x.text));
                    assert(w.written(x) == "\n"@ + line);
                    assert(joined(before, "\n"@) + "\n"@ + line == joined(before, "\n"@) + ("\n"@
                        + line));
                } else {
                    assert(w.written(x) == line);
                    assert(streamed(w0, d) == Seq::<char>::empty());
                    assert(Seq::<char>::empty() + line == line);
                }
            }
        }
    }
}

/// Whether no line made of one fragment ends in whitespace.
pub open spec fn no_ragged_line(s: Seq<SegmentView>, format: Format) -> bool {
    forall|i: int, j: int|
        #![trigger lines_of(turns_of(audible(s))[i].segments, format)[j]]
        0 <= i < turns_of(audible(s)).len() && 0 <= j < lines_of(
            turns_of(audible(s))[i].segments,
            format,
        ).len() ==> {
            let line = lines_of(turns_of(audible(s))[i].segments, format)[j];
            line.len() == 1 && line[0].text.len() > 0 ==> !is_white(line[0].text.last())
        }
}

proof fn lemma_trim_without_tail(s: Seq<char>)
    requires
        s.len() > 0,
        !is_white(s.last()),
    ensures
        trim_of(s) == trim_start_of(s),
{
    lemma_trim_start(s);
    let t = trim_start_of(s);
    if t.len() > 0 {
        assert(t.last() == s.last());
    }
}

proof fn lemma_raw_is_rendered(t: Seq<TurnView>, format: Format)
    requires
        forall|i: int, j: int|
            #![trigger lines_of(t[i].segments, format)[j]]
            0 <= i < t.len() && 0 <= j < lines_of(t[i].segments, format).len() ==> {
                let line = lines_of(t[i].segments, format)[j];
                line.len() == 1 && line[0].text.len() > 0 ==> !is_white(line[0].text.last())
            },
    ensures
        raw_lines(t, format) == all_lines(t, format),
    decreases t.len(),
{
    if t.len() > 0 {
        let d = t.drop_last();
        assert forall|i: int, j: int|
            #![trigger lines_of(d[i].segments, format)[j]]
            0 <= i < d.len() && 0 <= j < lines_of(d[i].segments, format).len() implies ({
            let line = lines_of(d[i].segments, format)[j];
            line.len() == 1 && line[0].text.len() > 0 ==> !is_white(line[0].text.last())
        }) by {
            assert(d[i] == t[i]);
            let line = lines_of(t[i].segments, format)[j];
        }
        lemma_raw_is_rendered(d, format);
        let last = t.last();
        let l = lines_of(last.segments, format);
        lemma_lines_nonempty(last.segments, format);
        assert forall|j: int| 0 <= j < l.len() implies raw_line(l[j], last.speaker, format)
            == rendered_line(l[j], last.speaker, format) by {
            let line = lines_of(t[t.len() - 1].segments, format)[j];
            assert(line == l[j]);
            let p = line_prefix(line[0], last.speaker, format);
            if line.len() == 1 {
                assert(line.skip(1) == Seq::<SegmentView>::empty());
                assert(prose(line.skip(1)) == Seq::<char>::empty());
                if line[0].text.len() > 0 {
                    lemma_trim_without_tail(line[0].text);
                } else {
                    assert(trim_start_of(line[0].text) == line[0].text);
                    assert(trim_of(line[0].text) == line[0].text);
                }
                assert(p + trim_start_of(line[0].text) + Seq::<char>::empty() == p + line_text(
                    line,
                ));
            } else {
                assert(p + trim_start_of(line[0].text) + prose(line.skip(1)) == p + (
                trim_start_of(line[0].text) + prose(line.skip(1))));
            }
        }
        assert(raw_turn(last, format) =~= turn_lines(last, format));
    }
}

/// A transcript saved at the end and one streamed as it was spoken are the same
/// text, in every stamped layout in which somebody has been named.
///
/// A line that is one fragment is the exception the statement leaves out when
/// that fragment ends in whitespace: saving trims it, and a stream cannot,
/// because when it writes the fragment the line may still be continued. So is a
/// change of source without a pause while nobody has been named, in a layout that
/// names no sources: saving breaks the line there because somebody is named
/// elsewhere, which a stream may not know yet.
pub proof fn lemma_streamed_agrees_with_saved(s: Seq<SegmentView>, format: Format)
    requires
        format != Format::Plain,
        has_speaker(s),
        no_ragged_line(s, format),
        no_quiet_change(s, format),
    ensures
        streamed(WriterView::fresh(format, false), s) == rendered(s, ""@, format),
{
    lemma_streamed_lines(s, format);
    lemma_raw_is_rendered(turns_of(audible(s)), format);
    assert(rendered(s, ""@, format) == stamped(s, format));
}

/// Plain prose is streamed word for word.
pub proof fn lemma_plain_is_streamed_verbatim(s: Seq<SegmentView>)
    ensures
        streamed(WriterView::fresh(Format::Plain, false), s) == prose(audible(s)),
    decreases s.len(),
{
    if s.len() > 0 {
        let d = s.drop_last();
        lemma_plain_is_streamed_verbatim(d);
        lemma_writer_state(d, Format::Plain);
        let w = writer_after(WriterView::fresh(Format::Plain, false), d);
        let x = s.last();
        if is_blank(x.text) {
            assert(prose(audible(d)) + Seq::<char>::empty() == prose(audible(d)));
        } else {
            lemma_prose_push(audible(d), x);
            assert(w.written(x) == Seq::<char>::empty() + x.text);
            assert(w.written(x) == x.text);
        }
    }
}

/// Resuming a file that did not end in a newline starts a new line before
/// anything else.
pub proof fn lemma_resuming_starts_a_line(format: Format, seg: SegmentView)
    requires
        !is_blank(seg.text),
    ensures
        WriterView::fresh(format, true).written(seg).len() > 0,
        WriterView::fresh(format, true).written(seg)[0] == '\n',
        !WriterView::fresh(format, true).after(seg).needs_newline,
{
    reveal_strlit("\n");
}

/// A fragment goes on the open line only while it belongs there: it came less
/// than a silence after the one before, nobody else is speaking, and no other
/// source would show.
pub proof fn lemma_a_line_goes_on_only_in_one_voice(w: WriterView, seg: SegmentView)
    ensures
        w.continues(seg) <==> (w.last matches Some(l) && seg.at - l.at < 1_500_000_000 && (
        seg.speaker is None || seg.speaker == l.speaker) && (l.source == seg.source || (w.format
            != Format::Labelled && seg.speaker is None && l.speaker is None))),
{
}

/// All that was committed reaches the file: what is written for a fragment ends
/// with its words, and in prose it is nothing but them. Nothing is written for a
/// fragment that says nothing.
pub proof fn lemma_a_fragment_is_written_whole(w: WriterView, seg: SegmentView)
    ensures
        is_blank(seg.text) ==> w.written(seg).len() == 0 && w.after(seg) == w,
        !is_blank(seg.text) ==> ({
            let out = w.written(seg);
            let gap = if w.needs_newline {
                1int
            } else {
                0
            };
            &&& text::ends(out, trim_start_of(seg.text))
            &&& w.format == Format::Plain || w.continues(seg) ==> text::ends(out, seg.text)
                && out.len() == gap + seg.text.len()
            &&& w.needs_newline ==> out[0] == '\n'
        }),
{
    reveal_strlit("\n");
    if !is_blank(seg.text) {
        let out = w.written(seg);
        let t = trim_start_of(seg.text);
        lemma_trim_start(seg.text);
        if w.format == Format::Plain || w.continues(seg) {
            assert(out.skip(out.len() - seg.text.len()) =~= seg.text);
        }
        assert(out.skip(out.len() - t.len()) =~= t);
    }
}

/// A line that is opened in a stamped layout opens with the fragment's own time
/// and, where the layout names sources, its own source; a line opened after
/// another is parted from it by a line break.
pub proof fn lemma_an_opened_line_is_stamped(w: WriterView, seg: SegmentView)
    requires
        !is_blank(seg.text),
        w.format != Format::Plain,
        !w.continues(seg),
    ensures
        ({
            let out = w.written(seg);
            let breaks = (if w.needs_newline {
                1int
            } else {
                0
            }) + (if w.last is Some {
                1int
            } else {
                0
            });
            let line = out.skip(breaks);
            &&& forall|i: int| 0 <= i < breaks ==> #[trigger] out[i] == '\n'
            &&& text::begins(line, crate::client::save::stamp_of(seg.at) + " "@)
            &&& w.format == Format::Labelled && seg.source is Some ==> text::occurs_in(
                "["@ + seg.source->0 + "]"@,
                line,
            )
            &&& seg.speaker is Some ==> text::occurs_in(
                crate::client::save::speaker_prefix(seg.speaker),
                line,
            )
        }),
{
    reveal_strlit("\n");
    reveal_strlit("[");
    reveal_strlit("]");
    reveal_strlit("] ");
    let out = w.written(seg);
    let breaks = (if w.needs_newline {
        1int
    } else {
        0
    }) + (if w.last is Some {
        1int
    } else {
        0
    });
    let line = out.skip(breaks);
    let t = trim_start_of(seg.text);
    let head = crate::client::save::stamp_of(seg.at) + " "@;
    let src = crate::client::save::source_prefix(seg.source, w.format);
    let who = crate::client::save::speaker_prefix(w.turn(seg));
    assert(line =~= head + src + who + t);
    assert(line.take(head.len() as int) =~= head);
    if w.format == Format::Labelled && seg.source is Some {
        let tag = "["@ + seg.source->0 + "]"@;
        assert(src =~= tag.push(' '));
        let i: int = head.len() as int;
        assert(line.subrange(i, i + tag.len()) =~= tag);
    }
    if seg.speaker is Some {
        assert(w.turn(seg) == seg.speaker);
        let i: int = (head + src).len() as int;
        assert(line.subrange(i, i + who.len()) =~= who);
    }
}

/// What is remembered of a fragment is its own time and source, and who is
/// speaking: whoever it names, or while it names nobody and its turn goes on,
/// whoever was.
pub proof fn lemma_the_writer_remembers_the_last_fragment(w: WriterView, seg: SegmentView)
    requires
        !is_blank(seg.text),
    ensures
        w.after(seg).last is Some,
        w.after(seg).last->0.at == seg.at,
        w.after(seg).last->0.source == seg.source,
        seg.speaker is Some ==> w.after(seg).last->0.speaker == seg.speaker,
        (seg.speaker is None && (w.last matches Some(l) && l.source == seg.source)) ==> w.after(
            seg,
        ).last->0.speaker == w.last->0.speaker,
        (seg.speaker is None && (w.last matches Some(l) && l.source != seg.source)) ==> w.after(
            seg,
        ).last->0.speaker is None,
        w.after(seg).format == w.format,
        !w.after(seg).needs_newline,
{
}

} // verus!
