//! What to do with transcribed text, and with several sources at once.

use crate::proto::Mode as WireMode;
use crate::text;
use vstd::prelude::*;

verus! {

/// What the client does with text as it arrives.
#[derive(Debug, Clone, Copy, PartialEq, Eq, Structural)]
pub enum OutputMode {
    /// Accumulate a transcript for the caller to read or save. Nothing is typed.
    Transcribe,
    /// Type at the cursor as text arrives. Nothing is accumulated for display.
    Type,
    /// Both: keep a transcript and type it.
    Both,
}

/// Typing at the cursor is what a fresh install does.
impl Default for OutputMode {
    fn default() -> (r: OutputMode)
        ensures
            r == OutputMode::Type,
    {
        OutputMode::Type
    }
}

impl OutputMode {
    pub const ALL: [OutputMode; 3] = [OutputMode::Transcribe, OutputMode::Type, OutputMode::Both];

    pub open spec fn label_of(self) -> Seq<char> {
        match self {
            OutputMode::Transcribe => "Transcribe"@,
            OutputMode::Type => "Type at cursor"@,
            OutputMode::Both => "Transcribe + type"@,
        }
    }

    pub fn label(self) -> (r: &'static str)
        ensures
            r@ == self.label_of(),
    {
        match self {
            OutputMode::Transcribe => "Transcribe",
            OutputMode::Type => "Type at cursor",
            OutputMode::Both => "Transcribe + type",
        }
    }

    pub open spec fn name_of(self) -> Seq<char> {
        match self {
            OutputMode::Transcribe => "transcribe"@,
            OutputMode::Type => "type"@,
            OutputMode::Both => "both"@,
        }
    }

    /// The value as written in the config file.
    pub fn name(self) -> (r: &'static str)
        ensures
            r@ == self.name_of(),
    {
        match self {
            OutputMode::Transcribe => "transcribe",
            OutputMode::Type => "type",
            OutputMode::Both => "both",
        }
    }

    /// The mode a config file names: the one whose name it is.
    pub fn named(s: &str) -> (r: Option<OutputMode>)
        ensures
            forall|m: OutputMode| r == Some(m) <==> #[trigger] m.name_of() == s@,
    {
        let r = if text::same(s, "transcribe") {
            Some(OutputMode::Transcribe)
        } else if text::same(s, "type") {
            Some(OutputMode::Type)
        } else if text::same(s, "both") {
            Some(OutputMode::Both)
        } else {
            None
        };
        proof {
            lemma_mode_names_differ();
            assert(r matches Some(m) ==> m.name_of() == s@);
            assert forall|m: OutputMode| r == Some(m) <==> #[trigger] m.name_of() == s@ by {
                if r is None {
                    assert(m.name_of() != s@);
                }
            }
        }
        r
    }

    pub open spec fn summary_of(self) -> Seq<char> {
        match self {
            OutputMode::Transcribe => "keep a transcript to read or save. Types nothing"@,
            OutputMode::Type => "type at the cursor as you speak. Keeps nothing"@,
            OutputMode::Both => "type at the cursor and keep a transcript"@,
        }
    }

    /// One line for the generated config.
    pub fn summary(self) -> (r: &'static str)
        ensures
            r@ == self.summary_of(),
    {
        match self {
            OutputMode::Transcribe => "keep a transcript to read or save. Types nothing",
            OutputMode::Type => "type at the cursor as you speak. Keeps nothing",
            OutputMode::Both => "type at the cursor and keep a transcript",
        }
    }

    pub open spec fn types(self) -> bool {
        self == OutputMode::Type || self == OutputMode::Both
    }

    pub fn types_at_cursor(self) -> (r: bool)
        ensures
            r == self.types(),
    {
        matches!(self, OutputMode::Type | OutputMode::Both)
    }

    pub open spec fn keeps(self) -> bool {
        self == OutputMode::Transcribe || self == OutputMode::Both
    }

    pub fn keeps_transcript(self) -> (r: bool)
        ensures
            r == self.keeps(),
    {
        matches!(self, OutputMode::Transcribe | OutputMode::Both)
    }

    pub open spec fn wire(self) -> WireMode {
        if self.types() {
            WireMode::Live
        } else {
            WireMode::Transcript
        }
    }

    /// Which protocol mode this output mode requires.
    ///
    /// Anything that types must run the wire session in [`WireMode::Live`],
    /// which is append-only. Keystrokes cannot be safely retracted: by the time
    /// a revision arrived the user may have typed or moved the cursor.
    pub fn wire_mode(self) -> (r: WireMode)
        ensures
            r == self.wire(),
    {
        if self.types_at_cursor() {
            WireMode::Live
        } else {
            WireMode::Transcript
        }
    }
}

/// Every mode does something with the text, and a mode may accept revisions
/// exactly when it types nothing.
pub proof fn lemma_typing_is_append_only(m: OutputMode)
    ensures
        m.types() || m.keeps(),
        m.wire() == WireMode::Live <==> m.types(),
        m.wire() == WireMode::Transcript ==> m.keeps(),
{
}

/// How several sources are combined.
#[derive(Debug, Clone, Copy, PartialEq, Eq, Structural)]
pub enum SourceMode {
    /// One session fed by a mix of every source.
    Combined,
    /// One session per source, each labelled.
    Separate,
}

impl Default for SourceMode {
    fn default() -> (r: SourceMode)
        ensures
            r == SourceMode::Combined,
    {
        SourceMode::Combined
    }
}

/// No two modes share a name.
pub proof fn lemma_mode_names_differ()
    ensures
        forall|a: OutputMode, b: OutputMode| a.name_of() == b.name_of() ==> a == b,
{
    reveal_strlit("transcribe");
    reveal_strlit("type");
    reveal_strlit("both");
    assert("transcribe"@.len() != "type"@.len());
    assert("transcribe"@[0] == 't' && "type"@[0] == 't' && "both"@[0] == 'b');
}

/// What each mode does with text: all but one type it, all but one keep it, and
/// only the mode that types nothing lets the server revise it.
pub proof fn lemma_what_each_mode_does(m: OutputMode)
    ensures
        m.types() <==> m != OutputMode::Transcribe,
        m.keeps() <==> m != OutputMode::Type,
        m.wire() == WireMode::Transcript <==> m == OutputMode::Transcribe,
{
}

} // verus!
