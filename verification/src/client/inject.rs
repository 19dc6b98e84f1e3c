//! Typing text at the cursor.
//!
//! Append-only by design. Live sessions never emit revisions, so there is no
//! retraction path here -- which is the whole point of that constraint. Typing
//! goes into whatever window has focus, where deleting characters could destroy
//! whatever the user typed in the meantime.

use crate::client::windows_input::{keys_of, type_keys, Key};
use crate::platform::Platform;
use crate::text::{self, joined, texts};
use vstd::prelude::*;

verus! {

/// How text is delivered to the focused window.
#[derive(Debug, Clone, Copy, PartialEq, Eq, Structural)]
pub enum Method {
    /// Whatever is right for the platform this is running on.
    ///
    /// The default, and the reason a single config file works on every
    /// machine: the *setting* is identical everywhere, and only its
    /// resolution differs.
    Auto,
    /// `wtype`, the Wayland virtual-keyboard protocol.
    ///
    /// Correct for most native Wayland applications. It fails in Electron and
    /// Chromium apps, which re-evaluate focus when input devices appear.
    Wtype,
    /// `ydotool`, writing to `/dev/uinput`.
    ///
    /// A kernel-level virtual device, indistinguishable from a real keyboard.
    /// Needs the `ydotoold` daemon running and access to `/dev/uinput`.
    Ydotool,
    /// Copy to the clipboard and send Ctrl+V.
    ///
    /// It briefly replaces the clipboard, restoring it afterwards, and
    /// terminals need Ctrl+Shift+V so they are not a good fit.
    Paste,
    /// The Win32 `SendInput` API: Unicode key events that bypass the keyboard
    /// layout entirely.
    SendInput,
}

impl Default for Method {
    fn default() -> (r: Method)
        ensures
            r == Method::Auto,
    {
        Method::Auto
    }
}

/// What [`Method::Auto`] means on a machine.
pub open spec fn auto_of(here: Platform, ydotoold: bool) -> Method {
    if here == Platform::Windows {
        Method::SendInput
    } else if ydotoold {
        Method::Ydotool
    } else {
        Method::Wtype
    }
}

pub fn auto(here: Platform, ydotoold: bool) -> (r: Method)
    ensures
        r == auto_of(here, ydotoold),
{
    if here == Platform::Windows {
        return Method::SendInput;
    }
    if ydotoold {
        return Method::Ydotool;
    }
    Method::Wtype
}

/// What [`Method::Auto`] came to, kept once it is known: this is asked once per
/// fragment of a transcript, and the answer must not change under a session.
#[derive(Debug, Clone, Copy, PartialEq, Eq, Structural)]
pub struct AutoChoice {
    pub settled: Option<Method>,
}

impl AutoChoice {
    /// It is settled on a concrete method only.
    pub open spec fn wf(self) -> bool {
        self.settled != Some(Method::Auto)
    }

    pub fn new() -> (r: AutoChoice)
        ensures
            r.wf(),
            r.settled is None,
    {
        AutoChoice { settled: None }
    }

    /// What it is settled on, or would be now.
    pub open spec fn of(self, here: Platform, ydotoold: bool) -> Method {
        match self.settled {
            Some(m) => m,
            None => auto_of(here, ydotoold),
        }
    }

    pub open spec fn after(self, here: Platform, ydotoold: bool) -> AutoChoice {
        AutoChoice { settled: Some(self.of(here, ydotoold)) }
    }

    /// Whether settling it takes a look at ydotoold.
    pub open spec fn is_open(self, here: Platform) -> bool {
        self.settled is None && here != Platform::Windows
    }

    pub fn asks(&self, here: Platform) -> (r: bool)
        ensures
            r == self.is_open(here),
    {
        self.settled.is_none() && here != Platform::Windows
    }

    /// Settle it, if it is not.
    pub fn settle(&mut self, here: Platform, ydotoold: bool) -> (r: Method)
        requires
            old(self).wf(),
        ensures
            final(self).wf(),
            r != Method::Auto,
            r == old(self).of(here, ydotoold),
            *final(self) == old(self).after(here, ydotoold),
    {
        match self.settled {
            Some(m) => m,
            None => {
                let m = auto(here, ydotoold);
                self.settled = Some(m);
                m
            },
        }
    }
}

/// The names of the methods that work on a machine, as a config file would
/// list them.
pub open spec fn usable_of(methods: Seq<Method>, here: Platform) -> Seq<Seq<char>>
    decreases methods.len(),
{
    if methods.len() == 0 {
        Seq::empty()
    } else {
        let rest = usable_of(methods.drop_last(), here);
        if methods.last().supported(here) {
            rest.push(methods.last().name_of())
        } else {
            rest
        }
    }
}

impl Method {
    pub const ALL: [Method; 5] = [
        Method::Auto,
        Method::Wtype,
        Method::Ydotool,
        Method::Paste,
        Method::SendInput,
    ];

    pub open spec fn resolved(self, choice: AutoChoice, here: Platform, ydotoold: bool) -> Method {
        if self == Method::Auto {
            choice.of(here, ydotoold)
        } else {
            self
        }
    }

    /// What is left of a choice once this method was resolved by it.
    pub open spec fn settles(
        self,
        choice: AutoChoice,
        here: Platform,
        ydotoold: bool,
    ) -> AutoChoice {
        if self == Method::Auto {
            choice.after(here, ydotoold)
        } else {
            choice
        }
    }

    /// The concrete method to use on this machine.
    ///
    /// Only [`Method::Auto`] changes; anything chosen explicitly is honoured
    /// as written, and fails loudly in preflight if it cannot work here.
    pub fn resolve(self, choice: &mut AutoChoice, here: Platform, ydotoold: bool) -> (r: Method)
        requires
            old(choice).wf(),
        ensures
            final(choice).wf(),
            r != Method::Auto,
            r == self.resolved(*old(choice), here, ydotoold),
            *final(choice) == self.settles(*old(choice), here, ydotoold),
    {
        match self {
            Method::Auto => choice.settle(here, ydotoold),
            other => other,
        }
    }

    pub open spec fn label_of(self) -> Seq<char> {
        match self {
            Method::Wtype => "wtype (Wayland)"@,
            Method::Ydotool => "ydotool (uinput)"@,
            Method::Paste => "clipboard paste"@,
            Method::SendInput => "SendInput (Win32)"@,
            Method::Auto => "automatic"@,
        }
    }

    pub fn label(self) -> (r: &'static str)
        ensures
            r@ == self.label_of(),
    {
        match self {
            Method::Wtype => "wtype (Wayland)",
            Method::Ydotool => "ydotool (uinput)",
            Method::Paste => "clipboard paste",
            Method::SendInput => "SendInput (Win32)",
            Method::Auto => "automatic",
        }
    }

    pub open spec fn name_of(self) -> Seq<char> {
        match self {
            Method::Wtype => "wtype"@,
            Method::Ydotool => "ydotool"@,
            Method::Paste => "paste"@,
            Method::SendInput => "sendinput"@,
            Method::Auto => "auto"@,
        }
    }

    /// The value as written in the config file.
    pub fn name(self) -> (r: &'static str)
        ensures
            r@ == self.name_of(),
    {
        match self {
            Method::Wtype => "wtype",
            Method::Ydotool => "ydotool",
            Method::Paste => "paste",
            Method::SendInput => "sendinput",
            Method::Auto => "auto",
        }
    }

    /// The method a config file names: the one whose name it is.
    pub fn named(s: &str) -> (r: Option<Method>)
        ensures
            forall|m: Method| r == Some(m) <==> #[trigger] m.name_of() == s@,
    {
        let r = if text::same(s, "auto") {
            Some(Method::Auto)
        } else if text::same(s, "wtype") {
            Some(Method::Wtype)
        } else if text::same(s, "ydotool") {
            Some(Method::Ydotool)
        } else if text::same(s, "paste") {
            Some(Method::Paste)
        } else if text::same(s, "sendinput") {
            Some(Method::SendInput)
        } else {
            None
        };
        proof {
            lemma_method_names_differ();
            assert(r matches Some(m) ==> m.name_of() == s@);
            assert forall|m: Method| r == Some(m) <==> #[trigger] m.name_of() == s@ by {
                if r is None {
                    assert(m.name_of() != s@);
                }
            }
        }
        r
    }

    pub open spec fn summary_of(self) -> Seq<char> {
        match self {
            Method::Wtype => "[Linux] Wayland virtual keyboard. Fails in Electron apps"@,
            Method::Ydotool => "[Linux] kernel uinput. Works in Electron, needs ydotoold"@,
            Method::Paste => "[Linux] clipboard then Ctrl+V. Wrong for terminals"@,
            Method::SendInput => "[Windows] layout-independent Unicode key events"@,
            Method::Auto => "the right one for this machine. Start here"@,
        }
    }

    /// One line for the generated config, explaining when to pick this.
    pub fn summary(self) -> (r: &'static str)
        ensures
            r@ == self.summary_of(),
    {
        match self {
            Method::Wtype => "[Linux] Wayland virtual keyboard. Fails in Electron apps",
            Method::Ydotool => "[Linux] kernel uinput. Works in Electron, needs ydotoold",
            Method::Paste => "[Linux] clipboard then Ctrl+V. Wrong for terminals",
            Method::SendInput => "[Windows] layout-independent Unicode key events",
            Method::Auto => "the right one for this machine. Start here",
        }
    }

    pub open spec fn supported(self, here: Platform) -> bool {
        match self {
            Method::Auto => true,
            Method::SendInput => here == Platform::Windows,
            _ => here == Platform::Linux,
        }
    }

    /// Whether this method can work on the platform now running.
    pub fn supported_here(self, here: Platform) -> (r: bool)
        ensures
            r == self.supported(here),
    {
        match self {
            Method::Auto => true,
            Method::Wtype | Method::Ydotool | Method::Paste => here == Platform::Linux,
            Method::SendInput => here == Platform::Windows,
        }
    }

    pub open spec fn binary_of(self) -> Option<Seq<char>> {
        match self {
            Method::Wtype => Some("wtype"@),
            Method::Ydotool => Some("ydotool"@),
            Method::Paste => Some("wl-copy"@),
            _ => None,
        }
    }

    /// The command this method needs on PATH, if it needs one.
    ///
    /// `SendInput` is an API call rather than a process, so it has none.
    pub fn binary(self) -> (r: Option<&'static str>)
        ensures
            match r {
                Some(b) => self.binary_of() == Some(b@),
                None => self.binary_of() is None,
            },
    {
        match self {
            Method::Wtype => Some("wtype"),
            Method::Ydotool => Some("ydotool"),
            Method::Paste => Some("wl-copy"),
            Method::SendInput | Method::Auto => None,
        }
    }
}

/// What has to be done to type a piece of text.
pub enum Typing {
    /// Nothing: there is no text.
    Nothing,
    /// Run a command.
    Run { program: String, args: Vec<String> },
    /// Go through the clipboard; see [`paste`].
    Paste,
    /// Send key events.
    Keys(Vec<Key>),
    /// The method does not exist on this platform.
    Refused(String),
}

/// Whether `t` is how `text` is typed with the method `m`.
///
/// Commands are given `--` before the text, so text beginning with a dash is
/// not taken for a flag.
pub open spec fn types_as(t: Typing, text: Seq<char>, m: Method, here: Platform) -> bool {
    if text.len() == 0 {
        t is Nothing
    } else {
        match m {
            Method::Wtype => t matches Typing::Run { program, args } && program@ == "wtype"@
                && texts(args@) == seq!["--"@, text],
            Method::Ydotool => t matches Typing::Run { program, args } && program@ == "ydotool"@
                && texts(args@) == seq!["type"@, "--key-delay"@, "0"@, "--"@, text],
            Method::Paste => t is Paste,
            Method::SendInput => if here == Platform::Windows {
                t matches Typing::Keys(k) && k@ == keys_of(text)
            } else {
                t matches Typing::Refused(e) && e@ == "the `sendinput` method is Windows-only"@
            },
            Method::Auto => false,
        }
    }
}

/// Type via the Win32 `SendInput` API.
fn send_input(text: &str, here: Platform) -> (r: Typing)
    ensures
        if here == Platform::Windows {
            r matches Typing::Keys(k) && k@ == keys_of(text@)
        } else {
            r matches Typing::Refused(e) && e@ == "the `sendinput` method is Windows-only"@
        },
{
    if here == Platform::Windows {
        Typing::Keys(type_keys(text))
    } else {
        Typing::Refused("the `sendinput` method is Windows-only".to_owned())
    }
}

/// How to type `text` at the cursor. Nothing is resolved for no text.
pub fn type_text(
    text: &str,
    method: Method,
    choice: &mut AutoChoice,
    here: Platform,
    ydotoold: bool,
) -> (r: Typing)
    requires
        old(choice).wf(),
    ensures
        final(choice).wf(),
        types_as(r, text@, method.resolved(*old(choice), here, ydotoold), here),
        *final(choice) == (if text@.len() == 0 {
            *old(choice)
        } else {
            method.settles(*old(choice), here, ydotoold)
        }),
{
    if text::chars_of(text).len() == 0 {
        return Typing::Nothing;
    }
    match method.resolve(choice, here, ydotoold) {
        Method::Wtype => {
            let mut args: Vec<String> = Vec::new();
            args.push("--".to_owned());
            args.push(text.to_owned());
            assert(texts(args@) =~= seq!["--"@, text@]);
            Typing::Run { program: "wtype".to_owned(), args }
        },
        Method::Ydotool => {
            let mut args: Vec<String> = Vec::new();
            args.push("type".to_owned());
            args.push("--key-delay".to_owned());
            args.push("0".to_owned());
            args.push("--".to_owned());
            args.push(text.to_owned());
            assert(texts(args@) =~= seq!["type"@, "--key-delay"@, "0"@, "--"@, text@]);
            Typing::Run { program: "ydotool".to_owned(), args }
        },
        Method::Paste => Typing::Paste,
        Method::SendInput => send_input(text, here),
        Method::Auto => Typing::Nothing,
    }
}

/// One step of typing through the clipboard.
#[derive(Debug, Clone, Copy, PartialEq, Eq, Structural)]
pub enum PasteStep {
    /// Put the text on the clipboard with `wl-copy`. A failure ends the paste.
    Copy,
    /// Press Ctrl+V with `wtype -M ctrl -k v -m ctrl`. A failure ends the paste.
    Press,
    /// Give the application this many milliseconds to read the clipboard.
    Wait(u64),
    /// Put back what the clipboard held. A failure changes nothing.
    Restore,
}

/// Copy to the clipboard, paste, and put the clipboard back if it held
/// anything that could be read.
pub fn paste(held_something: bool) -> (r: Vec<PasteStep>)
    ensures
        r@ == (if held_something {
            seq![PasteStep::Copy, PasteStep::Press, PasteStep::Wait(120), PasteStep::Restore]
        } else {
            seq![PasteStep::Copy, PasteStep::Press]
        }),
{
    let mut steps: Vec<PasteStep> = Vec::new();
    steps.push(PasteStep::Copy);
    steps.push(PasteStep::Press);
    if held_something {
        steps.push(PasteStep::Wait(120));
        steps.push(PasteStep::Restore);
    }
    steps
}

/// What looking for a command came to.
pub enum Probe {
    Found,
    Missing,
    /// It could not be run, and why.
    Failed(String),
}

/// The names of every method usable on a machine.
pub open spec fn usable(here: Platform) -> Seq<Seq<char>> {
    usable_of(
        seq![Method::Auto, Method::Wtype, Method::Ydotool, Method::Paste, Method::SendInput],
        here,
    )
}

fn usable_names(here: Platform) -> (r: Vec<String>)
    ensures
        texts(r@) == usable(here),
{
    let all = Method::ALL;
    let ghost m = seq![
        Method::Auto,
        Method::Wtype,
        Method::Ydotool,
        Method::Paste,
        Method::SendInput,
    ];
    assert(all@ =~= m);
    let mut out: Vec<String> = Vec::new();
    let mut i: usize = 0;
    assert(texts(out@) == usable_of(m.take(0), here));
    while i < 5
        invariant
            i <= 5,
            all@ == m,
            m.len() == 5,
            texts(out@) == usable_of(m.take(i as int), here),
        decreases 5 - i,
    {
        assert(m.take(i + 1).drop_last() == m.take(i as int));
        let ghost was = out@;
        if all[i].supported_here(here) {
            out.push(all[i].name().to_owned());
            assert(texts(out@) == texts(was).push(m[i as int].name_of()));
        }
        i += 1;
    }
    assert(m.take(5) == m);
    out
}

/// Why a method cannot be used, if it cannot; `m` is already resolved, and
/// `running` is whether ydotoold runs now.
pub open spec fn preflight_of(
    m: Method,
    here: Platform,
    running: bool,
    probe: Probe,
) -> Result<(), Seq<char>> {
    if !m.supported(here) {
        Err(
            "`inject = \""@ + m.name_of() + "\"` does not work on this platform. Use one of: "@
                + joined(usable(here), ", "@),
        )
    } else if m.binary_of() is Some && probe is Missing {
        Err(m.binary_of()->0 + " not found on PATH; it is required for "@ + m.label_of())
    } else if m.binary_of() is Some && probe is Failed {
        Err("checking for "@ + m.binary_of()->0 + ": "@ + probe->0@)
    } else if m == Method::Ydotool && !running {
        Err(
            "ydotoold is not running. Start it with `systemctl --user start ydotool` (or run `ydotoold` directly); ydotool cannot type without it."@,
        )
    } else {
        Ok(())
    }
}

/// Check the chosen method can work, before a session starts.
///
/// Surfaces a missing tool up front rather than after the user has spoken a
/// sentence into a session that was never going to type anything. `probe` is
/// what running the method's command came to; it is not looked at for a method
/// that has none.
///
/// `ydotoold` is what `auto` is settled by where it is not yet, and `running`
/// what is found now: a daemon that has since gone is refused here.
pub fn preflight(
    method: Method,
    choice: &mut AutoChoice,
    here: Platform,
    ydotoold: bool,
    running: bool,
    probe: &Probe,
) -> (r: Result<(), String>)
    requires
        old(choice).wf(),
    ensures
        final(choice).wf(),
        match (r, preflight_of(
            method.resolved(*old(choice), here, ydotoold),
            here,
            running,
            *probe,
        )) {
            (Ok(_), Ok(_)) => true,
            (Err(e), Err(why)) => e@ == why,
            _ => false,
        },
        *final(choice) == method.settles(*old(choice), here, ydotoold),
{
    let m = method.resolve(choice, here, ydotoold);
    if !m.supported_here(here) {
        let names = usable_names(here);
        let mut e = "`inject = \"".to_owned();
        e.append(m.name());
        e.append("\"` does not work on this platform. Use one of: ");
        let list = text::join(&names, ", ");
        e.append(list.as_str());
        return Err(e);
    }
    if let Some(bin) = m.binary() {
        match probe {
            Probe::Found => {},
            Probe::Missing => {
                let mut e = bin.to_owned();
                e.append(" not found on PATH; it is required for ");
                e.append(m.label());
                return Err(e);
            },
            Probe::Failed(why) => {
                let mut e = "checking for ".to_owned();
                e.append(bin);
                e.append(": ");
                e.append(why.as_str());
                return Err(e);
            },
        }
    }
    if m == Method::Ydotool && !running {
        return Err(
            "ydotoold is not running. Start it with `systemctl --user start ydotool` (or run `ydotoold` directly); ydotool cannot type without it.".to_owned(),
        );
    }
    Ok(())
}

/// `auto` always resolves to a concrete method, and on Linux and Windows to
/// one that works there.
pub proof fn lemma_auto_works(here: Platform, ydotoold: bool)
    ensures
        auto_of(here, ydotoold) != Method::Auto,
        here != Platform::Other ==> auto_of(here, ydotoold).supported(here),
{
}

/// An explicit choice is never second-guessed.
pub proof fn lemma_explicit_choice_is_kept(
    m: Method,
    choice: AutoChoice,
    here: Platform,
    ydotoold: bool,
)
    requires
        m != Method::Auto,
    ensures
        m.resolved(choice, here, ydotoold) == m,
        m.settles(choice, here, ydotoold) == choice,
{
}

/// Once `auto` was resolved it keeps its answer: whatever becomes of ydotoold,
/// and whatever else is resolved after it, it means what it meant the first
/// time.
pub proof fn lemma_auto_is_settled_once(
    choice: AutoChoice,
    here: Platform,
    first: bool,
    other: Method,
    later: bool,
    last: bool,
)
    ensures
        ({
            let once = Method::Auto.settles(choice, here, first);
            let then_on = other.settles(once, here, later);
            &&& then_on == once
            &&& Method::Auto.resolved(then_on, here, last) == Method::Auto.resolved(
                choice,
                here,
                first,
            )
        }),
{
}

/// No two methods share a name.
pub proof fn lemma_method_names_differ()
    ensures
        forall|a: Method, b: Method| a.name_of() == b.name_of() ==> a == b,
{
    reveal_strlit("wtype");
    reveal_strlit("ydotool");
    reveal_strlit("paste");
    reveal_strlit("sendinput");
    reveal_strlit("auto");
    assert("wtype"@[0] == 'w' && "ydotool"@[0] == 'y' && "paste"@[0] == 'p' && "sendinput"@[0]
        == 's' && "auto"@[0] == 'a');
}

/// Where each method works: the commands on Linux, the key events on Windows,
/// and `auto` everywhere.
pub proof fn lemma_where_each_method_works(here: Platform)
    ensures
        Method::Auto.supported(here),
        Method::Wtype.supported(here) <==> here == Platform::Linux,
        Method::Ydotool.supported(here) <==> here == Platform::Linux,
        Method::Paste.supported(here) <==> here == Platform::Linux,
        Method::SendInput.supported(here) <==> here == Platform::Windows,
{
}

/// `auto` is key events on Windows; elsewhere it is ydotool while its daemon
/// runs and wtype while it does not.
pub proof fn lemma_what_auto_means(here: Platform, ydotoold: bool)
    ensures
        auto_of(here, ydotoold) == Method::SendInput <==> here == Platform::Windows,
        auto_of(here, ydotoold) == Method::Ydotool <==> here != Platform::Windows && ydotoold,
        auto_of(here, ydotoold) == Method::Wtype <==> here != Platform::Windows && !ydotoold,
{
}

proof fn lemma_usable_push(methods: Seq<Method>, m: Method, here: Platform)
    ensures
        usable_of(methods.push(m), here) == (if m.supported(here) {
            usable_of(methods, here).push(m.name_of())
        } else {
            usable_of(methods, here)
        }),
{
    assert(methods.push(m).drop_last() =~= methods);
}

/// A machine is told of every method that works on it, each by its name, and of
/// no other.
pub proof fn lemma_what_can_be_used(here: Platform)
    ensures
        here == Platform::Linux ==> usable(here) == seq!["auto"@, "wtype"@, "ydotool"@, "paste"@],
        here == Platform::Windows ==> usable(here) == seq!["auto"@, "sendinput"@],
        here == Platform::Other ==> usable(here) == seq!["auto"@],
{
    let none = Seq::<Method>::empty();
    let a = none.push(Method::Auto);
    let b = a.push(Method::Wtype);
    let c = b.push(Method::Ydotool);
    let d = c.push(Method::Paste);
    let e = d.push(Method::SendInput);
    lemma_usable_push(none, Method::Auto, here);
    lemma_usable_push(a, Method::Wtype, here);
    lemma_usable_push(b, Method::Ydotool, here);
    lemma_usable_push(c, Method::Paste, here);
    lemma_usable_push(d, Method::SendInput, here);
    assert(usable_of(none, here) =~= Seq::<Seq<char>>::empty());
    assert(e =~= seq![
        Method::Auto,
        Method::Wtype,
        Method::Ydotool,
        Method::Paste,
        Method::SendInput,
    ]);
}

/// Text is typed whole and by the method chosen: a command is given it as its
/// last argument, behind the marker that ends its options, and nothing is run
/// for no text.
pub proof fn lemma_text_is_typed_whole(t: Typing, text: Seq<char>, m: Method, here: Platform)
    requires
        types_as(t, text, m, here),
    ensures
        t is Nothing <==> text.len() == 0,
        t matches Typing::Run { program, args } ==> {
            &&& args@.len() >= 2
            &&& args@.last()@ == text
            &&& args@[args@.len() - 2]@ == "--"@
            &&& Some(program@) == m.binary_of()
            &&& m == Method::Wtype ==> args@.len() == 2
        },
        text.len() > 0 && (m == Method::Wtype || m == Method::Ydotool) ==> t is Run,
        text.len() > 0 && m == Method::Paste ==> t is Paste,
        text.len() > 0 && m == Method::SendInput && here == Platform::Windows ==> t is Keys,
        text.len() > 0 && m == Method::SendInput && here != Platform::Windows ==> t is Refused,
{
    if let Typing::Run { program, args } = t {
        assert(texts(args@).last() == args@.last()@);
        assert(texts(args@)[args@.len() - 2] == args@[args@.len() - 2]@);
    }
}

/// A method may be used if and only if it works on the machine, its command was
/// found if it needs one, and ydotool's daemon runs if it is ydotool.
pub proof fn lemma_when_a_method_may_be_used(
    m: Method,
    here: Platform,
    running: bool,
    probe: Probe,
)
    ensures
        preflight_of(m, here, running, probe) is Ok <==> match m {
            Method::Auto => true,
            Method::SendInput => here == Platform::Windows,
            Method::Ydotool => here == Platform::Linux && probe is Found && running,
            _ => here == Platform::Linux && probe is Found,
        },
        m == Method::Wtype && here == Platform::Linux && probe is Missing ==> preflight_of(
            m,
            here,
            running,
            probe,
        ) == Err::<(), Seq<char>>(
            "wtype"@ + " not found on PATH; it is required for "@ + m.label_of(),
        ),
        m == Method::Ydotool && here == Platform::Linux && probe is Missing ==> preflight_of(
            m,
            here,
            running,
            probe,
        ) == Err::<(), Seq<char>>(
            "ydotool"@ + " not found on PATH; it is required for "@ + m.label_of(),
        ),
        m == Method::Paste && here == Platform::Linux && probe is Missing ==> preflight_of(
            m,
            here,
            running,
            probe,
        ) == Err::<(), Seq<char>>(
            "wl-copy"@ + " not found on PATH; it is required for "@ + m.label_of(),
        ),
{
}

} // verus!
