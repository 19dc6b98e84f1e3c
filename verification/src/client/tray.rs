//! The system tray: what it shows, and what its menu asks for.

use crate::client::mode::OutputMode;
use crate::client::session::Status;
use crate::text::{self, truncated};
use vstd::prelude::*;

verus! {

/// A request from the tray menu to the application.
#[derive(Debug, Clone, Copy, PartialEq, Eq, Structural)]
pub enum TrayCommand {
    Toggle,
    Start,
    Stop,
    SetMode(OutputMode),
    ShowWindow,
    Quit,
}

/// What the tray needs to render itself.
#[derive(Debug, PartialEq, Eq)]
pub struct TrayState {
    pub status: Status,
    pub mode: OutputMode,
    pub last_fragment: String,
}

impl Default for TrayState {
    fn default() -> (r: TrayState)
        ensures
            r.status == Status::Idle,
            r.mode == OutputMode::Type,
            r.last_fragment@ == Seq::<char>::empty(),
    {
        TrayState {
            status: Status::Idle,
            mode: OutputMode::Type,
            last_fragment: String::new(),
        }
    }
}

impl TrayState {
    /// Whether a redraw would change anything the tray displays.
    ///
    /// State is handed over on every tick; without this the bus would be
    /// hammered at the tick rate.
    pub fn same_as(&self, other: &TrayState) -> (r: bool)
        ensures
            r == (self.status == other.status && self.mode == other.mode && self.last_fragment@
                == other.last_fragment@),
    {
        self.status == other.status && self.mode == other.mode && text::same(
            self.last_fragment.as_str(),
            other.last_fragment.as_str(),
        )
    }

    /// Whether an icon and a tooltip, which show no text, would change.
    pub fn looks_like(&self, other: &TrayState) -> (r: bool)
        ensures
            r == (self.status == other.status && self.mode == other.mode),
    {
        self.status == other.status && self.mode == other.mode
    }
}

pub open spec fn title_of(status: Status, mode: OutputMode) -> Seq<char> {
    match status {
        Status::Listening => "Syrinx — listening ("@ + mode.label_of() + ")"@,
        Status::Idle => "Syrinx — idle"@,
        other => "Syrinx — "@ + other.label_of(),
    }
}

/// The tray's title.
pub fn tooltip(s: &TrayState) -> (r: String)
    ensures
        r@ == title_of(s.status, s.mode),
{
    match s.status {
        Status::Listening => {
            let mut t = "Syrinx — listening (".to_owned();
            t.append(s.mode.label());
            t.append(")");
            t
        },
        Status::Idle => "Syrinx — idle".to_owned(),
        other => {
            let mut t = "Syrinx — ".to_owned();
            t.append(other.label());
            t
        },
    }
}

pub open spec fn icon_of(status: Status) -> Seq<char> {
    match status {
        Status::Listening => "media-record"@,
        Status::Idle => "microphone-sensitivity-muted"@,
        _ => "audio-input-microphone"@,
    }
}

/// The name of the tray's icon.
///
/// Named icons rather than bundled pixmaps: they follow the user's icon theme.
/// These names are chosen for availability: all three are present in Breeze and
/// Adwaita.
pub fn icon_name(status: Status) -> (r: &'static str)
    ensures
        r@ == icon_of(status),
{
    match status {
        Status::Listening => "media-record",
        Status::Connecting | Status::Stopping | Status::Transcribing => "audio-input-microphone",
        Status::Idle => "microphone-sensitivity-muted",
    }
}

/// One mode in the mode submenu.
pub struct ModeItem {
    pub mode: OutputMode,
    pub label: String,
    pub checked: bool,
    /// A mode cannot be changed while a session runs.
    pub enabled: bool,
}

/// One entry of the tray menu.
pub enum MenuEntry {
    Separator,
    /// A line of text; clicking it asks for `command`, if there is one.
    Item { label: String, icon: Option<String>, command: Option<TrayCommand> },
    Modes { label: String, items: Vec<ModeItem> },
}

pub struct ModeItemView {
    pub mode: OutputMode,
    pub label: Seq<char>,
    pub checked: bool,
    pub enabled: bool,
}

pub enum MenuView {
    Separator,
    Item { label: Seq<char>, icon: Option<Seq<char>>, command: Option<TrayCommand> },
    Modes { label: Seq<char>, items: Seq<ModeItemView> },
}

pub open spec fn mode_item_view(i: ModeItem) -> ModeItemView {
    ModeItemView { mode: i.mode, label: i.label@, checked: i.checked, enabled: i.enabled }
}

pub open spec fn mode_item_views(v: Seq<ModeItem>) -> Seq<ModeItemView> {
    v.map_values(|i: ModeItem| mode_item_view(i))
}

pub open spec fn entry_view(e: MenuEntry) -> MenuView {
    match e {
        MenuEntry::Separator => MenuView::Separator,
        MenuEntry::Item { label, icon, command } => MenuView::Item {
            label: label@,
            icon: text::opt_view(icon),
            command,
        },
        MenuEntry::Modes { label, items } => MenuView::Modes {
            label: label@,
            items: mode_item_views(items@),
        },
    }
}

pub open spec fn menu_views(v: Seq<MenuEntry>) -> Seq<MenuView> {
    v.map_values(|e: MenuEntry| entry_view(e))
}

pub open spec fn mode_item(m: OutputMode, status: Status, current: OutputMode) -> ModeItemView {
    ModeItemView {
        mode: m,
        label: m.label_of(),
        checked: current == m,
        enabled: !status.active(),
    }
}

/// The tray's menu: what is happening, starting or stopping it, the modes, the
/// last thing heard, the window, and the way out.
pub open spec fn menu_of(status: Status, mode: OutputMode, last: Seq<char>) -> Seq<MenuView> {
    let top = seq![
        MenuView::Item {
            label: status.label_of() + "  ·  "@ + mode.label_of(),
            icon: None,
            command: None,
        },
        MenuView::Separator,
        MenuView::Item {
            label: if status.active() {
                "Stop"@
            } else {
                "Start"@
            },
            icon: Some(
                if status.active() {
                    "media-playback-stop"@
                } else {
                    "media-record"@
                },
            ),
            command: Some(
                if status.active() {
                    TrayCommand::Stop
                } else {
                    TrayCommand::Start
                },
            ),
        },
        MenuView::Separator,
        MenuView::Modes {
            label: "Mode: "@ + mode.label_of(),
            items: seq![
                mode_item(OutputMode::Transcribe, status, mode),
                mode_item(OutputMode::Type, status, mode),
                mode_item(OutputMode::Both, status, mode),
            ],
        },
    ];
    let heard = if last.len() > 0 {
        seq![
            MenuView::Separator,
            MenuView::Item { label: truncated(last, 40), icon: None, command: None },
        ]
    } else {
        Seq::empty()
    };
    let bottom = seq![
        MenuView::Separator,
        MenuView::Item {
            label: "Show window"@,
            icon: None,
            command: Some(TrayCommand::ShowWindow),
        },
        MenuView::Item {
            label: "Quit"@,
            icon: Some("application-exit"@),
            command: Some(TrayCommand::Quit),
        },
    ];
    top + heard + bottom
}

fn item(label: String, icon: Option<&str>, command: Option<TrayCommand>) -> (r: MenuEntry)
    ensures
        entry_view(r) == (MenuView::Item {
            label: label@,
            icon: match icon {
                Some(i) => Some(i@),
                None => None,
            },
            command,
        }),
{
    let icon = match icon {
        Some(i) => Some(i.to_owned()),
        None => None,
    };
    MenuEntry::Item { label, icon, command }
}

fn choice(m: OutputMode, status: Status, current: OutputMode) -> (r: ModeItem)
    ensures
        mode_item_view(r) == mode_item(m, status, current),
{
    ModeItem {
        mode: m,
        label: m.label().to_owned(),
        checked: current == m,
        enabled: !status.is_active(),
    }
}

fn add(items: &mut Vec<MenuEntry>, e: MenuEntry)
    ensures
        menu_views(final(items)@) == menu_views(old(items)@).push(entry_view(e)),
{
    let ghost was = items@;
    items.push(e);
    assert(menu_views(items@) =~= menu_views(was).push(entry_view(e)));
}

/// The tray's menu.
pub fn menu(s: &TrayState) -> (r: Vec<MenuEntry>)
    ensures
        menu_views(r@) == menu_of(s.status, s.mode, s.last_fragment@),
{
    let active: bool = s.status.is_active();
    let mut items: Vec<MenuEntry> = Vec::new();
    assert(menu_views(items@) =~= Seq::<MenuView>::empty());
    let mut heading = s.status.label().to_owned();
    heading.append("  ·  ");
    heading.append(s.mode.label());
    self::add(&mut items, item(heading, None, None));
    self::add(&mut items, MenuEntry::Separator);
    if active {
        self::add(
            &mut items,
            item("Stop".to_owned(), Some("media-playback-stop"), Some(TrayCommand::Stop)),
        );
    } else {
        self::add(
            &mut items,
            item("Start".to_owned(), Some("media-record"), Some(TrayCommand::Start)),
        );
    }
    self::add(&mut items, MenuEntry::Separator);
    let mut modes: Vec<ModeItem> = Vec::new();
    modes.push(choice(OutputMode::Transcribe, s.status, s.mode));
    modes.push(choice(OutputMode::Type, s.status, s.mode));
    modes.push(choice(OutputMode::Both, s.status, s.mode));
    assert(mode_item_views(modes@) =~= seq![
        mode_item(OutputMode::Transcribe, s.status, s.mode),
        mode_item(OutputMode::Type, s.status, s.mode),
        mode_item(OutputMode::Both, s.status, s.mode),
    ]);
    let mut label = "Mode: ".to_owned();
    label.append(s.mode.label());
    self::add(&mut items, MenuEntry::Modes { label, items: modes });
    if text::chars_of(s.last_fragment.as_str()).len() > 0 {
        self::add(&mut items, MenuEntry::Separator);
        let cut = text::truncate(s.last_fragment.as_str(), 40);
        self::add(&mut items, item(cut, None, None));
    }
    self::add(&mut items, MenuEntry::Separator);
    self::add(&mut items, item("Show window".to_owned(), None, Some(TrayCommand::ShowWindow)));
    self::add(
        &mut items,
        item("Quit".to_owned(), Some("application-exit"), Some(TrayCommand::Quit)),
    );
    assert(menu_views(items@) =~= menu_of(s.status, s.mode, s.last_fragment@));
    items
}

/// What a mode in the submenu asks for.
pub fn mode_command(item: &ModeItem) -> (r: TrayCommand)
    ensures
        r == TrayCommand::SetMode(item.mode),
{
    TrayCommand::SetMode(item.mode)
}

/// The fixed menu of a tray that cannot redraw its entries: each line and what
/// it asks for, with nothing for a separator.
pub fn fixed_menu() -> (r: Vec<Option<(String, TrayCommand)>>)
    ensures
        r@.len() == 8,
        r@[0] matches Some((l, c)) && l@ == "Start / stop dictation"@ && c == TrayCommand::Toggle,
        r@[1] is None,
        r@[2] matches Some((l, c)) && l@ == "Mode: transcribe"@ && c == TrayCommand::SetMode(
            OutputMode::Transcribe,
        ),
        r@[3] matches Some((l, c)) && l@ == "Mode: type at cursor"@ && c == TrayCommand::SetMode(
            OutputMode::Type,
        ),
        r@[4] matches Some((l, c)) && l@ == "Mode: both"@ && c == TrayCommand::SetMode(
            OutputMode::Both,
        ),
        r@[5] is None,
        r@[6] matches Some((l, c)) && l@ == "Open window"@ && c == TrayCommand::ShowWindow,
        r@[7] matches Some((l, c)) && l@ == "Quit syrinx"@ && c == TrayCommand::Quit,
{
    let mut v: Vec<Option<(String, TrayCommand)>> = Vec::new();
    v.push(Some(("Start / stop dictation".to_owned(), TrayCommand::Toggle)));
    v.push(None);
    v.push(Some(("Mode: transcribe".to_owned(), TrayCommand::SetMode(OutputMode::Transcribe))));
    v.push(Some(("Mode: type at cursor".to_owned(), TrayCommand::SetMode(OutputMode::Type))));
    v.push(Some(("Mode: both".to_owned(), TrayCommand::SetMode(OutputMode::Both))));
    v.push(None);
    v.push(Some(("Open window".to_owned(), TrayCommand::ShowWindow)));
    v.push(Some(("Quit syrinx".to_owned(), TrayCommand::Quit)));
    v
}

/// Exactly one mode is marked as the current one, and while a session runs
/// none can be chosen.
pub proof fn lemma_one_mode_is_checked(status: Status, mode: OutputMode, m: OutputMode)
    ensures
        mode_item(m, status, mode).checked <==> m == mode,
        status.active() ==> !mode_item(m, status, mode).enabled,
{
}

/// The tray shows a session that listens, one that is neither here nor there,
/// and none, each by its own icon, and says in which mode it listens.
pub proof fn lemma_the_tray_tells_states_apart(a: Status, b: Status, mode: OutputMode)
    ensures
        icon_of(a) == "media-record"@ <==> a == Status::Listening,
        icon_of(a) == "microphone-sensitivity-muted"@ <==> a == Status::Idle,
        (a == Status::Connecting || a == Status::Stopping || a == Status::Transcribing)
            ==> icon_of(a) == "audio-input-microphone"@,
        a == Status::Listening ==> title_of(a, mode) == "Syrinx — listening ("@ + mode.label_of()
            + ")"@,
        a == Status::Idle ==> title_of(a, mode) == "Syrinx — idle"@,
        a != Status::Listening && a != Status::Idle ==> title_of(a, mode) == "Syrinx — "@
            + a.label_of(),
{
    reveal_strlit("media-record");
    reveal_strlit("microphone-sensitivity-muted");
    reveal_strlit("audio-input-microphone");
    assert("media-record"@.len() == 12);
    assert("microphone-sensitivity-muted"@.len() == 28);
    assert("audio-input-microphone"@.len() == 22);
}

/// The menu offers to stop what runs and to start what does not, every mode
/// with the current one marked, and always the window and the way out; a last
/// line heard stands in it exactly when there is one.
pub proof fn lemma_what_the_menu_offers(status: Status, mode: OutputMode, last: Seq<char>)
    ensures
        ({
            let m = menu_of(status, mode, last);
            let n = m.len();
            &&& n == (if last.len() > 0 {
                10int
            } else {
                8int
            })
            &&& status != Status::Idle ==> m[2] == (MenuView::Item {
                label: "Stop"@,
                icon: Some("media-playback-stop"@),
                command: Some(TrayCommand::Stop),
            })
            &&& status == Status::Idle ==> m[2] == (MenuView::Item {
                label: "Start"@,
                icon: Some("media-record"@),
                command: Some(TrayCommand::Start),
            })
            &&& m[0] matches MenuView::Item { label, icon: _, command } && label
                == status.label_of() + "  ·  "@ + mode.label_of() && command is None
            &&& m[4] matches MenuView::Modes { label, items } && label == "Mode: "@
                + mode.label_of() && items.len() == 3 && items[0].mode == OutputMode::Transcribe
                && items[1].mode == OutputMode::Type && items[2].mode == OutputMode::Both && (
            forall|i: int|
                0 <= i < 3 ==> (#[trigger] items[i]).label == items[i].mode.label_of()
                    && items[i].checked == (items[i].mode == mode) && items[i].enabled == (status
                    == Status::Idle))
            &&& last.len() > 0 ==> (m[6] matches MenuView::Item { label, icon: _, command }
                && label == truncated(last, 40) && command is None)
            &&& m[n - 2] matches MenuView::Item { label: _, icon: _, command } && command == Some(
                TrayCommand::ShowWindow,
            )
            &&& m[n - 1] matches MenuView::Item { label: _, icon: _, command } && command == Some(
                TrayCommand::Quit,
            )
        }),
{
}

} // verus!
