//! The keys of the dashboard's screens: for each screen, what a key press
//! does to the state the screen reads it against and what it asks the
//! event loop to perform.
use vstd::prelude::*;
use crate::browser::{BrowserTab, next_index, previous_index, next_item, previous_item, go_to_top,
    go_to_bottom};
use crate::tui::NewsFocus;
use crate::text::{chars_of, starts_with, starts_with_exec};

verus! {

/// A key press as the screens read it; `Ctrl` is a character typed with
/// the control key held.
#[derive(Clone, Copy, Debug, PartialEq, Eq, Structural)]
pub enum Key {
    Char(char),
    Ctrl(char),
    Enter,
    Esc,
    Tab,
    BackTab,
    Backspace,
    Delete,
    Up,
    Down,
    PageUp,
    PageDown,
    Home,
    End,
    Other,
}

/// The key without the control key: where a screen gives no meaning to a
/// control chord, it reads the character alone.
pub open spec fn plain(k: Key) -> Key {
    match k {
        Key::Ctrl(c) => Key::Char(c),
        _ => k,
    }
}

fn plain_exec(k: Key) -> (r: Key)
    ensures
        r == plain(k),
{
    match k {
        Key::Ctrl(c) => Key::Char(c),
        _ => k,
    }
}

/// The first entry of a list of `len` entries, the selection unchanged on
/// an empty list.
pub open spec fn top_index(sel: Option<usize>, len: nat) -> Option<usize> {
    if len == 0 {
        sel
    } else {
        Some(0usize)
    }
}

/// The last entry of a list of `len` entries, the selection unchanged on
/// an empty list.
pub open spec fn bottom_index(sel: Option<usize>, len: nat) -> Option<usize> {
    if len == 0 {
        sel
    } else {
        Some((len - 1) as usize)
    }
}

// ------------------------------------------------------------ overlays ----

/// What lies over every screen: the help, a running transaction, the
/// confirmation prompt.
#[derive(Clone, Copy, Debug, PartialEq, Eq, Structural)]
pub struct Overlay {
    pub help: bool,
    pub installing: bool,
    pub prompt: bool,
}

/// What a key read by the overlays asks for.
#[derive(Clone, Copy, Debug, PartialEq, Eq, Structural)]
pub enum OverlayAction {
    /// No overlay took the key: the screen reads it.
    ToScreen,
    Nothing,
    /// Stop the running transaction.
    AbortRun,
    /// Run what the prompt asked about.
    RunPrompt,
    /// Drop what the prompt asked about.
    DropPrompt,
}

/// The help takes every key and closes on Esc, `q` or `?`; `?` opens it;
/// a running transaction takes every key and stops on `q`; the prompt
/// takes every key, runs on `y`, `Y` or Enter and drops on `n`, `N` or
/// Esc.
pub open spec fn overlay_key_spec(o: Overlay, k: Key) -> (Overlay, OverlayAction) {
    let p = plain(k);
    if o.help {
        if p == Key::Esc || p == Key::Char('q') || p == Key::Char('?') {
            (Overlay { help: false, installing: o.installing, prompt: o.prompt }, OverlayAction::Nothing)
        } else {
            (o, OverlayAction::Nothing)
        }
    } else if p == Key::Char('?') {
        (Overlay { help: true, installing: o.installing, prompt: o.prompt }, OverlayAction::Nothing)
    } else if o.installing {
        if p == Key::Char('q') {
            (o, OverlayAction::AbortRun)
        } else {
            (o, OverlayAction::Nothing)
        }
    } else if o.prompt {
        if p == Key::Char('y') || p == Key::Char('Y') || p == Key::Enter {
            (Overlay { help: false, installing: false, prompt: false }, OverlayAction::RunPrompt)
        } else if p == Key::Char('n') || p == Key::Char('N') || p == Key::Esc {
            (Overlay { help: false, installing: false, prompt: false }, OverlayAction::DropPrompt)
        } else {
            (o, OverlayAction::Nothing)
        }
    } else {
        (o, OverlayAction::ToScreen)
    }
}

pub fn overlay_key(o: Overlay, k: Key) -> (r: (Overlay, OverlayAction))
    ensures
        r == overlay_key_spec(o, k),
{
    let p = plain_exec(k);
    if o.help {
        match p {
            Key::Esc | Key::Char('q') | Key::Char('?') => (
                Overlay { help: false, installing: o.installing, prompt: o.prompt },
                OverlayAction::Nothing,
            ),
            _ => (o, OverlayAction::Nothing),
        }
    } else if p == Key::Char('?') {
        (Overlay { help: true, installing: o.installing, prompt: o.prompt }, OverlayAction::Nothing)
    } else if o.installing {
        match p {
            Key::Char('q') => (o, OverlayAction::AbortRun),
            _ => (o, OverlayAction::Nothing),
        }
    } else if o.prompt {
        match p {
            Key::Char('y') | Key::Char('Y') | Key::Enter => (
                Overlay { help: false, installing: false, prompt: false },
                OverlayAction::RunPrompt,
            ),
            Key::Char('n') | Key::Char('N') | Key::Esc => (
                Overlay { help: false, installing: false, prompt: false },
                OverlayAction::DropPrompt,
            ),
            _ => (o, OverlayAction::Nothing),
        }
    } else {
        (o, OverlayAction::ToScreen)
    }
}

/// The progress shown for a percentage that pacman reported: at most 100.
pub fn progress_percent(p: u16) -> (r: u16)
    ensures
        r == if p > 100 {
            100
        } else {
            p
        },
{
    if p > 100 {
        100
    } else {
        p
    }
}

/// Whether a key on the news screen clears the note that a copy left in the
/// status line: any key but `c` clears it.
pub open spec fn copy_note_cleared(on_news: bool, k: Key, status: Seq<char>) -> bool {
    on_news && plain(k) != Key::Char('c') && (starts_with(status, "copied "@) || starts_with(
        status,
        "no command "@,
    ))
}

pub fn clears_copy_note(on_news: bool, k: Key, status: &str) -> (r: bool)
    ensures
        r == copy_note_cleared(on_news, k, status@),
{
    if !on_news || plain_exec(k) == Key::Char('c') {
        return false;
    }
    let cs = chars_of(status);
    starts_with_exec(cs.as_slice(), chars_of("copied ").as_slice()) || starts_with_exec(
        cs.as_slice(),
        chars_of("no command ").as_slice(),
    )
}

// ----------------------------------------------------------- statistics ----

#[derive(Clone, Copy, Debug, PartialEq, Eq, Structural)]
pub enum StatsAction {
    Nothing,
    Quit,
    Back,
    Refresh,
    OpenHistory,
}

/// The statistics screen: Esc goes back, `q` quits, `r` reloads, `h` opens
/// the history.
pub open spec fn stats_key_spec(k: Key) -> StatsAction {
    let p = plain(k);
    if p == Key::Esc {
        StatsAction::Back
    } else if p == Key::Char('q') {
        StatsAction::Quit
    } else if p == Key::Char('r') {
        StatsAction::Refresh
    } else if p == Key::Char('h') {
        StatsAction::OpenHistory
    } else {
        StatsAction::Nothing
    }
}

pub fn stats_key(k: Key) -> (r: StatsAction)
    ensures
        r == stats_key_spec(k),
{
    match plain_exec(k) {
        Key::Esc => StatsAction::Back,
        Key::Char('q') => StatsAction::Quit,
        Key::Char('r') => StatsAction::Refresh,
        Key::Char('h') => StatsAction::OpenHistory,
        _ => StatsAction::Nothing,
    }
}

// -------------------------------------------------------------- history ----

/// What the history screen reads a key against.
#[derive(Clone, Copy, Debug, PartialEq, Eq, Structural)]
pub struct HistoryKeys {
    /// The transaction under the cursor is shown whole.
    pub expanded: bool,
    /// Keys go to the search field.
    pub editing: bool,
    pub selected: Option<usize>,
    /// The number of transactions listed.
    pub len: usize,
}

#[derive(Clone, Copy, Debug, PartialEq, Eq, Structural)]
pub enum HistoryAction {
    Nothing,
    Quit,
    Back,
    Refresh,
    NextFilter,
    Push(char),
    Pop,
}

/// The history: an expanded transaction closes on Esc or Enter and takes
/// every other key; while searching, Esc or Enter ends the search,
/// Backspace deletes and a character is typed; otherwise Esc goes back,
/// `q` quits, `/` searches, `r` reloads, Enter expands, Tab changes the
/// filter and the arrows, `j`, `k`, `g` and `G` move the cursor.
pub open spec fn history_key_spec(s: HistoryKeys, k: Key) -> (HistoryKeys, HistoryAction) {
    let p = plain(k);
    if s.expanded {
        if p == Key::Esc || p == Key::Enter {
            (HistoryKeys { expanded: false, ..s }, HistoryAction::Nothing)
        } else {
            (s, HistoryAction::Nothing)
        }
    } else if s.editing {
        match p {
            Key::Esc | Key::Enter => (HistoryKeys { editing: false, ..s }, HistoryAction::Nothing),
            Key::Backspace => (s, HistoryAction::Pop),
            Key::Char(c) => (s, HistoryAction::Push(c)),
            _ => (s, HistoryAction::Nothing),
        }
    } else {
        match p {
            Key::Esc => (s, HistoryAction::Back),
            Key::Char('q') => (s, HistoryAction::Quit),
            Key::Char('/') => (HistoryKeys { editing: true, ..s }, HistoryAction::Nothing),
            Key::Char('r') => (s, HistoryAction::Refresh),
            Key::Enter => (HistoryKeys { expanded: true, ..s }, HistoryAction::Nothing),
            Key::Tab => (s, HistoryAction::NextFilter),
            Key::Down | Key::Char('j') => (
                HistoryKeys { selected: next_index(s.selected, s.len as nat), ..s },
                HistoryAction::Nothing,
            ),
            Key::Up | Key::Char('k') => (
                HistoryKeys { selected: previous_index(s.selected, s.len as nat), ..s },
                HistoryAction::Nothing,
            ),
            Key::Char('g') => (
                HistoryKeys { selected: top_index(s.selected, s.len as nat), ..s },
                HistoryAction::Nothing,
            ),
            Key::Char('G') => (
                HistoryKeys { selected: bottom_index(s.selected, s.len as nat), ..s },
                HistoryAction::Nothing,
            ),
            _ => (s, HistoryAction::Nothing),
        }
    }
}

pub fn history_key(s: HistoryKeys, k: Key) -> (r: (HistoryKeys, HistoryAction))
    ensures
        r == history_key_spec(s, k),
{
    let p = plain_exec(k);
    if s.expanded {
        match p {
            Key::Esc | Key::Enter => (HistoryKeys { expanded: false, ..s }, HistoryAction::Nothing),
            _ => (s, HistoryAction::Nothing),
        }
    } else if s.editing {
        match p {
            Key::Esc | Key::Enter => (HistoryKeys { editing: false, ..s }, HistoryAction::Nothing),
            Key::Backspace => (s, HistoryAction::Pop),
            Key::Char(c) => (s, HistoryAction::Push(c)),
            _ => (s, HistoryAction::Nothing),
        }
    } else {
        match p {
            Key::Esc => (s, HistoryAction::Back),
            Key::Char('q') => (s, HistoryAction::Quit),
            Key::Char('/') => (HistoryKeys { editing: true, ..s }, HistoryAction::Nothing),
            Key::Char('r') => (s, HistoryAction::Refresh),
            Key::Enter => (HistoryKeys { expanded: true, ..s }, HistoryAction::Nothing),
            Key::Tab => (s, HistoryAction::NextFilter),
            Key::Down | Key::Char('j') => (
                HistoryKeys { selected: next_item(s.selected, s.len), ..s },
                HistoryAction::Nothing,
            ),
            Key::Up | Key::Char('k') => (
                HistoryKeys { selected: previous_item(s.selected, s.len), ..s },
                HistoryAction::Nothing,
            ),
            Key::Char('g') => (
                HistoryKeys { selected: go_to_top(s.selected, s.len), ..s },
                HistoryAction::Nothing,
            ),
            Key::Char('G') => (
                HistoryKeys { selected: go_to_bottom(s.selected, s.len), ..s },
                HistoryAction::Nothing,
            ),
            _ => (s, HistoryAction::Nothing),
        }
    }
}

// --------------------------------------------------------------- groups ----

/// What the groups screen reads a key against.
#[derive(Clone, Copy, Debug, PartialEq, Eq, Structural)]
pub struct GroupKeys {
    pub editing: bool,
    pub selected: Option<usize>,
    /// The number of groups listed.
    pub len: usize,
}

#[derive(Clone, Copy, Debug, PartialEq, Eq, Structural)]
pub enum GroupAction {
    Nothing,
    Quit,
    Back,
    Push(char),
    Pop,
    ClearQuery,
    ToggleFavorite,
    CycleSort,
    PromptInstall,
    PromptRemove,
    OpenInBrowser,
}

/// The groups: while searching, Esc or Enter ends the search, Backspace or
/// Delete deletes, Ctrl-L clears and a character is typed; otherwise Esc
/// goes back, `q` quits, `/` searches, space marks a favorite, `S` changes
/// the order, `i` and `r` ask to install or remove the group, Enter shows
/// it in the browser and the arrows, `j`, `k`, `g` and `G` move the cursor.
pub open spec fn group_key_spec(s: GroupKeys, k: Key) -> (GroupKeys, GroupAction) {
    if s.editing {
        if k == Key::Ctrl('l') {
            (s, GroupAction::ClearQuery)
        } else {
            match plain(k) {
                Key::Esc | Key::Enter => (GroupKeys { editing: false, ..s }, GroupAction::Nothing),
                Key::Backspace | Key::Delete => (s, GroupAction::Pop),
                Key::Char(c) => (s, GroupAction::Push(c)),
                _ => (s, GroupAction::Nothing),
            }
        }
    } else {
        match plain(k) {
            Key::Esc => (s, GroupAction::Back),
            Key::Char('q') => (s, GroupAction::Quit),
            Key::Char('/') => (GroupKeys { editing: true, ..s }, GroupAction::Nothing),
            Key::Char(' ') => (s, GroupAction::ToggleFavorite),
            Key::Char('S') => (s, GroupAction::CycleSort),
            Key::Char('i') => (s, GroupAction::PromptInstall),
            Key::Char('r') => (s, GroupAction::PromptRemove),
            Key::Enter => (s, GroupAction::OpenInBrowser),
            Key::Down | Key::Char('j') => (
                GroupKeys { selected: next_index(s.selected, s.len as nat), ..s },
                GroupAction::Nothing,
            ),
            Key::Up | Key::Char('k') => (
                GroupKeys { selected: previous_index(s.selected, s.len as nat), ..s },
                GroupAction::Nothing,
            ),
            Key::Char('g') => (
                GroupKeys { selected: top_index(s.selected, s.len as nat), ..s },
                GroupAction::Nothing,
            ),
            Key::Char('G') => (
                GroupKeys { selected: bottom_index(s.selected, s.len as nat), ..s },
                GroupAction::Nothing,
            ),
            _ => (s, GroupAction::Nothing),
        }
    }
}

pub fn group_key(s: GroupKeys, k: Key) -> (r: (GroupKeys, GroupAction))
    ensures
        r == group_key_spec(s, k),
{
    if s.editing {
        if k == Key::Ctrl('l') {
            (s, GroupAction::ClearQuery)
        } else {
            match plain_exec(k) {
                Key::Esc | Key::Enter => (GroupKeys { editing: false, ..s }, GroupAction::Nothing),
                Key::Backspace | Key::Delete => (s, GroupAction::Pop),
                Key::Char(c) => (s, GroupAction::Push(c)),
                _ => (s, GroupAction::Nothing),
            }
        }
    } else {
        match plain_exec(k) {
            Key::Esc => (s, GroupAction::Back),
            Key::Char('q') => (s, GroupAction::Quit),
            Key::Char('/') => (GroupKeys { editing: true, ..s }, GroupAction::Nothing),
            Key::Char(' ') => (s, GroupAction::ToggleFavorite),
            Key::Char('S') => (s, GroupAction::CycleSort),
            Key::Char('i') => (s, GroupAction::PromptInstall),
            Key::Char('r') => (s, GroupAction::PromptRemove),
            Key::Enter => (s, GroupAction::OpenInBrowser),
            Key::Down | Key::Char('j') => (
                GroupKeys { selected: next_item(s.selected, s.len), ..s },
                GroupAction::Nothing,
            ),
            Key::Up | Key::Char('k') => (
                GroupKeys { selected: previous_item(s.selected, s.len), ..s },
                GroupAction::Nothing,
            ),
            Key::Char('g') => (
                GroupKeys { selected: go_to_top(s.selected, s.len), ..s },
                GroupAction::Nothing,
            ),
            Key::Char('G') => (
                GroupKeys { selected: go_to_bottom(s.selected, s.len), ..s },
                GroupAction::Nothing,
            ),
            _ => (s, GroupAction::Nothing),
        }
    }
}

// -------------------------------------------------------------- browser ----

/// The cursor after `n` steps down a list of `len` entries.
pub open spec fn rows_down(sel: Option<usize>, len: nat, n: nat) -> Option<usize>
    decreases n,
{
    if n == 0 {
        sel
    } else {
        next_index(rows_down(sel, len, (n - 1) as nat), len)
    }
}

/// The cursor after `n` steps up a list of `len` entries.
pub open spec fn rows_up(sel: Option<usize>, len: nat, n: nat) -> Option<usize>
    decreases n,
{
    if n == 0 {
        sel
    } else {
        previous_index(rows_up(sel, len, (n - 1) as nat), len)
    }
}

/// The number of rows that Page-Down and Page-Up move the browser's cursor,
/// and its details pane.
pub const BROWSER_PAGE: usize = 15;

fn page_rows(sel: Option<usize>, len: usize, down: bool) -> (r: Option<usize>)
    ensures
        r == if down {
            rows_down(sel, len as nat, BROWSER_PAGE as nat)
        } else {
            rows_up(sel, len as nat, BROWSER_PAGE as nat)
        },
{
    let mut cur = sel;
    let mut i: usize = 0;
    while i < BROWSER_PAGE
        invariant
            i <= BROWSER_PAGE,
            cur == if down {
                rows_down(sel, len as nat, i as nat)
            } else {
                rows_up(sel, len as nat, i as nat)
            },
        decreases BROWSER_PAGE - i,
    {
        cur = if down {
            next_item(cur, len)
        } else {
            previous_item(cur, len)
        };
        i = i + 1;
    }
    cur
}

/// What the package browser reads a key against.
#[derive(Clone, Copy, Debug, PartialEq, Eq, Structural)]
pub struct BrowserKeys {
    pub editing: bool,
    pub tab: BrowserTab,
    pub selected: Option<usize>,
    /// The number of packages listed.
    pub len: usize,
    /// How far the details pane is scrolled.
    pub scroll: u16,
}

#[derive(Clone, Copy, Debug, PartialEq, Eq, Structural)]
pub enum BrowserAction {
    Nothing,
    Quit,
    Back,
    Push(char),
    Pop,
    ToggleSelectionMode,
    ExplicitSelection,
    NextFilter,
    PreviousFilter,
    CycleSort,
    ToggleMark,
    PromptInstall,
    PromptRemove,
}

pub open spec fn scroll_down(s: u16, n: u16) -> u16 {
    if s + n > u16::MAX {
        u16::MAX
    } else {
        (s + n) as u16
    }
}

pub open spec fn scroll_up(s: u16, n: u16) -> u16 {
    if s < n {
        0
    } else {
        (s - n) as u16
    }
}

/// The browser: while searching, Esc or Enter ends the search, Backspace
/// or Delete deletes and a character is typed; otherwise `1` to `4` pick
/// the tab, `a` switches between marking packages and taking all that are
/// shown, `A` or `c` drop the marks, Page-Down and Page-Up move the cursor
/// fifteen rows, Ctrl-D and Ctrl-U scroll the details fifteen lines, `x`
/// deletes from the search, Tab and Back-Tab change the filter, `S` the
/// order, `q` quits, Esc goes back, `/`, `s` or `f` search, the arrows,
/// `j`, `k`, `g` and `G` move the cursor, space marks the package and `i`
/// and `r` ask to install or remove.
pub open spec fn browser_key_spec(s: BrowserKeys, k: Key) -> (BrowserKeys, BrowserAction) {
    if s.editing {
        match plain(k) {
            Key::Esc | Key::Enter => (BrowserKeys { editing: false, ..s }, BrowserAction::Nothing),
            Key::Backspace | Key::Delete => (s, BrowserAction::Pop),
            Key::Char(c) => (s, BrowserAction::Push(c)),
            _ => (s, BrowserAction::Nothing),
        }
    } else if k == Key::Ctrl('d') {
        (BrowserKeys { scroll: scroll_down(s.scroll, 15), ..s }, BrowserAction::Nothing)
    } else if k == Key::Ctrl('u') {
        (BrowserKeys { scroll: scroll_up(s.scroll, 15), ..s }, BrowserAction::Nothing)
    } else {
        match plain(k) {
            Key::Char('1') => (BrowserKeys { tab: BrowserTab::Overview, ..s }, BrowserAction::Nothing),
            Key::Char('2') => (
                BrowserKeys { tab: BrowserTab::Dependencies, ..s },
                BrowserAction::Nothing,
            ),
            Key::Char('3') => (BrowserKeys { tab: BrowserTab::Files, ..s }, BrowserAction::Nothing),
            Key::Char('4') => (BrowserKeys { tab: BrowserTab::Queue, ..s }, BrowserAction::Nothing),
            Key::Char('a') => (s, BrowserAction::ToggleSelectionMode),
            Key::Char('A') | Key::Char('c') => (s, BrowserAction::ExplicitSelection),
            Key::PageDown => (
                BrowserKeys { selected: rows_down(s.selected, s.len as nat, 15), ..s },
                BrowserAction::Nothing,
            ),
            Key::PageUp => (
                BrowserKeys { selected: rows_up(s.selected, s.len as nat, 15), ..s },
                BrowserAction::Nothing,
            ),
            Key::Char('x') => (s, BrowserAction::Pop),
            Key::Tab => (s, BrowserAction::NextFilter),
            Key::BackTab => (s, BrowserAction::PreviousFilter),
            Key::Char('S') => (s, BrowserAction::CycleSort),
            Key::Char('q') => (s, BrowserAction::Quit),
            Key::Esc => (s, BrowserAction::Back),
            Key::Char('/') | Key::Char('s') | Key::Char('f') => (
                BrowserKeys { editing: true, ..s },
                BrowserAction::Nothing,
            ),
            Key::Down | Key::Char('j') => (
                BrowserKeys { selected: next_index(s.selected, s.len as nat), ..s },
                BrowserAction::Nothing,
            ),
            Key::Up | Key::Char('k') => (
                BrowserKeys { selected: previous_index(s.selected, s.len as nat), ..s },
                BrowserAction::Nothing,
            ),
            Key::Char('g') => (
                BrowserKeys { selected: top_index(s.selected, s.len as nat), ..s },
                BrowserAction::Nothing,
            ),
            Key::Char('G') => (
                BrowserKeys { selected: bottom_index(s.selected, s.len as nat), ..s },
                BrowserAction::Nothing,
            ),
            Key::Char(' ') => (s, BrowserAction::ToggleMark),
            Key::Char('i') => (s, BrowserAction::PromptInstall),
            Key::Char('r') => (s, BrowserAction::PromptRemove),
            _ => (s, BrowserAction::Nothing),
        }
    }
}

pub fn browser_key(s: BrowserKeys, k: Key) -> (r: (BrowserKeys, BrowserAction))
    ensures
        r == browser_key_spec(s, k),
{
    if s.editing {
        match plain_exec(k) {
            Key::Esc | Key::Enter => (BrowserKeys { editing: false, ..s }, BrowserAction::Nothing),
            Key::Backspace | Key::Delete => (s, BrowserAction::Pop),
            Key::Char(c) => (s, BrowserAction::Push(c)),
            _ => (s, BrowserAction::Nothing),
        }
    } else if k == Key::Ctrl('d') {
        (BrowserKeys { scroll: s.scroll.saturating_add(15), ..s }, BrowserAction::Nothing)
    } else if k == Key::Ctrl('u') {
        (BrowserKeys { scroll: s.scroll.saturating_sub(15), ..s }, BrowserAction::Nothing)
    } else {
        match plain_exec(k) {
            Key::Char('1') => (BrowserKeys { tab: BrowserTab::Overview, ..s }, BrowserAction::Nothing),
            Key::Char('2') => (
                BrowserKeys { tab: BrowserTab::Dependencies, ..s },
                BrowserAction::Nothing,
            ),
            Key::Char('3') => (BrowserKeys { tab: BrowserTab::Files, ..s }, BrowserAction::Nothing),
            Key::Char('4') => (BrowserKeys { tab: BrowserTab::Queue, ..s }, BrowserAction::Nothing),
            Key::Char('a') => (s, BrowserAction::ToggleSelectionMode),
            Key::Char('A') | Key::Char('c') => (s, BrowserAction::ExplicitSelection),
            Key::PageDown => (
                BrowserKeys { selected: page_rows(s.selected, s.len, true), ..s },
                BrowserAction::Nothing,
            ),
            Key::PageUp => (
                BrowserKeys { selected: page_rows(s.selected, s.len, false), ..s },
                BrowserAction::Nothing,
            ),
            Key::Char('x') => (s, BrowserAction::Pop),
            Key::Tab => (s, BrowserAction::NextFilter),
            Key::BackTab => (s, BrowserAction::PreviousFilter),
            Key::Char('S') => (s, BrowserAction::CycleSort),
            Key::Char('q') => (s, BrowserAction::Quit),
            Key::Esc => (s, BrowserAction::Back),
            Key::Char('/') | Key::Char('s') | Key::Char('f') => (
                BrowserKeys { editing: true, ..s },
                BrowserAction::Nothing,
            ),
            Key::Down | Key::Char('j') => (
                BrowserKeys { selected: next_item(s.selected, s.len), ..s },
                BrowserAction::Nothing,
            ),
            Key::Up | Key::Char('k') => (
                BrowserKeys { selected: previous_item(s.selected, s.len), ..s },
                BrowserAction::Nothing,
            ),
            Key::Char('g') => (
                BrowserKeys { selected: go_to_top(s.selected, s.len), ..s },
                BrowserAction::Nothing,
            ),
            Key::Char('G') => (
                BrowserKeys { selected: go_to_bottom(s.selected, s.len), ..s },
                BrowserAction::Nothing,
            ),
            Key::Char(' ') => (s, BrowserAction::ToggleMark),
            Key::Char('i') => (s, BrowserAction::PromptInstall),
            Key::Char('r') => (s, BrowserAction::PromptRemove),
            _ => (s, BrowserAction::Nothing),
        }
    }
}

// ----------------------------------------------------------------- news ----

/// What the news screen reads a key against.
#[derive(Clone, Copy, Debug, PartialEq, Eq, Structural)]
pub struct NewsKeys {
    pub editing: bool,
    pub focus: NewsFocus,
    /// How far the article is scrolled.
    pub scroll: u16,
}

#[derive(Clone, Copy, Debug, PartialEq, Eq, Structural)]
pub enum NewsAction {
    Nothing,
    Quit,
    Back,
    Push(char),
    Pop,
    ClearQuery,
    Refetch,
    NextPage,
    PreviousPage,
    OpenLink,
    CopyLink,
    CopyCommands,
    /// Move the cursor of the list: one row down or up, to the top or to
    /// the bottom of the page.
    RowDown,
    RowUp,
    RowTop,
    RowBottom,
}

pub open spec fn other_focus(f: NewsFocus) -> NewsFocus {
    match f {
        NewsFocus::List => NewsFocus::Article,
        NewsFocus::Article => NewsFocus::List,
    }
}

/// The line the End key scrolls an article to.
pub const ARTICLE_END: u16 = 999;

/// The news: while searching, Esc or Enter ends the search, Ctrl-L clears
/// it, Backspace or Delete deletes and a character is typed; otherwise Esc
/// goes back, `q` quits, `/`, `f` or `s` search, `r` fetches again, Tab or
/// Enter move the focus, `]` and `[` turn the page, `o` opens the link,
/// `y` copies it, `c` copies the commands of the article; on the list the
/// arrows, `j`, `k`, `g` and `G` move the cursor (and scroll the article
/// back to its top); on the article they scroll it, as Page-Down, Page-Up,
/// Home and End do.
pub open spec fn news_key_spec(s: NewsKeys, k: Key) -> (NewsKeys, NewsAction) {
    let on_list = s.focus == NewsFocus::List;
    if s.editing {
        if k == Key::Ctrl('l') {
            (s, NewsAction::ClearQuery)
        } else {
            match plain(k) {
                Key::Esc | Key::Enter => (NewsKeys { editing: false, ..s }, NewsAction::Nothing),
                Key::Backspace | Key::Delete => (s, NewsAction::Pop),
                Key::Char(c) => (s, NewsAction::Push(c)),
                _ => (s, NewsAction::Nothing),
            }
        }
    } else {
        match plain(k) {
            Key::Esc => (s, NewsAction::Back),
            Key::Char('q') => (s, NewsAction::Quit),
            Key::Char('/') | Key::Char('f') | Key::Char('s') => (
                NewsKeys { editing: true, ..s },
                NewsAction::Nothing,
            ),
            Key::Char('r') => (s, NewsAction::Refetch),
            Key::Tab | Key::Enter => (NewsKeys { focus: other_focus(s.focus), ..s }, NewsAction::Nothing),
            Key::Char(']') => (s, NewsAction::NextPage),
            Key::Char('[') => (s, NewsAction::PreviousPage),
            Key::Char('o') => (s, NewsAction::OpenLink),
            Key::Char('y') => (s, NewsAction::CopyLink),
            Key::Char('c') => (s, NewsAction::CopyCommands),
            Key::Down | Key::Char('j') => if on_list {
                (NewsKeys { scroll: 0, ..s }, NewsAction::RowDown)
            } else {
                (NewsKeys { scroll: scroll_down(s.scroll, 1), ..s }, NewsAction::Nothing)
            },
            Key::Up | Key::Char('k') => if on_list {
                (NewsKeys { scroll: 0, ..s }, NewsAction::RowUp)
            } else {
                (NewsKeys { scroll: scroll_up(s.scroll, 1), ..s }, NewsAction::Nothing)
            },
            Key::PageDown => if on_list {
                (s, NewsAction::Nothing)
            } else {
                (NewsKeys { scroll: scroll_down(s.scroll, 15), ..s }, NewsAction::Nothing)
            },
            Key::PageUp => if on_list {
                (s, NewsAction::Nothing)
            } else {
                (NewsKeys { scroll: scroll_up(s.scroll, 15), ..s }, NewsAction::Nothing)
            },
            Key::Home => if on_list {
                (s, NewsAction::Nothing)
            } else {
                (NewsKeys { scroll: 0, ..s }, NewsAction::Nothing)
            },
            Key::End => if on_list {
                (s, NewsAction::Nothing)
            } else {
                (NewsKeys { scroll: ARTICLE_END, ..s }, NewsAction::Nothing)
            },
            Key::Char('g') => if on_list {
                (NewsKeys { scroll: 0, ..s }, NewsAction::RowTop)
            } else {
                (NewsKeys { scroll: 0, ..s }, NewsAction::Nothing)
            },
            Key::Char('G') => if on_list {
                (NewsKeys { scroll: 0, ..s }, NewsAction::RowBottom)
            } else {
                (NewsKeys { scroll: ARTICLE_END, ..s }, NewsAction::Nothing)
            },
            _ => (s, NewsAction::Nothing),
        }
    }
}

pub fn news_key(s: NewsKeys, k: Key) -> (r: (NewsKeys, NewsAction))
    ensures
        r == news_key_spec(s, k),
{
    let on_list = s.focus == NewsFocus::List;
    if s.editing {
        if k == Key::Ctrl('l') {
            (s, NewsAction::ClearQuery)
        } else {
            match plain_exec(k) {
                Key::Esc | Key::Enter => (NewsKeys { editing: false, ..s }, NewsAction::Nothing),
                Key::Backspace | Key::Delete => (s, NewsAction::Pop),
                Key::Char(c) => (s, NewsAction::Push(c)),
                _ => (s, NewsAction::Nothing),
            }
        }
    } else {
        match plain_exec(k) {
            Key::Esc => (s, NewsAction::Back),
            Key::Char('q') => (s, NewsAction::Quit),
            Key::Char('/') | Key::Char('f') | Key::Char('s') => (
                NewsKeys { editing: true, ..s },
                NewsAction::Nothing,
            ),
            Key::Char('r') => (s, NewsAction::Refetch),
            Key::Tab | Key::Enter => {
                let f = match s.focus {
                    NewsFocus::List => NewsFocus::Article,
                    NewsFocus::Article => NewsFocus::List,
                };
                (NewsKeys { focus: f, ..s }, NewsAction::Nothing)
            },
            Key::Char(']') => (s, NewsAction::NextPage),
            Key::Char('[') => (s, NewsAction::PreviousPage),
            Key::Char('o') => (s, NewsAction::OpenLink),
            Key::Char('y') => (s, NewsAction::CopyLink),
            Key::Char('c') => (s, NewsAction::CopyCommands),
            Key::Down | Key::Char('j') => if on_list {
                (NewsKeys { scroll: 0, ..s }, NewsAction::RowDown)
            } else {
                (NewsKeys { scroll: s.scroll.saturating_add(1), ..s }, NewsAction::Nothing)
            },
            Key::Up | Key::Char('k') => if on_list {
                (NewsKeys { scroll: 0, ..s }, NewsAction::RowUp)
            } else {
                (NewsKeys { scroll: s.scroll.saturating_sub(1), ..s }, NewsAction::Nothing)
            },
            Key::PageDown => if on_list {
                (s, NewsAction::Nothing)
            } else {
                (NewsKeys { scroll: s.scroll.saturating_add(15), ..s }, NewsAction::Nothing)
            },
            Key::PageUp => if on_list {
                (s, NewsAction::Nothing)
            } else {
                (NewsKeys { scroll: s.scroll.saturating_sub(15), ..s }, NewsAction::Nothing)
            },
            Key::Home => if on_list {
                (s, NewsAction::Nothing)
            } else {
                (NewsKeys { scroll: 0, ..s }, NewsAction::Nothing)
            },
            Key::End => if on_list {
                (s, NewsAction::Nothing)
            } else {
                (NewsKeys { scroll: ARTICLE_END, ..s }, NewsAction::Nothing)
            },
            Key::Char('g') => if on_list {
                (NewsKeys { scroll: 0, ..s }, NewsAction::RowTop)
            } else {
                (NewsKeys { scroll: 0, ..s }, NewsAction::Nothing)
            },
            Key::Char('G') => if on_list {
                (NewsKeys { scroll: 0, ..s }, NewsAction::RowBottom)
            } else {
                (NewsKeys { scroll: ARTICLE_END, ..s }, NewsAction::Nothing)
            },
            _ => (s, NewsAction::Nothing),
        }
    }
}

// ----------------------------------------------------------------- laws ----

/// While a search field has the keys, every character is typed into it and
/// none is read as a command (`q` does not quit, `/` does not search
/// again), on each screen that searches; Ctrl-L clears the groups' and the
/// news' search instead.
pub proof fn law_search_takes_characters(
    h: HistoryKeys,
    g: GroupKeys,
    b: BrowserKeys,
    n: NewsKeys,
    c: char,
)
    requires
        h.editing && !h.expanded,
        g.editing,
        b.editing,
        n.editing,
    ensures
        history_key_spec(h, Key::Char(c)) == (h, HistoryAction::Push(c)),
        group_key_spec(g, Key::Char(c)) == (g, GroupAction::Push(c)),
        browser_key_spec(b, Key::Char(c)) == (b, BrowserAction::Push(c)),
        news_key_spec(n, Key::Char(c)) == (n, NewsAction::Push(c)),
        c != 'l' ==> group_key_spec(g, Key::Ctrl(c)) == (g, GroupAction::Push(c)),
        group_key_spec(g, Key::Ctrl('l')) == (g, GroupAction::ClearQuery),
        news_key_spec(n, Key::Ctrl('l')) == (n, NewsAction::ClearQuery),
{
}

/// An open help takes every key: none reaches the screen or a running
/// transaction, and the next overlay state differs at most in the help.
pub proof fn law_help_takes_every_key(o: Overlay, k: Key)
    requires
        o.help,
    ensures
        overlay_key_spec(o, k).1 == OverlayAction::Nothing,
        overlay_key_spec(o, k).0.installing == o.installing,
        overlay_key_spec(o, k).0.prompt == o.prompt,
{
}

/// A running transaction is never stopped by a key other than `q`, and a
/// key reaches the screen only when no overlay is open.
pub proof fn law_overlays_guard_the_screen(o: Overlay, k: Key)
    ensures
        overlay_key_spec(o, k).1 == OverlayAction::AbortRun ==> o.installing && plain(k) == Key::Char('q'),
        overlay_key_spec(o, k).1 == OverlayAction::ToScreen <==> (!o.help && !o.installing && !o.prompt
            && plain(k) != Key::Char('?')),
{
}

/// A page of the browser moves the cursor within the list.
pub proof fn law_page_stays_in_list(sel: Option<usize>, len: nat, n: nat)
    requires
        0 < len <= usize::MAX,
        sel matches Some(i) ==> i < len,
    ensures
        rows_down(sel, len, n) matches Some(i) ==> i < len,
        rows_up(sel, len, n) matches Some(i) ==> i < len,
        n > 0 ==> rows_down(sel, len, n) is Some && rows_up(sel, len, n) is Some,
    decreases n,
{
    if n > 0 {
        law_page_stays_in_list(sel, len, (n - 1) as nat);
    }
}

} // verus!
