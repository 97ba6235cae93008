//! The command palette: a line of text typed after `:` that names a screen
//! to switch to, or asks to quit.
use vstd::prelude::*;
use crate::text::{chars_of, string_of, str_eq, to_lowercase, trim_exec, trim, lowercase};

verus! {

#[derive(Clone, Copy, Debug, PartialEq, Eq, Structural)]
pub enum ActiveScreen {
    Dashboard,
    Browser,
    Updates,
    Stats,
    History,
    Groups,
    Orphans,
    Clean,
}

/// What the interface does after a key was handled.
#[derive(Clone, Copy, Debug, PartialEq, Eq, Structural)]
pub enum Transition {
    Stay,
    Quit,
    SwitchScreen(ActiveScreen),
    OpenHelp,
    CloseHelp,
    OpenCommandPalette,
    CloseCommandPalette,
}

/// A key as the palette reads it.
#[derive(Clone, Copy, Debug, PartialEq, Eq, Structural)]
pub enum PaletteKey {
    Esc,
    Backspace,
    Enter,
    Char(char),
    Other,
}

/// The transition that a typed command asks for; any other text closes the
/// palette.
pub open spec fn command_transition(cmd: Seq<char>) -> Transition {
    if cmd == "update"@ || cmd == "upgrade"@ {
        Transition::SwitchScreen(ActiveScreen::Updates)
    } else if cmd == "stats"@ {
        Transition::SwitchScreen(ActiveScreen::Stats)
    } else if cmd == "orphan"@ || cmd == "orphans"@ {
        Transition::SwitchScreen(ActiveScreen::Orphans)
    } else if cmd == "clean"@ {
        Transition::SwitchScreen(ActiveScreen::Clean)
    } else if cmd == "history"@ {
        Transition::SwitchScreen(ActiveScreen::History)
    } else if cmd == "browser"@ {
        Transition::SwitchScreen(ActiveScreen::Browser)
    } else if cmd == "quit"@ || cmd == "exit"@ {
        Transition::Quit
    } else {
        Transition::CloseCommandPalette
    }
}

/// The transition for the command `cmd`, already trimmed and in lower case.
pub fn parse_command(cmd: &str) -> (t: Transition)
    ensures
        t == command_transition(cmd@),
{
    if str_eq(cmd, "update") || str_eq(cmd, "upgrade") {
        Transition::SwitchScreen(ActiveScreen::Updates)
    } else if str_eq(cmd, "stats") {
        Transition::SwitchScreen(ActiveScreen::Stats)
    } else if str_eq(cmd, "orphan") || str_eq(cmd, "orphans") {
        Transition::SwitchScreen(ActiveScreen::Orphans)
    } else if str_eq(cmd, "clean") {
        Transition::SwitchScreen(ActiveScreen::Clean)
    } else if str_eq(cmd, "history") {
        Transition::SwitchScreen(ActiveScreen::History)
    } else if str_eq(cmd, "browser") {
        Transition::SwitchScreen(ActiveScreen::Browser)
    } else if str_eq(cmd, "quit") || str_eq(cmd, "exit") {
        Transition::Quit
    } else {
        Transition::CloseCommandPalette
    }
}

/// The palette's text after a key: `Backspace` drops the last character, a
/// character is appended, `Enter` empties it, other keys keep it.
pub open spec fn palette_buffer(key: PaletteKey, buffer: Seq<char>) -> Seq<char> {
    match key {
        PaletteKey::Backspace => if buffer.len() > 0 {
            buffer.drop_last()
        } else {
            buffer
        },
        PaletteKey::Enter => Seq::<char>::empty(),
        PaletteKey::Char(c) => buffer.push(c),
        _ => buffer,
    }
}

/// What a key asks for: `Esc` closes the palette, `Enter` runs the text
/// (trimmed and in lower case), other keys stay.
pub open spec fn palette_transition(key: PaletteKey, buffer: Seq<char>) -> Transition {
    match key {
        PaletteKey::Esc => Transition::CloseCommandPalette,
        PaletteKey::Enter => command_transition(lowercase(trim(buffer))),
        _ => Transition::Stay,
    }
}

/// One key typed into the palette whose text is `buffer`: `Esc` closes it,
/// `Backspace` drops the last character, a character is appended, and
/// `Enter` empties the buffer and runs what it held, trimmed and in lower
/// case.
pub fn palette_key(key: PaletteKey, buffer: &mut String) -> (t: Transition)
    ensures
        t == palette_transition(key, old(buffer)@),
        final(buffer)@ == palette_buffer(key, old(buffer)@),
{
    match key {
        PaletteKey::Esc => Transition::CloseCommandPalette,
        PaletteKey::Backspace => {
            let mut cs = chars_of(buffer.as_str());
            if cs.len() > 0 {
                cs.pop();
                *buffer = string_of(cs.as_slice());
            }
            Transition::Stay
        },
        PaletteKey::Enter => {
            let cs = chars_of(buffer.as_str());
            let trimmed = trim_exec(cs.as_slice());
            let lower = to_lowercase(trimmed.as_slice());
            let cmd = string_of(lower.as_slice());
            *buffer = String::new();
            parse_command(cmd.as_str())
        },
        PaletteKey::Char(c) => {
            let mut cs = chars_of(buffer.as_str());
            cs.push(c);
            *buffer = string_of(cs.as_slice());
            Transition::Stay
        },
        PaletteKey::Other => Transition::Stay,
    }
}

/// Typing a character and erasing it leaves the palette's text as it was.
pub proof fn law_type_then_erase(buffer: Seq<char>, c: char)
    ensures
        palette_buffer(PaletteKey::Backspace, palette_buffer(PaletteKey::Char(c), buffer)) == buffer,
{
    assert(buffer.push(c).drop_last() =~= buffer);
}

} // verus!
