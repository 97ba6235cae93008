//! The message shown when a pacman or network operation fails.
use vstd::prelude::*;
use crossterm::style::Stylize;

verus! {

/// An ANSI select-graphic-rendition sequence: `ESC [ ... m`.
pub open spec fn is_sgr(x: Seq<char>) -> bool {
    &&& x.len() >= 3
    &&& x[0] == '\u{1b}'
    &&& x[1] == '['
    &&& x.last() == 'm'
}

/// `s` wrapped in the escape sequences that colour it and reset the colour.
pub open spec fn styled(r: Seq<char>, s: Seq<char>) -> bool {
    exists|p: Seq<char>, q: Seq<char>| is_sgr(p) && is_sgr(q) && r == p + s + q
}

/// crossterm's `Stylize::red` on a string, displayed. The escape sequences
/// are those of a red foreground and of its reset, or empty `ESC [ m`
/// sequences when the environment sets `NO_COLOR`: crossterm reads that
/// variable, so this states only that the text is wrapped in two such
/// sequences.
#[verifier::external_body]
fn red(s: &str) -> (r: String)
    ensures
        styled(r@, s@),
{
    s.red().to_string()
}

/// The text that follows the red cross when the machine is offline.
pub open spec fn offline_text() -> Seq<char> {
    " haj cannot surf the internet, check your internet connection."@
}

/// The message after a failed operation, given the cross that marks an
/// offline machine: the caller's own message when online, else the cross
/// and the hint to check the connection.
pub open spec fn network_message(fallback_msg: Seq<char>, is_connected: bool, cross: Seq<char>) -> Seq<
    char,
> {
    if is_connected {
        fallback_msg
    } else {
        cross + offline_text()
    }
}

/// Puts the message together from the cross drawn by the caller.
pub fn compose_network_message(fallback_msg: &str, is_connected: bool, cross: &str) -> (r: String)
    ensures
        r@ == network_message(fallback_msg@, is_connected, cross@),
{
    if is_connected {
        fallback_msg.to_string()
    } else {
        cross.to_string().concat(" haj cannot surf the internet, check your internet connection.")
    }
}

/// Offline, the message does not depend on the caller's own message: with
/// the same cross, two fallbacks give the same text.
pub proof fn law_offline_ignores_fallback(a: Seq<char>, b: Seq<char>, cross: Seq<char>)
    ensures
        network_message(a, false, cross) == network_message(b, false, cross),
        network_message(a, true, cross) == a,
{
}

/// The message printed after a failed operation: the caller's own message
/// when the machine can reach the internet, else a red cross followed by a
/// hint to check the connection.
pub fn network_error_message(fallback_msg: &str, is_connected: bool) -> (r: String)
    ensures
        is_connected ==> r@ == fallback_msg@,
        !is_connected ==> exists|c: Seq<char>| styled(c, "✗"@) && r@ == network_message(
            fallback_msg@,
            false,
            c,
        ),
{
    let cross = red("✗");
    compose_network_message(fallback_msg, is_connected, cross.as_str())
}

} // verus!
