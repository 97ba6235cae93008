//! The decisions of the dashboard's event loop: the keys of its home
//! screen, the pacman runs it starts and what it shows while they run, and
//! the frames of the rotating shark.
use vstd::prelude::*;
use crate::pacman_log::strings_view;
use crate::tui::{CurrentScreen, DashboardWidget};
use crate::commands::{decimal, decimal_string};
use crate::text::{chars_of, str_eq};

verus! {

/// A key as the home screen reads it.
#[derive(Clone, Copy, Debug, PartialEq, Eq, Structural)]
pub enum HomeKey {
    Char(char),
    Enter,
    Tab,
    BackTab,
    Other,
}

/// What a key on the home screen asks for.
#[derive(Clone, Copy, Debug, PartialEq, Eq, Structural)]
pub enum HomeAction {
    Quit,
    Search,
    SyncRepositories,
    SweepOrphans,
    CleanCache,
    OpenNews,
    Open(CurrentScreen),
    ShowWidget(DashboardWidget),
    Nothing,
}

pub open spec fn other_widget(w: DashboardWidget) -> DashboardWidget {
    match w {
        DashboardWidget::Blahaj => DashboardWidget::News,
        DashboardWidget::News => DashboardWidget::Blahaj,
    }
}

/// The keys of the home screen: `q` quits, `/` or `f` searches, `u` syncs,
/// `o` sweeps orphans, `c` cleans the cache, `n` opens the news, `t`, `h`
/// and `g` open the statistics, the history and the groups, `b`, Tab and
/// Back-Tab switch the widget, Enter opens what the widget shows.
pub open spec fn home_key_spec(k: HomeKey, w: DashboardWidget) -> HomeAction {
    match k {
        HomeKey::Char(c) => if c == 'q' {
            HomeAction::Quit
        } else if c == '/' || c == 'f' {
            HomeAction::Search
        } else if c == 'u' {
            HomeAction::SyncRepositories
        } else if c == 'o' {
            HomeAction::SweepOrphans
        } else if c == 'c' {
            HomeAction::CleanCache
        } else if c == 'n' {
            HomeAction::OpenNews
        } else if c == 't' {
            HomeAction::Open(CurrentScreen::Stats)
        } else if c == 'h' {
            HomeAction::Open(CurrentScreen::History)
        } else if c == 'g' {
            HomeAction::Open(CurrentScreen::Groups)
        } else if c == 'b' {
            HomeAction::ShowWidget(other_widget(w))
        } else {
            HomeAction::Nothing
        },
        HomeKey::Enter => match w {
            DashboardWidget::News => HomeAction::OpenNews,
            DashboardWidget::Blahaj => HomeAction::Open(CurrentScreen::Browser),
        },
        HomeKey::Tab => HomeAction::ShowWidget(other_widget(w)),
        HomeKey::BackTab => HomeAction::ShowWidget(other_widget(w)),
        HomeKey::Other => HomeAction::Nothing,
    }
}

pub fn home_key(k: HomeKey, w: DashboardWidget) -> (r: HomeAction)
    ensures
        r == home_key_spec(k, w),
{
    let other = match w {
        DashboardWidget::Blahaj => DashboardWidget::News,
        DashboardWidget::News => DashboardWidget::Blahaj,
    };
    match k {
        HomeKey::Char(c) => if c == 'q' {
            HomeAction::Quit
        } else if c == '/' || c == 'f' {
            HomeAction::Search
        } else if c == 'u' {
            HomeAction::SyncRepositories
        } else if c == 'o' {
            HomeAction::SweepOrphans
        } else if c == 'c' {
            HomeAction::CleanCache
        } else if c == 'n' {
            HomeAction::OpenNews
        } else if c == 't' {
            HomeAction::Open(CurrentScreen::Stats)
        } else if c == 'h' {
            HomeAction::Open(CurrentScreen::History)
        } else if c == 'g' {
            HomeAction::Open(CurrentScreen::Groups)
        } else if c == 'b' {
            HomeAction::ShowWidget(other)
        } else {
            HomeAction::Nothing
        },
        HomeKey::Enter => match w {
            DashboardWidget::News => HomeAction::OpenNews,
            DashboardWidget::Blahaj => HomeAction::Open(CurrentScreen::Browser),
        },
        HomeKey::Tab => HomeAction::ShowWidget(other),
        HomeKey::BackTab => HomeAction::ShowWidget(other),
        HomeKey::Other => HomeAction::Nothing,
    }
}

/// After ten idle seconds on the home screen the shark comes back, when
/// there is no unread headline and no update to show.
pub fn idle_widget(
    screen: CurrentScreen,
    widget: DashboardWidget,
    idle_long: bool,
    unread_news: usize,
    updates: usize,
) -> (r: DashboardWidget)
    ensures
        r == (if screen == CurrentScreen::Dashboard && widget != DashboardWidget::Blahaj && idle_long
            && unread_news == 0 && updates == 0 {
            DashboardWidget::Blahaj
        } else {
            widget
        }),
{
    if screen == CurrentScreen::Dashboard && widget != DashboardWidget::Blahaj && idle_long
        && unread_news == 0 && updates == 0 {
        DashboardWidget::Blahaj
    } else {
        widget
    }
}

/// The arguments of the pacman run that a confirmed prompt starts: an
/// install (`-S`) or a removal (`-Rs`) of the targets, without questions.
pub open spec fn transaction_args_spec(install: bool, targets: Seq<Seq<char>>) -> Seq<Seq<char>> {
    seq!["pacman"@, if install {
        "-S"@
    } else {
        "-Rs"@
    }, "--noconfirm"@] + targets
}

pub fn transaction_args(install: bool, targets: &Vec<String>) -> (r: Vec<String>)
    ensures
        strings_view(r@) == transaction_args_spec(install, strings_view(targets@)),
{
    let mut out: Vec<String> = Vec::new();
    out.push("pacman".to_string());
    out.push(if install {
        "-S".to_string()
    } else {
        "-Rs".to_string()
    });
    out.push("--noconfirm".to_string());
    let ghost o0 = strings_view(out@);
    let mut k: usize = 0;
    while k < targets.len()
        invariant
            k <= targets.len(),
            strings_view(out@) == o0 + strings_view(targets@).take(k as int),
        decreases targets.len() - k,
    {
        let ghost o = out@;
        out.push(targets[k].clone());
        assert(strings_view(out@) =~= strings_view(o).push(targets@[k as int]@));
        assert(strings_view(targets@).take(k + 1) =~= strings_view(targets@).take(k as int).push(
            targets@[k as int]@,
        ));
        k = k + 1;
    }
    assert(strings_view(targets@).take(k as int) =~= strings_view(targets@));
    assert(strings_view(out@) =~= transaction_args_spec(install, strings_view(targets@)));
    out
}

/// What the popup says while a confirmed prompt runs: the action in the
/// `-ing` form, with the number of packages or the one package's name.
pub open spec fn transaction_text_spec(kind: Seq<char>, targets: Seq<Seq<char>>) -> Seq<char> {
    if targets.len() > 1 {
        kind + "ing "@ + decimal(targets.len()) + " packages..."@
    } else {
        kind + "ing "@ + targets[0] + "..."@
    }
}

pub fn transaction_text(kind: &str, targets: &Vec<String>) -> (r: String)
    requires
        targets.len() > 0,
    ensures
        r@ == transaction_text_spec(kind@, strings_view(targets@)),
{
    if targets.len() > 1 {
        kind.to_string().concat("ing ").concat(decimal_string(targets.len() as u64).as_str()).concat(
            " packages...",
        )
    } else {
        kind.to_string().concat("ing ").concat(targets[0].as_str()).concat("...")
    }
}

/// How the dashboard starts a pacman run given as `pacman` and its
/// arguments: `--color=never` is added when missing; as root pacman runs
/// directly (the leading `pacman` dropped), else through `sudo`.
pub open spec fn spawn_spec(args: Seq<Seq<char>>, is_root: bool) -> (Seq<char>, Seq<Seq<char>>) {
    let full = if args.contains("--color=never"@) {
        args
    } else {
        args.push("--color=never"@)
    };
    if is_root {
        ("pacman"@, full.drop_first())
    } else {
        ("sudo"@, full)
    }
}

pub fn spawn_command(args: Vec<String>, is_root: bool) -> (r: (String, Vec<String>))
    ensures
        (r.0@, strings_view(r.1@)) == spawn_spec(strings_view(args@), is_root),
{
    let ghost av = strings_view(args@);
    let mut full = args;
    let mut present = false;
    let mut k: usize = 0;
    while k < full.len()
        invariant
            k <= full.len(),
            av == strings_view(full@),
            present == (exists|i: int| 0 <= i < k && (#[trigger] av[i]) == "--color=never"@),
        decreases full.len() - k,
    {
        if str_eq(full[k].as_str(), "--color=never") {
            present = true;
        }
        proof {
            if av[k as int] == "--color=never"@ {
                assert(exists|i: int| 0 <= i < k + 1 && (#[trigger] av[i]) == "--color=never"@);
            }
            if exists|i: int| 0 <= i < k + 1 && (#[trigger] av[i]) == "--color=never"@ {
                let i = choose|i: int| 0 <= i < k + 1 && (#[trigger] av[i]) == "--color=never"@;
                if i < k {
                    assert(exists|i: int| 0 <= i < k && (#[trigger] av[i]) == "--color=never"@);
                }
            }
            if exists|i: int| 0 <= i < k && (#[trigger] av[i]) == "--color=never"@ {
                let i = choose|i: int| 0 <= i < k && (#[trigger] av[i]) == "--color=never"@;
                assert(0 <= i < k + 1);
            }
        }
        k = k + 1;
    }
    assert(present == av.contains("--color=never"@));
    if !present {
        full.push("--color=never".to_string());
        assert(strings_view(full@) =~= av.push("--color=never"@));
    }
    if is_root {
        let first = full.remove(0);
        assert(strings_view(full@) =~= spawn_spec(av, is_root).1);
        ("pacman".to_string(), full)
    } else {
        ("sudo".to_string(), full)
    }
}

/// Most lines the popup keeps of a run's log.
pub const LOG_LINES: usize = 30;

/// The popup's log after a line is added: the oldest line is dropped once
/// more than `LOG_LINES` would be kept.
pub open spec fn log_after(logs: Seq<String>, line: String) -> Seq<String> {
    if logs.len() + 1 > LOG_LINES {
        logs.push(line).drop_first()
    } else {
        logs.push(line)
    }
}

/// Appends a line to the popup's log, dropping the oldest line once more
/// than `LOG_LINES` are kept.
pub fn push_log(logs: &mut Vec<String>, line: String)
    ensures
        final(logs)@ == log_after(old(logs)@, line),
{
    logs.push(line);
    if logs.len() > LOG_LINES {
        let _ = logs.remove(0);
        assert(logs@ =~= old(logs)@.push(line).drop_first());
    }
}

/// The popup's log never holds more than `LOG_LINES` lines, and its last
/// line is the one added last.
pub proof fn law_log_bounded(logs: Seq<String>, line: String)
    requires
        logs.len() <= LOG_LINES,
    ensures
        log_after(logs, line).len() <= LOG_LINES,
        log_after(logs, line).last() == line,
{
}

/// The arguments that remove the orphans, and what the popup says.
pub fn orphan_sweep(orphans: &Vec<String>) -> (r: (Vec<String>, String))
    requires
        orphans.len() > 0,
    ensures
        strings_view(r.0@) == seq!["pacman"@, "-Rns"@, "--noconfirm"@] + strings_view(orphans@),
        r.1@ == "sweeping "@ + decimal(orphans.len() as nat) + " orphans..."@,
{
    let mut out: Vec<String> = Vec::new();
    out.push("pacman".to_string());
    out.push("-Rns".to_string());
    out.push("--noconfirm".to_string());
    let ghost o0 = strings_view(out@);
    let mut k: usize = 0;
    while k < orphans.len()
        invariant
            k <= orphans.len(),
            strings_view(out@) == o0 + strings_view(orphans@).take(k as int),
        decreases orphans.len() - k,
    {
        let ghost o = out@;
        out.push(orphans[k].clone());
        assert(strings_view(out@) =~= strings_view(o).push(orphans@[k as int]@));
        assert(strings_view(orphans@).take(k + 1) =~= strings_view(orphans@).take(k as int).push(
            orphans@[k as int]@,
        ));
        k = k + 1;
    }
    assert(strings_view(orphans@).take(k as int) =~= strings_view(orphans@));
    let text = "sweeping ".to_string().concat(decimal_string(orphans.len() as u64).as_str()).concat(
        " orphans...",
    );
    (out, text)
}

/// The marker that starts a new frame of the terminal art: `ESC [ H`.
pub open spec fn is_home_at(s: Seq<u8>, i: int) -> bool {
    0 <= i && i + 3 <= s.len() && s[i] == 0x1bu8 && s[i + 1] == 0x5bu8 && s[i + 2] == 0x48u8
}

/// Index of the first frame marker at or after `k`.
pub open spec fn find_home(s: Seq<u8>, k: int) -> Option<int>
    decreases s.len() - k,
{
    if k < 0 || k + 3 > s.len() {
        None
    } else if is_home_at(s, k) {
        Some(k)
    } else {
        find_home(s, k + 1)
    }
}

/// The complete frames of `s` (the bytes before each marker) and what is
/// left after the last marker.
pub open spec fn frames_of(s: Seq<u8>) -> (Seq<Seq<u8>>, Seq<u8>)
    decreases s.len(),
{
    match find_home(s, 0) {
        None => (seq![], s),
        Some(p) => {
            proof {
                lemma_find_home(s, 0);
            }
            let rest = frames_of(s.skip(p + 3));
            (seq![s.take(p)] + rest.0, rest.1)
        },
    }
}

pub proof fn lemma_find_home(s: Seq<u8>, k: int)
    requires
        0 <= k,
    ensures
        find_home(s, k) matches Some(p) ==> k <= p && p + 3 <= s.len() && is_home_at(s, p),
    decreases s.len() - k,
{
    if k + 3 <= s.len() && !is_home_at(s, k) {
        lemma_find_home(s, k + 1);
    }
}

fn find_home_exec(s: &Vec<u8>) -> (r: Option<usize>)
    ensures
        match r {
            Some(p) => find_home(s@, 0) == Some(p as int),
            None => find_home(s@, 0) is None,
        },
{
    let mut p: usize = 0;
    while p < s.len() && s.len() - p >= 3
        invariant
            p <= s.len(),
            find_home(s@, 0) == find_home(s@, p as int),
        decreases s.len() - p,
    {
        if s[p] == 0x1bu8 && s[p + 1] == 0x5bu8 && s[p + 2] == 0x48u8 {
            return Some(p);
        }
        p = p + 1;
    }
    None
}

/// Cuts the complete frames off the front of `buf`, which keeps the
/// unfinished rest.
pub fn split_frames(buf: &mut Vec<u8>) -> (r: Vec<Vec<u8>>)
    ensures
        r@.len() == frames_of(old(buf)@).0.len(),
        forall|i: int| 0 <= i < r@.len() ==> (#[trigger] r@[i])@ == frames_of(old(buf)@).0[i],
        final(buf)@ == frames_of(old(buf)@).1,
{
    let mut out: Vec<Vec<u8>> = Vec::new();
    let ghost mut got: Seq<Seq<u8>> = Seq::empty();
    loop
        invariant
            out@.len() == got.len(),
            forall|i: int| 0 <= i < out@.len() ==> (#[trigger] out@[i])@ == got[i],
            frames_of(old(buf)@) == (got + frames_of(buf@).0, frames_of(buf@).1),
        decreases buf.len(),
    {
        let p = match find_home_exec(buf) {
            Some(p) => p,
            None => {
                assert(got + frames_of(buf@).0 =~= got);
                return out;
            },
        };
        proof {
            lemma_find_home(buf@, 0);
        }
        let ghost b0 = buf@;
        let mut frame: Vec<u8> = Vec::new();
        let mut rest: Vec<u8> = Vec::new();
        let mut k: usize = 0;
        while k < buf.len()
            invariant
                k <= buf.len(),
                p + 3 <= buf.len(),
                buf@ == b0,
                frame@ == b0.take(if k < p { k as int } else { p as int }),
                rest@ == (if k <= p + 3 { Seq::<u8>::empty() } else { b0.subrange(p + 3, k as int) }),
            decreases buf.len() - k,
        {
            if k < p {
                frame.push(buf[k]);
                assert(b0.take(k + 1) =~= b0.take(k as int).push(b0[k as int]));
            } else if k >= p + 3 {
                rest.push(buf[k]);
                if k == p + 3 {
                    assert(rest@ =~= b0.subrange(p + 3, k + 1));
                } else {
                    assert(b0.subrange(p + 3, k + 1) =~= b0.subrange(p + 3, k as int).push(b0[k as int]));
                }
            }
            k = k + 1;
        }
        proof {
            if buf.len() == p + 3 {
                assert(rest@ =~= b0.skip(p + 3));
            } else {
                assert(rest@ =~= b0.skip(p + 3));
            }
            assert(frame@ =~= b0.take(p as int));
            assert(frames_of(b0) == (seq![b0.take(p as int)] + frames_of(b0.skip(p + 3)).0, frames_of(b0.skip(p + 3)).1));
            assert(got + frames_of(b0).0 =~= got.push(frame@) + frames_of(rest@).0);
            got = got.push(frame@);
        }
        out.push(frame);
        *buf = rest;
    }
}


/// The frames with their markers put back, followed by the rest, give the
/// bytes that were split.
pub open spec fn rejoin(frames: Seq<Seq<u8>>, rest: Seq<u8>) -> Seq<u8>
    decreases frames.len(),
{
    if frames.len() == 0 {
        rest
    } else {
        frames[0] + seq![0x1bu8, 0x5bu8, 0x48u8] + rejoin(frames.drop_first(), rest)
    }
}

/// Splitting the art's output into frames loses no byte.
pub proof fn law_frames_rejoin(s: Seq<u8>)
    ensures
        rejoin(frames_of(s).0, frames_of(s).1) == s,
    decreases s.len(),
{
    match find_home(s, 0) {
        None => {},
        Some(p) => {
            lemma_find_home(s, 0);
            law_frames_rejoin(s.skip(p + 3));
            let f = frames_of(s);
            let r = frames_of(s.skip(p + 3));
            assert(f.0 == seq![s.take(p)] + r.0);
            assert((seq![s.take(p)] + r.0).drop_first() =~= r.0);
            assert(is_home_at(s, p));
            assert(s =~= s.take(p) + seq![0x1bu8, 0x5bu8, 0x48u8] + s.skip(p + 3));
        },
    }
}

} // verus!
