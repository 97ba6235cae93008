//! Reading a running command's output: splitting it into lines as it
//! arrives, the status a generic command shows, and how a command plan or
//! pacman is invoked.
use vstd::prelude::*;
use crate::pacman_log::strings_view;
use crate::backend::{CommandPlan, PlanView};
use crate::bytes::{byte_len, byte_len_exceeds};
use crate::text::{chars_of, string_of, trim, trim_exec, slice_range};

verus! {

/// Collects characters into lines; `\n` and `\r` both end a line.
pub struct LineSplitter {
    current: Vec<char>,
}

impl View for LineSplitter {
    type V = Seq<char>;

    /// The characters of the unfinished line.
    closed spec fn view(&self) -> Seq<char> {
        self.current@
    }
}

impl LineSplitter {
    pub fn new() -> (r: LineSplitter)
        ensures
            r@ == Seq::<char>::empty(),
    {
        LineSplitter { current: Vec::new() }
    }

    /// Feeds one character: a line ending hands out the line read so far
    /// and starts an empty one; any other character extends the line.
    pub fn push(&mut self, c: char) -> (r: Option<String>)
        ensures
            (c == '\n' || c == '\r') ==> (r matches Some(l) && l@ == old(self)@ && final(self)@
                == Seq::<char>::empty()),
            !(c == '\n' || c == '\r') ==> (r is None && final(self)@ == old(self)@.push(c)),
    {
        if c == '\n' || c == '\r' {
            let line = string_of(self.current.as_slice());
            self.current = Vec::new();
            Some(line)
        } else {
            self.current.push(c);
            None
        }
    }

    /// The unfinished line read so far.
    pub fn partial(&self) -> (r: String)
        ensures
            r@ == self@,
    {
        string_of(self.current.as_slice())
    }

    /// Drops the unfinished line, as after a question was answered.
    pub fn clear(&mut self)
        ensures
            final(self)@ == Seq::<char>::empty(),
    {
        self.current = Vec::new();
    }
}

/// The status a generic command shows for an output line: lines of more
/// than three bytes (once trimmed) are shown by their first 60 characters
/// and an ellipsis; blank and short lines change nothing.
pub open spec fn status_for_line(line: Seq<char>) -> Option<Seq<char>> {
    let t = trim(line);
    if t.len() == 0 || byte_len(t) <= 3 {
        None
    } else {
        Some(t.take(if t.len() <= 60 {
            t.len() as int
        } else {
            60
        }) + "..."@)
    }
}

pub fn status_message(line: &str) -> (r: Option<String>)
    ensures
        match r {
            Some(m) => status_for_line(line@) == Some(m@),
            None => status_for_line(line@) is None,
        },
{
    let t = trim_exec(chars_of(line).as_slice());
    if t.len() == 0 || !byte_len_exceeds(t.as_slice(), 3) {
        return None;
    }
    let n = if t.len() <= 60 {
        t.len()
    } else {
        60
    };
    let mut head = slice_range(t.as_slice(), 0, n);
    head.push('.');
    head.push('.');
    head.push('.');
    proof {
        reveal_strlit("...");
    }
    assert(head@ =~= t@.take(n as int) + "..."@);
    Some(string_of(head.as_slice()))
}

/// How a plan is started: through `sudo` when it needs root and the user
/// is not root, with `--color=never` before its arguments unless the
/// output is shown as it is.
pub open spec fn plan_invocation_spec(p: PlanView, is_root: bool, verbose: bool) -> (Seq<char>, Seq<Seq<char>>) {
    let via_sudo = p.requires_root && !is_root;
    (
        if via_sudo {
            "sudo"@
        } else {
            p.executable
        },
        (if via_sudo {
            seq![p.executable]
        } else {
            seq![]
        }) + (if verbose {
            seq![]
        } else {
            seq!["--color=never"@]
        }) + p.args,
    )
}

fn push_all(out: &mut Vec<String>, v: &Vec<String>)
    ensures
        strings_view(final(out)@) == strings_view(old(out)@) + strings_view(v@),
{
    let ghost o0 = strings_view(out@);
    let mut k: usize = 0;
    while k < v.len()
        invariant
            k <= v.len(),
            strings_view(out@) == o0 + strings_view(v@).take(k as int),
        decreases v.len() - k,
    {
        let ghost o = out@;
        out.push(v[k].clone());
        assert(strings_view(out@) =~= strings_view(o).push(v@[k as int]@));
        assert(strings_view(v@).take(k + 1) =~= strings_view(v@).take(k as int).push(v@[k as int]@));
        k = k + 1;
    }
    assert(strings_view(v@).take(k as int) =~= strings_view(v@));
}

/// The program and arguments that carry a plan out.
pub fn plan_invocation(plan: &CommandPlan, is_root: bool, verbose: bool) -> (r: (String, Vec<String>))
    ensures
        (r.0@, strings_view(r.1@)) == plan_invocation_spec(plan@, is_root, verbose),
{
    let via_sudo = plan.requires_root && !is_root;
    let mut args: Vec<String> = Vec::new();
    let prog = if via_sudo {
        args.push(plan.executable.clone());
        "sudo".to_string()
    } else {
        plan.executable.clone()
    };
    if !verbose {
        args.push("--color=never".to_string());
    }
    let ghost a0 = strings_view(args@);
    push_all(&mut args, &plan.args);
    assert(strings_view(args@) =~= plan_invocation_spec(plan@, is_root, verbose).1);
    (prog, args)
}

/// The `--root` arguments for an alternate installation root.
pub open spec fn root_args(root: Option<Seq<char>>) -> Seq<Seq<char>> {
    match root {
        Some(r) => seq!["--root"@, r],
        None => seq![],
    }
}

/// How pacman is started: directly as root, else through `sudo`; with
/// `--color=never` unless its output is shown as it is; with `--root r`
/// ahead of the arguments when an installation root is given.
pub open spec fn pacman_invocation_spec(
    args: Seq<Seq<char>>,
    root: Option<Seq<char>>,
    is_root: bool,
    verbose: bool,
) -> (Seq<char>, Seq<Seq<char>>) {
    (
        if is_root {
            "pacman"@
        } else {
            "sudo"@
        },
        (if is_root {
            seq![]
        } else {
            seq!["pacman"@]
        }) + (if verbose {
            seq![]
        } else {
            seq!["--color=never"@]
        }) + root_args(root) + args,
    )
}

pub fn pacman_invocation(args: &Vec<String>, root: &Option<String>, is_root: bool, verbose: bool) -> (r: (
    String,
    Vec<String>,
))
    ensures
        (r.0@, strings_view(r.1@)) == pacman_invocation_spec(
            strings_view(args@),
            crate::pacman_log::opt_view(*root),
            is_root,
            verbose,
        ),
{
    let mut out: Vec<String> = Vec::new();
    let prog = if is_root {
        "pacman".to_string()
    } else {
        out.push("pacman".to_string());
        "sudo".to_string()
    };
    if !verbose {
        out.push("--color=never".to_string());
    }
    match root {
        Some(r) => {
            out.push("--root".to_string());
            out.push(r.clone());
        },
        None => {},
    }
    let ghost before = strings_view(out@);
    push_all(&mut out, args);
    proof {
        assert(strings_view(out@) =~= pacman_invocation_spec(
            strings_view(args@),
            crate::pacman_log::opt_view(*root),
            is_root,
            verbose,
        ).1);
    }
    (prog, out)
}

} // verus!
