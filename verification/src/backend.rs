//! Package-manager back ends: the command plans they build, and the
//! preview of a plan that a dry run prints.
use vstd::prelude::*;
use crate::pacman_log::strings_view;
use crate::text::{join, chars_of, string_of, join_exec, append_chars};

verus! {

#[derive(Debug)]
pub enum BackendError {
    NotFound(String),
    NetworkError(String),
    ExecutionError(i32, String),
    ParseError(String),
}

#[derive(Clone, Copy, Debug, PartialEq, Eq, Structural)]
pub struct Capabilities {
    pub supports_aur: bool,
    pub supports_downgrade: bool,
}

/// A command to run: the program, its arguments, and whether it needs root.
#[derive(Debug)]
pub struct CommandPlan {
    pub executable: String,
    pub args: Vec<String>,
    pub requires_root: bool,
}

#[verifier::ext_equal]
pub struct PlanView {
    pub executable: Seq<char>,
    pub args: Seq<Seq<char>>,
    pub requires_root: bool,
}

impl View for CommandPlan {
    type V = PlanView;

    open spec fn view(&self) -> PlanView {
        PlanView {
            executable: self.executable@,
            args: strings_view(self.args@),
            requires_root: self.requires_root,
        }
    }
}

impl BackendError {
    /// The text the error is shown with. An execution error names its exit
    /// code, which the caller passes already written in decimal.
    pub fn message(&self, code_text: &str) -> (r: String)
        ensures
            r@ == match self {
                BackendError::NotFound(p) => "Package not found: "@ + p@,
                BackendError::NetworkError(e) => "Network error: "@ + e@,
                BackendError::ExecutionError(_, e) => "Execution failed ("@ + code_text@ + "): "@
                    + e@,
                BackendError::ParseError(e) => "Parse error: "@ + e@,
            },
    {
        match self {
            BackendError::NotFound(p) => "Package not found: ".to_string().concat(p.as_str()),
            BackendError::NetworkError(e) => "Network error: ".to_string().concat(e.as_str()),
            BackendError::ExecutionError(_, e) => "Execution failed (".to_string().concat(
                code_text,
            ).concat("): ").concat(e.as_str()),
            BackendError::ParseError(e) => "Parse error: ".to_string().concat(e.as_str()),
        }
    }
}

pub struct PacmanBackend {}

pub struct AptBackend {}

/// A plan that runs `exe` as root with `fixed` followed by `extra`.
pub open spec fn root_plan(exe: Seq<char>, fixed: Seq<Seq<char>>, extra: Seq<Seq<char>>) -> PlanView {
    PlanView { executable: exe, args: fixed + extra, requires_root: true }
}

fn strings_of(v: &[&str]) -> (r: Vec<String>)
    ensures
        strings_view(r@) == v@.map_values(|s: &str| s@),
{
    let mut out: Vec<String> = Vec::new();
    let mut k: usize = 0;
    while k < v.len()
        invariant
            k <= v.len(),
            strings_view(out@) == v@.map_values(|s: &str| s@).take(k as int),
        decreases v.len() - k,
    {
        let ghost o = out@;
        out.push(v[k].to_string());
        assert(strings_view(out@) =~= strings_view(o).push(v@[k as int]@));
        assert(v@.map_values(|s: &str| s@).take(k + 1) =~= v@.map_values(|s: &str| s@).take(
            k as int,
        ).push(v@[k as int]@));
        k = k + 1;
    }
    assert(v@.map_values(|s: &str| s@).take(k as int) =~= v@.map_values(|s: &str| s@));
    out
}

fn words_of(a: &str, b: Option<&str>, c: Option<&str>) -> (r: Vec<String>)
    ensures
        strings_view(r@) == seq![a@] + match b {
            Some(x) => seq![x@],
            None => seq![],
        } + match c {
            Some(x) => seq![x@],
            None => seq![],
        },
{
    let mut v: Vec<String> = Vec::new();
    v.push(a.to_string());
    match b {
        Some(x) => v.push(x.to_string()),
        None => {},
    }
    match c {
        Some(x) => v.push(x.to_string()),
        None => {},
    }
    assert(strings_view(v@) =~= seq![a@] + match b {
        Some(x) => seq![x@],
        None => seq![],
    } + match c {
        Some(x) => seq![x@],
        None => seq![],
    });
    v
}

fn plan(exe: &str, fixed: Vec<String>, extra: &[&str]) -> (r: CommandPlan)
    ensures
        r@ == root_plan(exe@, strings_view(fixed@), extra@.map_values(|s: &str| s@)),
{
    let mut args = fixed;
    let mut more = strings_of(extra);
    let ghost a = args@;
    let ghost m = more@;
    args.append(&mut more);
    assert(strings_view(args@) =~= strings_view(a) + strings_view(m));
    CommandPlan { executable: exe.to_string(), args, requires_root: true }
}

impl PacmanBackend {
    pub fn new() -> (r: Result<PacmanBackend, BackendError>)
        ensures
            r is Ok,
    {
        Ok(PacmanBackend {  })
    }

    pub fn name(&self) -> (r: &'static str)
        ensures
            r@ == "pacman"@,
    {
        "pacman"
    }

    pub fn capabilities(&self) -> (c: Capabilities)
        ensures
            c.supports_aur && c.supports_downgrade,
    {
        Capabilities { supports_aur: true, supports_downgrade: true }
    }

    /// `pacman -S --noconfirm` with the packages.
    pub fn build_install(&self, packages: &[&str]) -> (r: Result<CommandPlan, BackendError>)
        ensures
            r matches Ok(p) && p@ == root_plan(
                "pacman"@,
                seq!["-S"@, "--noconfirm"@],
                packages@.map_values(|s: &str| s@),
            ),
    {
        let p = plan("pacman", words_of("-S", Some("--noconfirm"), None), packages);
        Ok(p)
    }

    /// `pacman -Rs --noconfirm` with the packages.
    pub fn build_remove(&self, packages: &[&str]) -> (r: Result<CommandPlan, BackendError>)
        ensures
            r matches Ok(p) && p@ == root_plan(
                "pacman"@,
                seq!["-Rs"@, "--noconfirm"@],
                packages@.map_values(|s: &str| s@),
            ),
    {
        Ok(plan("pacman", words_of("-Rs", Some("--noconfirm"), None), packages))
    }

    /// `pacman -Sy --noconfirm`.
    pub fn build_update(&self) -> (r: Result<CommandPlan, BackendError>)
        ensures
            r matches Ok(p) && p@ == root_plan("pacman"@, seq!["-Sy"@, "--noconfirm"@], seq![]),
    {
        Ok(plan("pacman", words_of("-Sy", Some("--noconfirm"), None), &[]))
    }

    /// `pacman -Su --noconfirm`.
    pub fn build_upgrade(&self) -> (r: Result<CommandPlan, BackendError>)
        ensures
            r matches Ok(p) && p@ == root_plan("pacman"@, seq!["-Su"@, "--noconfirm"@], seq![]),
    {
        Ok(plan("pacman", words_of("-Su", Some("--noconfirm"), None), &[]))
    }
}

impl AptBackend {
    pub fn new() -> (r: Result<AptBackend, BackendError>)
        ensures
            r is Ok,
    {
        Ok(AptBackend {  })
    }

    pub fn name(&self) -> (r: &'static str)
        ensures
            r@ == "apt"@,
    {
        "apt"
    }

    pub fn capabilities(&self) -> (c: Capabilities)
        ensures
            !c.supports_aur && c.supports_downgrade,
    {
        Capabilities { supports_aur: false, supports_downgrade: true }
    }

    /// `apt-get install -y` with the packages.
    pub fn build_install(&self, packages: &[&str]) -> (r: Result<CommandPlan, BackendError>)
        ensures
            r matches Ok(p) && p@ == root_plan(
                "apt-get"@,
                seq!["install"@, "-y"@],
                packages@.map_values(|s: &str| s@),
            ),
    {
        Ok(plan("apt-get", words_of("install", Some("-y"), None), packages))
    }

    /// `apt-get remove --auto-remove -y` with the packages.
    pub fn build_remove(&self, packages: &[&str]) -> (r: Result<CommandPlan, BackendError>)
        ensures
            r matches Ok(p) && p@ == root_plan(
                "apt-get"@,
                seq!["remove"@, "--auto-remove"@, "-y"@],
                packages@.map_values(|s: &str| s@),
            ),
    {
        Ok(plan("apt-get", words_of("remove", Some("--auto-remove"), Some("-y")), packages))
    }

    /// `apt-get update`.
    pub fn build_update(&self) -> (r: Result<CommandPlan, BackendError>)
        ensures
            r matches Ok(p) && p@ == root_plan("apt-get"@, seq!["update"@], seq![]),
    {
        Ok(plan("apt-get", words_of("update", None, None), &[]))
    }

    /// `apt-get upgrade -y`.
    pub fn build_upgrade(&self) -> (r: Result<CommandPlan, BackendError>)
        ensures
            r matches Ok(p) && p@ == root_plan("apt-get"@, seq!["upgrade"@, "-y"@], seq![]),
    {
        Ok(plan("apt-get", words_of("upgrade", Some("-y"), None), &[]))
    }
}

/// What a dry run of a plan says it would execute: `sudo ` when the plan
/// needs root, the program, a space and the arguments joined by spaces.
pub open spec fn plan_preview(p: PlanView) -> Seq<char> {
    (if p.requires_root {
        "sudo "@
    } else {
        ""@
    }) + p.executable + " "@ + join(p.args, " "@)
}

pub fn plan_preview_exec(p: &CommandPlan) -> (r: String)
    ensures
        r@ == plan_preview(p@),
{
    let mut out: Vec<char> = if p.requires_root {
        chars_of("sudo ")
    } else {
        chars_of("")
    };
    append_chars(&mut out, chars_of(p.executable.as_str()).as_slice());
    append_chars(&mut out, chars_of(" ").as_slice());
    append_chars(&mut out, chars_of(join_exec(&p.args, " ").as_str()).as_slice());
    string_of(out.as_slice())
}

/// What a dry run of a pacman call says it would execute: `sudo pacman `,
/// then `--root <path> ` when a root is given, then the arguments.
pub open spec fn pacman_preview(args: Seq<Seq<char>>, root: Option<Seq<char>>) -> Seq<char> {
    "sudo pacman "@ + match root {
        Some(r) => "--root "@ + r + " "@,
        None => ""@,
    } + join(args, " "@)
}

pub fn pacman_preview_exec(args: &Vec<String>, root: &Option<String>) -> (r: String)
    ensures
        r@ == pacman_preview(strings_view(args@), crate::pacman_log::opt_view(*root)),
{
    let mut out = chars_of("sudo pacman ");
    match root {
        Some(rt) => {
            append_chars(&mut out, chars_of("--root ").as_slice());
            append_chars(&mut out, chars_of(rt.as_str()).as_slice());
            append_chars(&mut out, chars_of(" ").as_slice());
        },
        None => {},
    }
    append_chars(&mut out, chars_of(join_exec(args, " ").as_str()).as_slice());
    proof {
        match root {
            Some(rt) => {},
            None => {
                assert(out@ =~= "sudo pacman "@ + ""@ + join(strings_view(args@), " "@)) by {
                    reveal_strlit("");
                }
            },
        }
    }
    string_of(out.as_slice())
}

} // verus!
