//! Building packages from the AUR: the records its search answers with,
//! the build dependencies read from `.SRCINFO`, the stages of `makepkg`
//! and the archive it leaves behind.
use vstd::prelude::*;
use crate::pacman_log::strings_view;
use crate::text::{chars_of, string_of, lines, lines_exec, trim, trim_exec, starts_with,
    starts_with_exec, find, find_exec, before_first, before_first_exec, contains, contains_exec,
    slice_range, join, join_exec};

verus! {

/// A package as the AUR's search answers it.
#[derive(Debug)]
pub struct AurPackage {
    pub name: String,
    pub version: String,
    pub description: Option<String>,
    pub num_votes: u64,
}

/// The AUR's answer to a search.
#[derive(Debug)]
pub struct AurResponse {
    pub results: Vec<AurPackage>,
}

/// The second piece of `t.split(sep)`: what lies between the first and the
/// second `sep` (or the end).
pub open spec fn second_piece(t: Seq<char>, sep: Seq<char>) -> Option<Seq<char>> {
    match find(t, sep) {
        None => None,
        Some(i) => Some(before_first(t.skip(i + sep.len()), sep)),
    }
}

/// The dependency that one `.SRCINFO` line declares, if it is a
/// `depends` or `makedepends` line.
pub open spec fn srcinfo_dep(line: Seq<char>) -> Option<Seq<char>> {
    let t = trim(line);
    if starts_with(t, "depends ="@) || starts_with(t, "makedepends ="@) {
        second_piece(t, " = "@)
    } else {
        None
    }
}

/// The run and build dependencies of the lines `ls`, in order.
pub open spec fn srcinfo_deps(ls: Seq<Seq<char>>) -> Seq<Seq<char>>
    decreases ls.len(),
{
    if ls.len() == 0 {
        seq![]
    } else {
        let rest = srcinfo_deps(ls.drop_last());
        match srcinfo_dep(ls.last()) {
            Some(d) => rest.push(d),
            None => rest,
        }
    }
}

fn srcinfo_dep_exec(line: &[char]) -> (r: Option<Vec<char>>)
    ensures
        match r {
            Some(d) => srcinfo_dep(line@) == Some(d@),
            None => srcinfo_dep(line@) is None,
        },
{
    proof {
        reveal_strlit(" = ");
    }
    let t = trim_exec(line);
    let d1 = chars_of("depends =");
    let d2 = chars_of("makedepends =");
    if !(starts_with_exec(t.as_slice(), d1.as_slice()) || starts_with_exec(t.as_slice(), d2.as_slice())) {
        return None;
    }
    let sep = chars_of(" = ");
    match find_exec(t.as_slice(), sep.as_slice()) {
        None => None,
        Some(i) => {
            let rest = slice_range(t.as_slice(), i + 3, t.len());
            assert(rest@ =~= t@.skip(i + 3));
            Some(before_first_exec(rest.as_slice(), sep.as_slice()))
        },
    }
}

/// The dependencies (`depends` and `makedepends`) that the output of
/// `makepkg --printsrcinfo` declares, in order.
pub fn srcinfo_dependencies(srcinfo: &str) -> (r: Vec<String>)
    ensures
        strings_view(r@) == srcinfo_deps(lines(srcinfo@)),
{
    let ls = lines_exec(chars_of(srcinfo).as_slice());
    let ghost lv = lines(srcinfo@);
    let mut out: Vec<String> = Vec::new();
    let mut k: usize = 0;
    assert(strings_view(out@) =~= srcinfo_deps(lv.take(0)));
    while k < ls.len()
        invariant
            k <= ls.len(),
            lv == lines(srcinfo@),
            ls@.len() == lv.len(),
            forall|i: int| 0 <= i < ls@.len() ==> (#[trigger] ls@[i])@ == lv[i],
            strings_view(out@) == srcinfo_deps(lv.take(k as int)),
        decreases ls.len() - k,
    {
        assert(lv.take(k + 1).drop_last() =~= lv.take(k as int));
        assert(lv.take(k + 1).last() == ls@[k as int]@);
        let ghost o = out@;
        match srcinfo_dep_exec(ls[k].as_slice()) {
            Some(d) => {
                out.push(string_of(d.as_slice()));
                assert(strings_view(out@) =~= strings_view(o).push(d@));
            },
            None => {},
        }
        k = k + 1;
    }
    assert(lv.take(k as int) =~= lv);
    out
}

/// The non-empty lines of `ls`, trimmed.
pub open spec fn nonblank_trimmed(ls: Seq<Seq<char>>) -> Seq<Seq<char>>
    decreases ls.len(),
{
    if ls.len() == 0 {
        seq![]
    } else {
        let rest = nonblank_trimmed(ls.drop_last());
        let t = trim(ls.last());
        if t.len() > 0 {
            rest.push(t)
        } else {
            rest
        }
    }
}

/// The trimmed non-empty lines of a command's output, such as the
/// dependencies that `pacman -T` reports missing.
pub fn nonblank_lines(output: &str) -> (r: Vec<String>)
    ensures
        strings_view(r@) == nonblank_trimmed(lines(output@)),
{
    let ls = lines_exec(chars_of(output).as_slice());
    let ghost lv = lines(output@);
    let mut out: Vec<String> = Vec::new();
    let mut k: usize = 0;
    assert(strings_view(out@) =~= nonblank_trimmed(lv.take(0)));
    while k < ls.len()
        invariant
            k <= ls.len(),
            lv == lines(output@),
            ls@.len() == lv.len(),
            forall|i: int| 0 <= i < ls@.len() ==> (#[trigger] ls@[i])@ == lv[i],
            strings_view(out@) == nonblank_trimmed(lv.take(k as int)),
        decreases ls.len() - k,
    {
        assert(lv.take(k + 1).drop_last() =~= lv.take(k as int));
        assert(lv.take(k + 1).last() == ls@[k as int]@);
        let t = trim_exec(ls[k].as_slice());
        let ghost o = out@;
        if t.len() > 0 {
            out.push(string_of(t.as_slice()));
            assert(strings_view(out@) =~= strings_view(o).push(t@));
        }
        k = k + 1;
    }
    assert(lv.take(k as int) =~= lv);
    out
}

/// A stage of `makepkg` that the build spinner announces.
#[derive(Clone, Copy, Debug, PartialEq, Eq, Structural)]
pub enum BuildStage {
    Initializing,
    Downloading,
    Compiling,
    Packaging,
}

/// The stage that a line of `makepkg`'s output starts, if any.
pub open spec fn build_stage(line: Seq<char>) -> Option<BuildStage> {
    let t = trim(line);
    if starts_with(t, "==> Making package:"@) {
        Some(BuildStage::Initializing)
    } else if starts_with(t, "==> Retrieving sources"@) {
        Some(BuildStage::Downloading)
    } else if starts_with(t, "==> Starting build()"@) {
        Some(BuildStage::Compiling)
    } else if starts_with(t, "==> Starting package()"@) {
        Some(BuildStage::Packaging)
    } else {
        None
    }
}

pub fn makepkg_stage(line: &str) -> (r: Option<BuildStage>)
    ensures
        r == build_stage(line@),
{
    let t = trim_exec(chars_of(line).as_slice());
    if starts_with_exec(t.as_slice(), chars_of("==> Making package:").as_slice()) {
        Some(BuildStage::Initializing)
    } else if starts_with_exec(t.as_slice(), chars_of("==> Retrieving sources").as_slice()) {
        Some(BuildStage::Downloading)
    } else if starts_with_exec(t.as_slice(), chars_of("==> Starting build()").as_slice()) {
        Some(BuildStage::Compiling)
    } else if starts_with_exec(t.as_slice(), chars_of("==> Starting package()").as_slice()) {
        Some(BuildStage::Packaging)
    } else {
        None
    }
}

/// A file that `makepkg` left is the package archive: its name holds
/// `.pkg.tar.` and is not a debug package.
pub open spec fn built_archive(file_name: Seq<char>) -> bool {
    contains(file_name, ".pkg.tar."@) && !contains(file_name, "-debug-"@)
}

pub fn is_built_archive(file_name: &str) -> (r: bool)
    ensures
        r == built_archive(file_name@),
{
    let f = chars_of(file_name);
    contains_exec(f.as_slice(), chars_of(".pkg.tar.").as_slice()) && !contains_exec(
        f.as_slice(),
        chars_of("-debug-").as_slice(),
    )
}

/// The error shown when the missing build dependencies could not be
/// installed: it names the command to run by hand.
pub fn missing_deps_error(missing: &Vec<String>) -> (r: String)
    ensures
        r@ == "failed to install missing build dependencies. (one of them might be an aur package). run 'pacman -S "@
            + join(strings_view(missing@), " "@) + "' manually to debug."@,
{
    let j = join_exec(missing, " ");
    "failed to install missing build dependencies. (one of them might be an aur package). run 'pacman -S ".to_string().concat(
        j.as_str(),
    ).concat("' manually to debug.")
}

/// Whether an AUR build may start: makepkg refuses to run as root, so as
/// root the build is refused with `cross` (the styled mark the caller
/// draws) before the reason; otherwise it goes on.
pub fn build_refusal(is_root: bool, cross: &str) -> (r: Option<String>)
    ensures
        is_root ==> (r matches Some(m) && m@ == cross@
            + " makepkg cannot run as root. please run haj as a normal user."@),
        !is_root ==> r is None,
{
    if is_root {
        Some(cross.to_string().concat(" makepkg cannot run as root. please run haj as a normal user."))
    } else {
        None
    }
}

} // verus!
