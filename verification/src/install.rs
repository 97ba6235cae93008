//! Installing packages: which targets come from the repositories and which
//! from the AUR, what the AUR answers about them, the questions asked and
//! the pacman arguments that carry the installation out.
use vstd::prelude::*;
use crate::pacman_log::strings_view;
use crate::conflicts::opt_view;
use crate::text::{chars_of, string_of, str_eq, trim, trim_exec, lowercase, to_lowercase, words,
    words_exec, contains, contains_exec, seq_eq};

verus! {

/// The answer to the question before an installation.
#[derive(Clone, Copy, Debug, PartialEq, Eq, Structural)]
pub enum InstallChoice {
    Yes,
    No,
    View,
}

/// A key as the yes/no questions read it.
#[derive(Clone, Copy, Debug, PartialEq, Eq, Structural)]
pub enum PromptKey {
    Char(char),
    Enter,
    CtrlC,
    Other,
}

/// The answer a key gives to a yes/no question: Ctrl-C and `n` say no,
/// `y` and Enter say yes, other keys are ignored.
pub open spec fn confirm_key_spec(k: PromptKey) -> Option<bool> {
    match k {
        PromptKey::CtrlC => Some(false),
        PromptKey::Enter => Some(true),
        PromptKey::Char(c) => if c == 'y' || c == 'Y' {
            Some(true)
        } else if c == 'n' || c == 'N' {
            Some(false)
        } else {
            None
        },
        PromptKey::Other => None,
    }
}

pub fn confirm_key(k: PromptKey) -> (r: Option<bool>)
    ensures
        r == confirm_key_spec(k),
{
    match k {
        PromptKey::CtrlC => Some(false),
        PromptKey::Enter => Some(true),
        PromptKey::Char(c) => if c == 'y' || c == 'Y' {
            Some(true)
        } else if c == 'n' || c == 'N' {
            Some(false)
        } else {
            None
        },
        PromptKey::Other => None,
    }
}

/// The answer a key gives to the question before an installation: as
/// `confirm_key`, and `v` asks to view the build scripts.
pub open spec fn install_key_spec(k: PromptKey) -> Option<InstallChoice> {
    match k {
        PromptKey::Char(c) => if c == 'v' || c == 'V' {
            Some(InstallChoice::View)
        } else {
            match confirm_key_spec(k) {
                Some(true) => Some(InstallChoice::Yes),
                Some(false) => Some(InstallChoice::No),
                None => None,
            }
        },
        _ => match confirm_key_spec(k) {
            Some(true) => Some(InstallChoice::Yes),
            Some(false) => Some(InstallChoice::No),
            None => None,
        },
    }
}

pub fn install_key(k: PromptKey) -> (r: Option<InstallChoice>)
    ensures
        r == install_key_spec(k),
{
    if let PromptKey::Char(c) = k {
        if c == 'v' || c == 'V' {
            return Some(InstallChoice::View);
        }
    }
    match confirm_key(k) {
        Some(true) => Some(InstallChoice::Yes),
        Some(false) => Some(InstallChoice::No),
        None => None,
    }
}

/// A typed answer to a yes/no question, when keys cannot be read one by
/// one: empty or `y` (after trimming, in any case) is yes.
pub open spec fn confirm_line_spec(input: Seq<char>) -> bool {
    let a = lowercase(trim(input));
    a.len() == 0 || a == "y"@
}

pub fn confirm_line(input: &str) -> (r: bool)
    ensures
        r == confirm_line_spec(input@),
{
    let t = trim_exec(chars_of(input).as_slice());
    let a = to_lowercase(t.as_slice());
    let y = chars_of("y");
    a.len() == 0 || seq_eq(a.as_slice(), y.as_slice())
}

/// A typed answer to the question before an installation: `v` views the
/// build scripts, empty or `y` goes on, anything else stops.
pub open spec fn install_line_spec(input: Seq<char>) -> InstallChoice {
    let a = lowercase(trim(input));
    if a == "v"@ {
        InstallChoice::View
    } else if a.len() == 0 || a == "y"@ {
        InstallChoice::Yes
    } else {
        InstallChoice::No
    }
}

pub fn install_line(input: &str) -> (r: InstallChoice)
    ensures
        r == install_line_spec(input@),
{
    let t = trim_exec(chars_of(input).as_slice());
    let a = to_lowercase(t.as_slice());
    let v = chars_of("v");
    let y = chars_of("y");
    if seq_eq(a.as_slice(), v.as_slice()) {
        InstallChoice::View
    } else if a.len() == 0 || seq_eq(a.as_slice(), y.as_slice()) {
        InstallChoice::Yes
    } else {
        InstallChoice::No
    }
}

/// The targets of an installation split by origin: those found in a sync
/// database (unless only the AUR is wanted), or all when only the
/// repositories are wanted, go to pacman; the others, with the version
/// installed now, go to the AUR.
pub open spec fn split_targets_spec(
    packages: Seq<String>,
    in_repo: Seq<bool>,
    local: Seq<Option<String>>,
    aur_only: bool,
    repo_only: bool,
) -> (Seq<Seq<char>>, Seq<(Seq<char>, Option<Seq<char>>)>)
    decreases packages.len(),
{
    if packages.len() == 0 {
        (seq![], seq![])
    } else {
        let n = (packages.len() - 1) as int;
        let rest = split_targets_spec(
            packages.drop_last(),
            in_repo.take(n),
            local.take(n),
            aur_only,
            repo_only,
        );
        if (!aur_only && in_repo[n]) || repo_only {
            (rest.0.push(packages[n]@), rest.1)
        } else {
            (rest.0, rest.1.push((packages[n]@, opt_view(local[n]))))
        }
    }
}

pub open spec fn aur_targets_view(v: Seq<(String, Option<String>)>) -> Seq<(Seq<char>, Option<Seq<char>>)> {
    v.map_values(|p: (String, Option<String>)| (p.0@, opt_view(p.1)))
}

fn clone_opt(o: &Option<String>) -> (r: Option<String>)
    ensures
        opt_view(r) == opt_view(*o),
{
    match o {
        Some(s) => Some(s.clone()),
        None => None,
    }
}

/// Splits the targets of an installation: `in_repo[i]` tells whether a sync
/// database holds `packages[i]`, `local[i]` the version installed now.
pub fn split_targets(
    packages: &Vec<String>,
    in_repo: &Vec<bool>,
    local: &Vec<Option<String>>,
    aur_only: bool,
    repo_only: bool,
) -> (r: (Vec<String>, Vec<(String, Option<String>)>))
    requires
        in_repo.len() == packages.len(),
        local.len() == packages.len(),
    ensures
        strings_view(r.0@) == split_targets_spec(packages@, in_repo@, local@, aur_only, repo_only).0,
        aur_targets_view(r.1@) == split_targets_spec(packages@, in_repo@, local@, aur_only, repo_only).1,
{
    let mut native: Vec<String> = Vec::new();
    let mut aur: Vec<(String, Option<String>)> = Vec::new();
    let mut k: usize = 0;
    assert(strings_view(native@) =~= Seq::<Seq<char>>::empty());
    assert(aur_targets_view(aur@) =~= Seq::<(Seq<char>, Option<Seq<char>>)>::empty());
    while k < packages.len()
        invariant
            k <= packages.len(),
            in_repo.len() == packages.len(),
            local.len() == packages.len(),
            strings_view(native@) == split_targets_spec(
                packages@.take(k as int),
                in_repo@.take(k as int),
                local@.take(k as int),
                aur_only,
                repo_only,
            ).0,
            aur_targets_view(aur@) == split_targets_spec(
                packages@.take(k as int),
                in_repo@.take(k as int),
                local@.take(k as int),
                aur_only,
                repo_only,
            ).1,
        decreases packages.len() - k,
    {
        assert(packages@.take(k + 1).drop_last() =~= packages@.take(k as int));
        assert(in_repo@.take(k + 1).take(k as int) =~= in_repo@.take(k as int));
        assert(local@.take(k + 1).take(k as int) =~= local@.take(k as int));
        let ghost n0 = native@;
        let ghost a0 = aur@;
        if (!aur_only && in_repo[k]) || repo_only {
            native.push(packages[k].clone());
            assert(strings_view(native@) =~= strings_view(n0).push(packages@[k as int]@));
        } else {
            let entry = (packages[k].clone(), clone_opt(&local[k]));
            aur.push(entry);
            assert(aur_targets_view(aur@) =~= aur_targets_view(a0).push(
                (packages@[k as int]@, opt_view(local@[k as int])),
            ));
        }
        k = k + 1;
    }
    assert(packages@.take(k as int) =~= packages@);
    assert(in_repo@.take(k as int) =~= in_repo@);
    assert(local@.take(k as int) =~= local@);
    (native, aur)
}

/// Appends the characters of `t`.
fn push_str(out: &mut Vec<char>, t: &str)
    ensures
        final(out)@ == old(out)@ + t@,
{
    let tc = chars_of(t);
    let mut k: usize = 0;
    let ghost o0 = out@;
    while k < tc.len()
        invariant
            k <= tc.len(),
            tc@ == t@,
            out@ == o0 + tc@.take(k as int),
        decreases tc.len() - k,
    {
        out.push(tc[k]);
        assert(tc@.take(k + 1) =~= tc@.take(k as int).push(tc@[k as int]));
        k = k + 1;
    }
    assert(tc@.take(k as int) =~= tc@);
}

/// The query part of an AUR info request: `arg[]=<name>&` for each name.
pub open spec fn aur_args(names: Seq<Seq<char>>) -> Seq<char>
    decreases names.len(),
{
    if names.len() == 0 {
        seq![]
    } else {
        aur_args(names.drop_last()) + "arg[]="@ + names.last() + "&"@
    }
}

/// The address of the AUR request for information on `names`.
pub open spec fn aur_info_url_spec(names: Seq<Seq<char>>) -> Seq<char> {
    "https://aur.archlinux.org/rpc/v5/info?"@ + aur_args(names)
}

pub fn aur_info_url(names: &Vec<String>) -> (r: String)
    ensures
        r@ == aur_info_url_spec(strings_view(names@)),
{
    let mut out = chars_of("https://aur.archlinux.org/rpc/v5/info?");
    let ghost start = out@;
    let mut k: usize = 0;
    let ghost nv = strings_view(names@);
    assert(nv.take(0) =~= Seq::<Seq<char>>::empty());
    assert(out@ =~= start + aur_args(nv.take(0)));
    while k < names.len()
        invariant
            k <= names.len(),
            nv == strings_view(names@),
            out@ == start + aur_args(nv.take(k as int)),
        decreases names.len() - k,
    {
        assert(nv.take(k + 1).drop_last() =~= nv.take(k as int));
        assert(nv.take(k + 1).last() == names@[k as int]@);
        push_str(&mut out, "arg[]=");
        push_str(&mut out, names[k].as_str());
        push_str(&mut out, "&");
        assert(out@ =~= start + aur_args(nv.take(k + 1)));
        k = k + 1;
    }
    assert(nv.take(k as int) =~= nv);
    string_of(out.as_slice())
}

/// What the AUR says of a package, as far as an installation reads it:
/// its name, version and conflicts when the answer holds them as text.
#[derive(Debug)]
pub struct AurInfo {
    pub name: Option<String>,
    pub version: Option<String>,
    pub conflicts: Option<Vec<String>>,
}

/// An AUR package to build: name, version offered, whether it replaces an
/// installed version, and that version.
#[derive(Debug)]
pub struct AurTarget {
    pub name: String,
    pub version: String,
    pub is_update: bool,
    pub local_version: Option<String>,
}

/// What is reported of an AUR target that will not be built.
#[derive(Debug, PartialEq, Eq)]
pub enum AurNotice {
    UpToDate { name: String, version: String },
    NotFound { name: String },
}

/// Index of the first answer named `name`.
pub open spec fn find_info(results: Seq<AurInfo>, name: Seq<char>, k: int) -> Option<int>
    decreases results.len() - k,
{
    if k < 0 || k >= results.len() {
        None
    } else if opt_view(results[k].name) == Some(name) {
        Some(k)
    } else {
        find_info(results, name, k + 1)
    }
}

/// One step of reading the AUR's answer for the target `name` whose
/// installed version is `local`: the target to build, the conflicts to
/// record, and the notice to print.
pub open spec fn resolve_one(results: Seq<AurInfo>, name: Seq<char>, local: Option<Seq<char>>) -> (
    Option<(Seq<char>, Seq<char>, bool, Option<Seq<char>>)>,
    Option<Seq<Seq<char>>>,
    Option<(bool, Seq<char>, Seq<char>)>,
) {
    match find_info(results, name, 0) {
        None => (None, None, Some((false, name, seq![]))),
        Some(i) => {
            let r = results[i];
            let conflicts = match r.conflicts {
                Some(c) => if c@.len() > 0 {
                    Some(strings_view(c@))
                } else {
                    None
                },
                None => None,
            };
            match opt_view(r.version) {
                None => (None, conflicts, None),
                Some(v) => match local {
                    Some(lv) => if lv == v {
                        (None, conflicts, Some((true, name, v)))
                    } else {
                        (Some((name, v, true, local)), conflicts, None)
                    },
                    None => (Some((name, v, false, local)), conflicts, None),
                },
            }
        },
    }
}

pub open spec fn target_view(t: AurTarget) -> (Seq<char>, Seq<char>, bool, Option<Seq<char>>) {
    (t.name@, t.version@, t.is_update, opt_view(t.local_version))
}

pub open spec fn notice_view(n: AurNotice) -> (bool, Seq<char>, Seq<char>) {
    match n {
        AurNotice::UpToDate { name, version } => (true, name@, version@),
        AurNotice::NotFound { name } => (false, name@, seq![]),
    }
}

/// The conflict lists recorded so far with `list` recorded for `name`,
/// replacing an earlier list of that name.
pub open spec fn record_conflicts(map: Seq<(Seq<char>, Seq<Seq<char>>)>, name: Seq<char>, list: Seq<Seq<char>>) -> Seq<
    (Seq<char>, Seq<Seq<char>>),
> {
    if exists|i: int| 0 <= i < map.len() && (#[trigger] map[i]).0 == name {
        let i = choose|i: int| 0 <= i < map.len() && (#[trigger] map[i]).0 == name;
        map.update(i, (name, list))
    } else {
        map.push((name, list))
    }
}

pub open spec fn conflict_map_view(m: Seq<(String, Vec<String>)>) -> Seq<(Seq<char>, Seq<Seq<char>>)> {
    m.map_values(|p: (String, Vec<String>)| (p.0@, strings_view(p.1@)))
}

/// No name is recorded twice.
pub open spec fn names_unique(m: Seq<(Seq<char>, Seq<Seq<char>>)>) -> bool {
    forall|i: int, j: int| 0 <= i < j < m.len() ==> (#[trigger] m[i]).0 != (#[trigger] m[j]).0
}

/// Reading the AUR's answer for all AUR targets, in order.
pub open spec fn resolve_all(results: Seq<AurInfo>, targets: Seq<(Seq<char>, Option<Seq<char>>)>) -> (
    Seq<(Seq<char>, Seq<char>, bool, Option<Seq<char>>)>,
    Seq<(Seq<char>, Seq<Seq<char>>)>,
    Seq<(bool, Seq<char>, Seq<char>)>,
)
    decreases targets.len(),
{
    if targets.len() == 0 {
        (seq![], seq![], seq![])
    } else {
        let rest = resolve_all(results, targets.drop_last());
        let t = targets.last();
        let step = resolve_one(results, t.0, t.1);
        (
            match step.0 {
                Some(x) => rest.0.push(x),
                None => rest.0,
            },
            match step.1 {
                Some(c) => record_conflicts(rest.1, t.0, c),
                None => rest.1,
            },
            match step.2 {
                Some(n) => rest.2.push(n),
                None => rest.2,
            },
        )
    }
}

fn clone_strings(v: &Vec<String>) -> (r: Vec<String>)
    ensures
        strings_view(r@) == strings_view(v@),
{
    let mut out: Vec<String> = Vec::new();
    let mut k: usize = 0;
    while k < v.len()
        invariant
            k <= v.len(),
            strings_view(out@) == strings_view(v@).take(k as int),
        decreases v.len() - k,
    {
        let ghost o = out@;
        out.push(v[k].clone());
        assert(strings_view(out@) =~= strings_view(o).push(v@[k as int]@));
        assert(strings_view(v@).take(k + 1) =~= strings_view(v@).take(k as int).push(v@[k as int]@));
        k = k + 1;
    }
    assert(strings_view(v@).take(k as int) =~= strings_view(v@));
    out
}

fn find_info_exec(results: &Vec<AurInfo>, name: &str) -> (r: Option<usize>)
    ensures
        match r {
            Some(i) => find_info(results@, name@, 0) == Some(i as int) && i < results.len(),
            None => find_info(results@, name@, 0) is None,
        },
{
    let mut k: usize = 0;
    while k < results.len()
        invariant
            k <= results.len(),
            find_info(results@, name@, 0) == find_info(results@, name@, k as int),
        decreases results.len() - k,
    {
        match &results[k].name {
            Some(n) => {
                if str_eq(n.as_str(), name) {
                    return Some(k);
                }
            },
            None => {},
        }
        k = k + 1;
    }
    None
}

fn record_conflicts_exec(map: &mut Vec<(String, Vec<String>)>, name: &str, list: Vec<String>)
    requires
        names_unique(conflict_map_view(old(map)@)),
    ensures
        names_unique(conflict_map_view(final(map)@)),
        conflict_map_view(final(map)@) == record_conflicts(
            conflict_map_view(old(map)@),
            name@,
            strings_view(list@),
        ),
{
    let ghost m0 = conflict_map_view(map@);
    let mut k: usize = 0;
    while k < map.len()
        invariant
            k <= map.len(),
            map@ == old(map)@,
            m0 == conflict_map_view(map@),
            names_unique(m0),
            forall|j: int| 0 <= j < k ==> m0[j].0 != name@,
        decreases map.len() - k,
    {
        if str_eq(map[k].0.as_str(), name) {
            proof {
                assert(m0[k as int].0 == name@);
                let i = choose|i: int| 0 <= i < m0.len() && (#[trigger] m0[i]).0 == name@;
                assert(i == k) by {
                    if i != k {
                        if i < k {
                            assert(m0[i].0 != name@);
                        } else {
                            assert(m0[k as int].0 != m0[i].0);
                        }
                    }
                }
            }
            let _old = map.remove(k);
            map.insert(k, (name.to_string(), list));
            assert(conflict_map_view(map@) =~= m0.update(k as int, (name@, strings_view(list@))));
            assert forall|i: int| 0 <= i < m0.len() implies (#[trigger] conflict_map_view(map@)[i]).0
                == m0[i].0 by {}
            return;
        }
        k = k + 1;
    }
    map.push((name.to_string(), list));
    assert(conflict_map_view(map@) =~= m0.push((name@, strings_view(list@))));
    assert(!(exists|i: int| 0 <= i < m0.len() && (#[trigger] m0[i]).0 == name@));
}

/// Reads the AUR's answer `results` for the AUR targets `targets` (names
/// with their installed versions): the packages to build, the conflict
/// lists to check (one per name, the last one read), and what to tell the
/// user of the others.
pub fn resolve_aur_targets(results: &Vec<AurInfo>, targets: &Vec<(String, Option<String>)>) -> (r: (
    Vec<AurTarget>,
    Vec<(String, Vec<String>)>,
    Vec<AurNotice>,
))
    ensures
        r.0@.map_values(|t: AurTarget| target_view(t)) == resolve_all(results@, aur_targets_view(targets@)).0,
        conflict_map_view(r.1@) == resolve_all(results@, aur_targets_view(targets@)).1,
        r.2@.map_values(|n: AurNotice| notice_view(n)) == resolve_all(results@, aur_targets_view(targets@)).2,
        names_unique(conflict_map_view(r.1@)),
{
    let ghost tv = aur_targets_view(targets@);
    let mut built: Vec<AurTarget> = Vec::new();
    let mut cmap: Vec<(String, Vec<String>)> = Vec::new();
    let mut notes: Vec<AurNotice> = Vec::new();
    let mut k: usize = 0;
    assert(tv.take(0) =~= Seq::<(Seq<char>, Option<Seq<char>>)>::empty());
    assert(conflict_map_view(cmap@) =~= Seq::<(Seq<char>, Seq<Seq<char>>)>::empty());
    assert(built@.map_values(|t: AurTarget| target_view(t)) =~= resolve_all(results@, tv.take(0)).0);
    assert(notes@.map_values(|n: AurNotice| notice_view(n)) =~= resolve_all(results@, tv.take(0)).2);
    while k < targets.len()
        invariant
            k <= targets.len(),
            tv == aur_targets_view(targets@),
            built@.map_values(|t: AurTarget| target_view(t)) == resolve_all(results@, tv.take(k as int)).0,
            conflict_map_view(cmap@) == resolve_all(results@, tv.take(k as int)).1,
            notes@.map_values(|n: AurNotice| notice_view(n)) == resolve_all(results@, tv.take(k as int)).2,
            names_unique(conflict_map_view(cmap@)),
        decreases targets.len() - k,
    {
        assert(tv.take(k + 1).drop_last() =~= tv.take(k as int));
        assert(tv.take(k + 1).last() == (targets@[k as int].0@, opt_view(targets@[k as int].1)));
        let name = targets[k].0.as_str();
        let local = &targets[k].1;
        let ghost b0 = built@;
        let ghost n0 = notes@;
        match find_info_exec(results, name) {
            None => {
                notes.push(AurNotice::NotFound { name: name.to_string() });
                assert(notes@.map_values(|n: AurNotice| notice_view(n)) =~= n0.map_values(
                    |n: AurNotice| notice_view(n),
                ).push((false, name@, seq![])));
            },
            Some(i) => {
                let r = &results[i];
                match &r.conflicts {
                    Some(c) => {
                        if c.len() > 0 {
                            record_conflicts_exec(&mut cmap, name, clone_strings(c));
                        }
                    },
                    None => {},
                }
                match &r.version {
                    None => {},
                    Some(v) => {
                        match local {
                            Some(lv) => {
                                if str_eq(lv.as_str(), v.as_str()) {
                                    notes.push(
                                        AurNotice::UpToDate {
                                            name: name.to_string(),
                                            version: v.clone(),
                                        },
                                    );
                                    assert(notes@.map_values(|n: AurNotice| notice_view(n)) =~= n0.map_values(
                                        |n: AurNotice| notice_view(n),
                                    ).push((true, name@, v@)));
                                } else {
                                    built.push(
                                        AurTarget {
                                            name: name.to_string(),
                                            version: v.clone(),
                                            is_update: true,
                                            local_version: Some(lv.clone()),
                                        },
                                    );
                                    assert(built@.map_values(|t: AurTarget| target_view(t)) =~= b0.map_values(
                                        |t: AurTarget| target_view(t),
                                    ).push((name@, v@, true, opt_view(*local))));
                                }
                            },
                            None => {
                                built.push(
                                    AurTarget {
                                        name: name.to_string(),
                                        version: v.clone(),
                                        is_update: false,
                                        local_version: None,
                                    },
                                );
                                assert(built@.map_values(|t: AurTarget| target_view(t)) =~= b0.map_values(
                                    |t: AurTarget| target_view(t),
                                ).push((name@, v@, false, opt_view(*local))));
                            },
                        }
                    },
                }
            },
        }
        k = k + 1;
    }
    assert(tv.take(k as int) =~= tv);
    (built, cmap, notes)
}

/// The question asked before an installation: with AUR packages it also
/// offers to view their build scripts, until they have been viewed once.
pub open spec fn install_question(has_aur: bool, viewed: bool) -> Seq<char> {
    if has_aur && !viewed {
        "proceed with installation? [Y/n/v] (v = view PKGBUILDs)"@
    } else {
        "proceed with installation? [Y/n]"@
    }
}

pub fn install_question_text(has_aur: bool, viewed: bool) -> (r: &'static str)
    ensures
        r@ == install_question(has_aur, viewed),
{
    if has_aur && !viewed {
        "proceed with installation? [Y/n/v] (v = view PKGBUILDs)"
    } else {
        "proceed with installation? [Y/n]"
    }
}

/// The pacman arguments that install the repository targets: conflicting
/// packages are replaced without asking (`--ask=4`) when that was allowed.
pub open spec fn native_install_args_spec(pkgs: Seq<Seq<char>>, allow_removal: bool) -> Seq<Seq<char>> {
    seq!["-S"@, "--noconfirm"@] + (if allow_removal {
        seq!["--ask=4"@]
    } else {
        seq![]
    }) + pkgs
}

pub fn native_install_args(pkgs: &Vec<String>, allow_removal: bool) -> (r: Vec<String>)
    ensures
        strings_view(r@) == native_install_args_spec(strings_view(pkgs@), allow_removal),
{
    let mut out: Vec<String> = Vec::new();
    out.push("-S".to_string());
    out.push("--noconfirm".to_string());
    if allow_removal {
        out.push("--ask=4".to_string());
    }
    let ghost o0 = strings_view(out@);
    let mut k: usize = 0;
    while k < pkgs.len()
        invariant
            k <= pkgs.len(),
            strings_view(out@) == o0 + strings_view(pkgs@).take(k as int),
        decreases pkgs.len() - k,
    {
        let ghost o = out@;
        out.push(pkgs[k].clone());
        assert(strings_view(out@) =~= strings_view(o).push(pkgs@[k as int]@));
        assert(strings_view(pkgs@).take(k + 1) =~= strings_view(pkgs@).take(k as int).push(
            pkgs@[k as int]@,
        ));
        k = k + 1;
    }
    assert(strings_view(pkgs@).take(k as int) =~= strings_view(pkgs@));
    assert(strings_view(out@) =~= native_install_args_spec(strings_view(pkgs@), allow_removal));
    out
}

/// The pacman arguments that install a built AUR archive.
pub open spec fn archive_install_args_spec(path: Seq<char>, allow_removal: bool) -> Seq<Seq<char>> {
    seq!["-U"@, path, "--noconfirm"@] + if allow_removal {
        seq!["--ask=4"@]
    } else {
        seq![]
    }
}

pub fn archive_install_args(path: &str, allow_removal: bool) -> (r: Vec<String>)
    ensures
        strings_view(r@) == archive_install_args_spec(path@, allow_removal),
{
    let mut out: Vec<String> = Vec::new();
    out.push("-U".to_string());
    out.push(path.to_string());
    out.push("--noconfirm".to_string());
    if allow_removal {
        out.push("--ask=4".to_string());
    }
    assert(strings_view(out@) =~= archive_install_args_spec(path@, allow_removal));
    out
}

/// The flag that opens a file read-only in the viewer `exec`: `-R` for the
/// vi family, `-v` for nano, none for others (names in any case).
pub open spec fn viewer_flag(exec: Seq<char>) -> Option<Seq<char>> {
    let l = lowercase(exec);
    if contains(l, "nvim"@) || contains(l, "vim"@) || contains(l, "vi"@) {
        Some("-R"@)
    } else if contains(l, "nano"@) {
        Some("-v"@)
    } else {
        None
    }
}

/// The command that shows a build script: the editor setting split into
/// words, its first word the program, then the other words, the read-only
/// flag of that program and the script's path. None for an empty setting.
pub open spec fn viewer_command(editor: Seq<char>, path: Seq<char>) -> Option<(Seq<char>, Seq<Seq<char>>)> {
    let parts = words(editor);
    if parts.len() == 0 {
        None
    } else {
        Some(
            (
                parts[0],
                parts.drop_first() + match viewer_flag(parts[0]) {
                    Some(f) => seq![f],
                    None => seq![],
                } + seq![path],
            ),
        )
    }
}

pub fn pkgbuild_viewer_command(editor: &str, path: &str) -> (r: Option<(String, Vec<String>)>)
    ensures
        match r {
            Some((exe, args)) => viewer_command(editor@, path@) == Some((exe@, strings_view(args@))),
            None => viewer_command(editor@, path@) is None,
        },
{
    let parts = words_exec(chars_of(editor).as_slice());
    let ghost w = words(editor@);
    if parts.len() == 0 {
        return None;
    }
    let exe = string_of(parts[0].as_slice());
    let mut args: Vec<String> = Vec::new();
    let mut k: usize = 1;
    assert(w.drop_first().take(0) =~= Seq::<Seq<char>>::empty());
    while k < parts.len()
        invariant
            1 <= k <= parts.len(),
            parts@.len() == w.len(),
            w == words(editor@),
            forall|i: int| 0 <= i < parts@.len() ==> (#[trigger] parts@[i])@ == w[i],
            strings_view(args@) == w.drop_first().take(k - 1),
        decreases parts.len() - k,
    {
        let ghost a0 = args@;
        args.push(string_of(parts[k].as_slice()));
        assert(strings_view(args@) =~= strings_view(a0).push(w[k as int]));
        assert(w.drop_first().take(k as int) =~= w.drop_first().take(k - 1).push(w[k as int]));
        k = k + 1;
    }
    assert(w.drop_first().take(k - 1) =~= w.drop_first());
    let l = to_lowercase(parts[0].as_slice());
    let nvim = chars_of("nvim");
    let vim = chars_of("vim");
    let vi = chars_of("vi");
    let nano = chars_of("nano");
    let ghost a1 = args@;
    if contains_exec(l.as_slice(), nvim.as_slice()) || contains_exec(l.as_slice(), vim.as_slice())
        || contains_exec(l.as_slice(), vi.as_slice()) {
        args.push("-R".to_string());
        assert(strings_view(args@) =~= strings_view(a1).push("-R"@));
    } else if contains_exec(l.as_slice(), nano.as_slice()) {
        args.push("-v".to_string());
        assert(strings_view(args@) =~= strings_view(a1).push("-v"@));
    }
    let ghost a2 = args@;
    args.push(path.to_string());
    assert(strings_view(args@) =~= strings_view(a2).push(path@));
    assert(parts@[0]@ == w[0]);
    Some((exe, args))
}

/// The address of a package's build repository on the AUR.
pub fn aur_git_url(pkg: &str) -> (r: String)
    ensures
        r@ == "https://aur.archlinux.org/"@ + pkg@ + ".git"@,
{
    "https://aur.archlinux.org/".to_string().concat(pkg).concat(".git")
}


/// With `--repo` every target goes to pacman and none to the AUR.
pub proof fn law_repo_only_targets(packages: Seq<String>, in_repo: Seq<bool>, local: Seq<Option<String>>, aur_only: bool)
    requires
        in_repo.len() == packages.len(),
        local.len() == packages.len(),
    ensures
        split_targets_spec(packages, in_repo, local, aur_only, true).0 == strings_view(packages),
        split_targets_spec(packages, in_repo, local, aur_only, true).1.len() == 0,
    decreases packages.len(),
{
    if packages.len() > 0 {
        let n = (packages.len() - 1) as int;
        law_repo_only_targets(packages.drop_last(), in_repo.take(n), local.take(n), aur_only);
        assert(strings_view(packages) =~= strings_view(packages.drop_last()).push(packages[n]@));
    } else {
        assert(strings_view(packages) =~= Seq::<Seq<char>>::empty());
    }
}

/// With `--aur` alone no target goes to pacman: every one is looked up on
/// the AUR, in order.
pub proof fn law_aur_only_targets(packages: Seq<String>, in_repo: Seq<bool>, local: Seq<Option<String>>)
    requires
        in_repo.len() == packages.len(),
        local.len() == packages.len(),
    ensures
        split_targets_spec(packages, in_repo, local, true, false).0.len() == 0,
        split_targets_spec(packages, in_repo, local, true, false).1.len() == packages.len(),
        forall|i: int|
            0 <= i < packages.len() ==> (#[trigger] split_targets_spec(packages, in_repo, local, true, false).1[i]).0
                == packages[i]@,
    decreases packages.len(),
{
    if packages.len() > 0 {
        let n = (packages.len() - 1) as int;
        law_aur_only_targets(packages.drop_last(), in_repo.take(n), local.take(n));
        let rest = split_targets_spec(packages.drop_last(), in_repo.take(n), local.take(n), true, false);
        assert forall|i: int|
            0 <= i < packages.len() implies (#[trigger] split_targets_spec(packages, in_repo, local, true, false).1[i]).0
                == packages[i]@ by {
            if i < n {
                assert(packages.drop_last()[i] == packages[i]);
            }
        }
    }
}

} // verus!
