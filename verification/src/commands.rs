//! The decisions of the command-line commands: reading the user's picks,
//! pacman's reports on removals and upgrades, the freshness of the sync
//! databases and the figures of the system overview.
use vstd::prelude::*;
use crate::pacman_log::strings_view;
use crate::aur::AurPackage;
use crate::text::{chars_of, string_of, str_eq, trim, trim_exec, words, words_exec, lines, lines_exec,
    starts_with, starts_with_exec, find, find_exec, parse_unsigned, parse_unsigned_exec, slice_range,
    before_first, before_first_exec, is_digit};
use crate::bytes::byte_len;
use crate::browser::byte_len_exec;

verus! {

// ------------------------------------------------------------ numbers ----

/// The decimal digits of `n`.
pub open spec fn decimal(n: nat) -> Seq<char>
    decreases n,
{
    if n < 10 {
        seq![digit_char(n)]
    } else {
        decimal(n / 10).push(digit_char(n % 10))
    }
}

pub open spec fn digit_char(d: nat) -> char {
    if d == 0 { '0' } else if d == 1 { '1' } else if d == 2 { '2' } else if d == 3 { '3' } else if d
        == 4 { '4' } else if d == 5 { '5' } else if d == 6 { '6' } else if d == 7 { '7' } else if d
        == 8 { '8' } else { '9' }
}

fn digit_exec(d: u64) -> (c: char)
    requires
        d < 10,
    ensures
        c == digit_char(d as nat),
{
    if d == 0 { '0' } else if d == 1 { '1' } else if d == 2 { '2' } else if d == 3 { '3' } else if d
        == 4 { '4' } else if d == 5 { '5' } else if d == 6 { '6' } else if d == 7 { '7' } else if d
        == 8 { '8' } else { '9' }
}

/// `n` written in decimal.
pub fn decimal_string(n: u64) -> (r: String)
    ensures
        r@ == decimal(n as nat),
    decreases n,
{
    if n < 10 {
        let c = digit_exec(n);
        let mut v: Vec<char> = Vec::new();
        v.push(c);
        assert(v@ =~= seq![c]);
        string_of(v.as_slice())
    } else {
        let head = decimal_string(n / 10);
        let mut v = chars_of(head.as_str());
        v.push(digit_exec(n % 10));
        string_of(v.as_slice())
    }
}

// --------------------------------------------------------- selections ----

/// The menu entries picked by the answer `input`: each word that reads as
/// a number from 1 to `count`, in order; other words are ignored.
pub open spec fn picked_entries(ws: Seq<Seq<char>>, count: nat) -> Seq<nat>
    decreases ws.len(),
{
    if ws.len() == 0 {
        seq![]
    } else {
        let rest = picked_entries(ws.drop_last(), count);
        match parse_unsigned(ws.last(), usize::MAX as nat) {
            Some(n) => if 1 <= n <= count {
                rest.push(n)
            } else {
                rest
            },
            None => rest,
        }
    }
}

pub fn parse_selections(input: &str, count: usize) -> (r: Vec<usize>)
    ensures
        r@.map_values(|n: usize| n as nat) == picked_entries(words(input@), count as nat),
{
    let ws = words_exec(chars_of(input).as_slice());
    let ghost wv = words(input@);
    let mut out: Vec<usize> = Vec::new();
    let mut k: usize = 0;
    assert(out@.map_values(|n: usize| n as nat) =~= picked_entries(wv.take(0), count as nat));
    while k < ws.len()
        invariant
            k <= ws.len(),
            wv == words(input@),
            ws@.len() == wv.len(),
            forall|i: int| 0 <= i < ws@.len() ==> (#[trigger] ws@[i])@ == wv[i],
            out@.map_values(|n: usize| n as nat) == picked_entries(wv.take(k as int), count as nat),
        decreases ws.len() - k,
    {
        assert(wv.take(k + 1).drop_last() =~= wv.take(k as int));
        assert(wv.take(k + 1).last() == ws@[k as int]@);
        let ghost o = out@;
        match parse_unsigned_exec(ws[k].as_slice(), usize::MAX as u64) {
            Some(n) => {
                if 1 <= n && n <= count as u64 {
                    out.push(n as usize);
                    assert(out@.map_values(|n: usize| n as nat) =~= o.map_values(|n: usize| n as nat).push(
                        n as nat,
                    ));
                }
            },
            None => {},
        }
        k = k + 1;
    }
    assert(wv.take(k as int) =~= wv);
    out
}

// ----------------------------------------------------------- removals ----

/// A line of `pacman -Rsp` that says a removal breaks a dependency: the
/// dependency and the package that requires it.
pub open spec fn breaks_line(line: Seq<char>) -> Option<(Seq<char>, Seq<char>)> {
    let t = trim(line);
    if !starts_with(t, ":: removing "@) {
        None
    } else {
        match find(t, " breaks dependency '"@) {
            None => None,
            Some(b) => {
                let rest = t.skip(b + 20);
                match find(rest, "' required by "@) {
                    None => None,
                    Some(r) => Some((rest.take(r), rest.skip(r + 14))),
                }
            },
        }
    }
}

pub fn parse_breaks_line(line: &str) -> (r: Option<(String, String)>)
    ensures
        match r {
            Some((d, p)) => breaks_line(line@) == Some((d@, p@)),
            None => breaks_line(line@) is None,
        },
{
    proof {
        reveal_strlit(" breaks dependency '");
        reveal_strlit("' required by ");
    }
    let t = trim_exec(chars_of(line).as_slice());
    if !starts_with_exec(t.as_slice(), chars_of(":: removing ").as_slice()) {
        return None;
    }
    let b = match find_exec(t.as_slice(), chars_of(" breaks dependency '").as_slice()) {
        Some(b) => b,
        None => return None,
    };
    let rest = slice_range(t.as_slice(), b + 20, t.len());
    assert(rest@ =~= t@.skip(b + 20));
    let r = match find_exec(rest.as_slice(), chars_of("' required by ").as_slice()) {
        Some(r) => r,
        None => return None,
    };
    let dep = slice_range(rest.as_slice(), 0, r);
    let by = slice_range(rest.as_slice(), r + 14, rest.len());
    assert(dep@ =~= rest@.take(r as int));
    assert(by@ =~= rest@.skip(r + 14));
    Some((string_of(dep.as_slice()), string_of(by.as_slice())))
}

/// The report of a refused removal: the broken dependencies, and the other
/// non-empty lines (trimmed), in order.
pub open spec fn removal_report_spec(ls: Seq<Seq<char>>) -> (Seq<(Seq<char>, Seq<char>)>, Seq<Seq<char>>)
    decreases ls.len(),
{
    if ls.len() == 0 {
        (seq![], seq![])
    } else {
        let rest = removal_report_spec(ls.drop_last());
        match breaks_line(ls.last()) {
            Some(p) => (rest.0.push(p), rest.1),
            None => if trim(ls.last()).len() > 0 {
                (rest.0, rest.1.push(trim(ls.last())))
            } else {
                rest
            },
        }
    }
}

pub open spec fn pairs_view(v: Seq<(String, String)>) -> Seq<(Seq<char>, Seq<char>)> {
    v.map_values(|p: (String, String)| (p.0@, p.1@))
}

pub fn removal_report(output: &str) -> (r: (Vec<(String, String)>, Vec<String>))
    ensures
        pairs_view(r.0@) == removal_report_spec(lines(output@)).0,
        strings_view(r.1@) == removal_report_spec(lines(output@)).1,
{
    let ls = lines_exec(chars_of(output).as_slice());
    let ghost lv = lines(output@);
    let mut broken: Vec<(String, String)> = Vec::new();
    let mut other: Vec<String> = Vec::new();
    let mut k: usize = 0;
    assert(pairs_view(broken@) =~= removal_report_spec(lv.take(0)).0);
    assert(strings_view(other@) =~= removal_report_spec(lv.take(0)).1);
    while k < ls.len()
        invariant
            k <= ls.len(),
            lv == lines(output@),
            ls@.len() == lv.len(),
            forall|i: int| 0 <= i < ls@.len() ==> (#[trigger] ls@[i])@ == lv[i],
            pairs_view(broken@) == removal_report_spec(lv.take(k as int)).0,
            strings_view(other@) == removal_report_spec(lv.take(k as int)).1,
        decreases ls.len() - k,
    {
        assert(lv.take(k + 1).drop_last() =~= lv.take(k as int));
        assert(lv.take(k + 1).last() == ls@[k as int]@);
        let line = string_of(ls[k].as_slice());
        let ghost b0 = broken@;
        let ghost o0 = other@;
        match parse_breaks_line(line.as_str()) {
            Some(p) => {
                broken.push(p);
                assert(pairs_view(broken@) =~= pairs_view(b0).push((p.0@, p.1@)));
            },
            None => {
                let t = trim_exec(ls[k].as_slice());
                if t.len() > 0 {
                    other.push(string_of(t.as_slice()));
                    assert(strings_view(other@) =~= strings_view(o0).push(t@));
                }
            },
        }
        k = k + 1;
    }
    assert(lv.take(k as int) =~= lv);
    (broken, other)
}

/// The width of the dependency column: the longest dependency (in bytes),
/// at least as wide as its heading.
pub open spec fn dep_width_spec(deps: Seq<(Seq<char>, Seq<char>)>) -> nat
    decreases deps.len(),
{
    if deps.len() == 0 {
        10
    } else {
        let w = dep_width_spec(deps.drop_last());
        let b = byte_len(deps.last().0);
        if b > w {
            b
        } else {
            w
        }
    }
}

pub fn dependency_column_width(deps: &Vec<(String, String)>) -> (r: u128)
    ensures
        r == dep_width_spec(pairs_view(deps@)),
{
    let ghost pv = pairs_view(deps@);
    let mut w: u128 = 10;
    let mut k: usize = 0;
    assert(pv.take(0) =~= Seq::<(Seq<char>, Seq<char>)>::empty());
    while k < deps.len()
        invariant
            k <= deps.len(),
            pv == pairs_view(deps@),
            w == dep_width_spec(pv.take(k as int)),
        decreases deps.len() - k,
    {
        assert(pv.take(k + 1).drop_last() =~= pv.take(k as int));
        assert(pv.take(k + 1).last().0 == deps@[k as int].0@);
        let b = byte_len_exec(chars_of(deps[k].0.as_str()).as_slice());
        if b > w {
            w = b;
        }
        k = k + 1;
    }
    assert(pv.take(k as int) =~= pv);
    w
}

// ----------------------------------------------------------- upgrades ----

/// A line of `pacman -Qu`: name, installed version and new version (its
/// first, second and fourth words), when it has four words or more.
pub open spec fn upgrade_line(line: Seq<char>) -> Option<(Seq<char>, Seq<char>, Seq<char>)> {
    let w = words(line);
    if w.len() >= 4 {
        Some((w[0], w[1], w[3]))
    } else {
        None
    }
}

pub fn parse_upgrade_line(line: &str) -> (r: Option<(String, String, String)>)
    ensures
        match r {
            Some((n, o, v)) => upgrade_line(line@) == Some((n@, o@, v@)),
            None => upgrade_line(line@) is None,
        },
{
    let w = words_exec(chars_of(line).as_slice());
    if w.len() >= 4 {
        Some((string_of(w[0].as_slice()), string_of(w[1].as_slice()), string_of(w[3].as_slice())))
    } else {
        None
    }
}

/// The AUR's answers about installed foreign packages paired with the
/// versions installed: (name, installed version, version offered), for
/// each answer whose name is among `installed`.
pub open spec fn aur_pairs(installed: Seq<(String, String)>, results: Seq<AurPackage>) -> Seq<
    (Seq<char>, Seq<char>, Seq<char>),
>
    decreases results.len(),
{
    if results.len() == 0 {
        seq![]
    } else {
        let rest = aur_pairs(installed, results.drop_last());
        let r = results.last();
        match first_named(installed, r.name@, 0) {
            Some(i) => rest.push((r.name@, installed[i].1@, r.version@)),
            None => rest,
        }
    }
}

/// Index of the first installed package named `name`, from `k` on.
pub open spec fn first_named(installed: Seq<(String, String)>, name: Seq<char>, k: int) -> Option<int>
    decreases installed.len() - k,
{
    if k < 0 || k >= installed.len() {
        None
    } else if installed[k].0@ == name {
        Some(k)
    } else {
        first_named(installed, name, k + 1)
    }
}

pub open spec fn triples_view(v: Seq<(String, String, String)>) -> Seq<(Seq<char>, Seq<char>, Seq<char>)> {
    v.map_values(|t: (String, String, String)| (t.0@, t.1@, t.2@))
}

pub fn pair_aur_versions(installed: &Vec<(String, String)>, results: &Vec<AurPackage>) -> (r: Vec<
    (String, String, String),
>)
    ensures
        triples_view(r@) == aur_pairs(installed@, results@),
{
    let mut out: Vec<(String, String, String)> = Vec::new();
    let mut k: usize = 0;
    assert(triples_view(out@) =~= aur_pairs(installed@, results@.take(0)));
    while k < results.len()
        invariant
            k <= results.len(),
            triples_view(out@) == aur_pairs(installed@, results@.take(k as int)),
        decreases results.len() - k,
    {
        assert(results@.take(k + 1).drop_last() =~= results@.take(k as int));
        assert(results@.take(k + 1).last() == results@[k as int]);
        let r = &results[k];
        let mut j: usize = 0;
        while j < installed.len() && !str_eq(installed[j].0.as_str(), r.name.as_str())
            invariant
                j <= installed.len(),
                first_named(installed@, r.name@, 0) == first_named(installed@, r.name@, j as int),
            decreases installed.len() - j,
        {
            j = j + 1;
        }
        if j < installed.len() {
            let ghost o = out@;
            out.push((r.name.clone(), installed[j].1.clone(), r.version.clone()));
            assert(triples_view(out@) =~= triples_view(o).push(
                (r.name@, installed@[j as int].1@, r.version@),
            ));
        }
        k = k + 1;
    }
    assert(results@.take(k as int) =~= results@);
    out
}

// ------------------------------------------------------------- search ----

/// Where a search looks: the repositories unless only the AUR is wanted,
/// the AUR unless only the repositories are, and how that is said.
pub open spec fn search_scope_spec(aur: bool, repo: bool) -> (bool, bool, Seq<char>) {
    (
        repo || !aur,
        aur || !repo,
        if aur && !repo {
            "aur"@
        } else if repo && !aur {
            "standard repos"@
        } else {
            "standard repos and aur"@
        },
    )
}

pub fn search_scope(aur: bool, repo: bool) -> (r: (bool, bool, &'static str))
    ensures
        (r.0, r.1, r.2@) == search_scope_spec(aur, repo),
{
    let msg = if aur && !repo {
        "aur"
    } else if repo && !aur {
        "standard repos"
    } else {
        "standard repos and aur"
    };
    (repo || !aur, aur || !repo, msg)
}

// --------------------------------------------------------- freshness ----

/// The state of the sync databases.
#[derive(Clone, Copy, Debug, PartialEq, Eq, Structural)]
pub enum SyncState {
    Fresh,
    Missing,
    Stale,
}

/// Seconds after which a sync database is stale: seven days.
pub const STALE_AFTER_SECS: u64 = 604800;

/// A database file older than seven days.
pub open spec fn stale_age(age: Option<u64>) -> bool {
    match age {
        Some(a) => a > STALE_AFTER_SECS,
        None => false,
    }
}

/// The state of the sync databases from the age of each `.db` file (none
/// where it could not be read): missing when there is none, stale when one
/// is older than seven days.
pub open spec fn sync_state_spec(ages: Seq<Option<u64>>) -> SyncState {
    if ages.len() == 0 {
        SyncState::Missing
    } else if exists|i: int| 0 <= i < ages.len() && stale_age(#[trigger] ages[i]) {
        SyncState::Stale
    } else {
        SyncState::Fresh
    }
}

pub fn sync_state(ages: &Vec<Option<u64>>) -> (r: SyncState)
    ensures
        r == sync_state_spec(ages@),
{
    if ages.len() == 0 {
        return SyncState::Missing;
    }
    let mut k: usize = 0;
    while k < ages.len()
        invariant
            k <= ages.len(),
            forall|i: int| 0 <= i < k ==> !stale_age(#[trigger] ages@[i]),
        decreases ages.len() - k,
    {
        match ages[k] {
            Some(a) => {
                if a > STALE_AFTER_SECS {
                    assert(stale_age(ages@[k as int]));
                    return SyncState::Stale;
                }
            },
            None => {},
        }
        k = k + 1;
    }
    SyncState::Fresh
}

/// What is said of databases that need a sync.
pub fn sync_notice(s: SyncState) -> (r: Option<&'static str>)
    ensures
        s == SyncState::Fresh ==> r is None,
        s == SyncState::Missing ==> (r matches Some(m) && m@ == "package databases are missing."@),
        s == SyncState::Stale ==> (r matches Some(m) && m@
            == "package databases are stale (older than 7 days)."@),
{
    match s {
        SyncState::Fresh => None,
        SyncState::Missing => Some("package databases are missing."),
        SyncState::Stale => Some("package databases are stale (older than 7 days)."),
    }
}

/// How long ago the databases were synced, in the largest unit that fits:
/// seconds, minutes, hours or days.
pub open spec fn sync_age_spec(secs: nat) -> Seq<char> {
    if secs < 60 {
        decimal(secs) + "s ago"@
    } else if secs < 3600 {
        decimal(secs / 60) + "m ago"@
    } else if secs < 86400 {
        decimal(secs / 3600) + "h ago"@
    } else {
        decimal(secs / 86400) + "d ago"@
    }
}

pub fn sync_age_text(secs: u64) -> (r: String)
    ensures
        r@ == sync_age_spec(secs as nat),
{
    if secs < 60 {
        decimal_string(secs).concat("s ago")
    } else if secs < 3600 {
        decimal_string(secs / 60).concat("m ago")
    } else if secs < 86400 {
        decimal_string(secs / 3600).concat("h ago")
    } else {
        decimal_string(secs / 86400).concat("d ago")
    }
}

/// `a / b` rounded toward zero, as Rust divides integers.
pub open spec fn div_toward_zero(a: int, b: nat) -> int {
    if a >= 0 {
        a / (b as int)
    } else {
        -((-a) / (b as int))
    }
}

/// A signed integer in decimal; zero is written without a sign.
pub open spec fn signed_decimal(n: int) -> Seq<char> {
    if n < 0 {
        "-"@ + decimal((-n) as nat)
    } else {
        decimal(n as nat)
    }
}

/// What the dashboard says of a sync `diff` seconds ago (negative when the
/// database is dated in the future): minutes below an hour, hours below a
/// day, else days.
pub open spec fn dashboard_sync_spec(diff: int) -> Seq<char> {
    if diff < 3600 {
        signed_decimal(div_toward_zero(diff, 60)) + " min ago"@
    } else if diff < 86400 {
        decimal((diff / 3600) as nat) + " hrs ago"@
    } else {
        decimal((diff / 86400) as nat) + " days ago"@
    }
}

pub fn dashboard_sync_text(diff: i64) -> (r: String)
    ensures
        r@ == dashboard_sync_spec(diff as int),
{
    if diff < 3600 {
        let d = diff as i128;
        let mag: u64 = if d < 0 {
            ((-d) / 60) as u64
        } else {
            (d / 60) as u64
        };
        let digits = decimal_string(mag);
        if d < 0 && mag > 0 {
            "-".to_string().concat(digits.as_str()).concat(" min ago")
        } else {
            proof {
                reveal_strlit("-");
            }
            digits.concat(" min ago")
        }
    } else if diff < 86400 {
        decimal_string((diff / 3600) as u64).concat(" hrs ago")
    } else {
        decimal_string((diff / 86400) as u64).concat(" days ago")
    }
}

// ------------------------------------------------------------ overview ----

/// `s` without the `"` characters at either end.
pub open spec fn trim_quotes(s: Seq<char>) -> Seq<char>
    decreases s.len(),
{
    if s.len() > 0 && s[0] == '"' {
        trim_quotes(s.drop_first())
    } else if s.len() > 0 && s.last() == '"' {
        trim_quotes(s.drop_last())
    } else {
        s
    }
}

/// Index of the first line that starts with `PRETTY_NAME=`.
pub open spec fn pretty_line(ls: Seq<Seq<char>>, k: int) -> Option<int>
    decreases ls.len() - k,
{
    if k < 0 || k >= ls.len() {
        None
    } else if starts_with(ls[k], "PRETTY_NAME="@) {
        Some(k)
    } else {
        pretty_line(ls, k + 1)
    }
}

/// The name of the system from `/etc/os-release`: the value of its first
/// `PRETTY_NAME=` line (up to a further `=`) without quotes, else
/// "arch linux".
pub open spec fn os_name_spec(os_release: Seq<char>) -> Seq<char> {
    let ls = lines(os_release);
    match pretty_line(ls, 0) {
        None => "arch linux"@,
        Some(k) => {
            let l = ls[k];
            match find(l, "="@) {
                None => "arch linux"@,
                Some(i) => trim_quotes(before_first(l.skip(i + 1), "="@)),
            }
        },
    }
}

fn trim_quotes_exec(s: &[char]) -> (r: Vec<char>)
    ensures
        r@ == trim_quotes(s@),
{
    let mut lo: usize = 0;
    let mut hi: usize = s.len();
    assert(s@.subrange(0, s@.len() as int) =~= s@);
    while lo < hi && (s[lo] == '"' || s[hi - 1] == '"')
        invariant
            lo <= hi <= s.len(),
            trim_quotes(s@) == trim_quotes(s@.subrange(lo as int, hi as int)),
        decreases hi - lo,
    {
        let ghost t = s@.subrange(lo as int, hi as int);
        if s[lo] == '"' {
            assert(t.drop_first() =~= s@.subrange(lo + 1, hi as int));
            lo = lo + 1;
        } else {
            assert(t.drop_last() =~= s@.subrange(lo as int, hi - 1));
            hi = hi - 1;
        }
    }
    slice_range(s, lo, hi)
}

pub fn os_name(os_release: &str) -> (r: String)
    ensures
        r@ == os_name_spec(os_release@),
{
    proof {
        reveal_strlit("=");
    }
    let ls = lines_exec(chars_of(os_release).as_slice());
    let ghost lv = lines(os_release@);
    let prefix = chars_of("PRETTY_NAME=");
    let mut k: usize = 0;
    while k < ls.len() && !starts_with_exec(ls[k].as_slice(), prefix.as_slice())
        invariant
            k <= ls.len(),
            lv == lines(os_release@),
            ls@.len() == lv.len(),
            prefix@ == "PRETTY_NAME="@,
            forall|i: int| 0 <= i < ls@.len() ==> (#[trigger] ls@[i])@ == lv[i],
            pretty_line(lv, 0) == pretty_line(lv, k as int),
        decreases ls.len() - k,
    {
        assert(ls@[k as int]@ == lv[k as int]);
        k = k + 1;
    }
    if k >= ls.len() {
        return "arch linux".to_string();
    }
    assert(ls@[k as int]@ == lv[k as int]);
    let l = &ls[k];
    let eq = chars_of("=");
    match find_exec(l.as_slice(), eq.as_slice()) {
        None => "arch linux".to_string(),
        Some(i) => {
            let rest = slice_range(l.as_slice(), i + 1, l.len());
            assert(rest@ =~= l@.skip(i + 1));
            let v = before_first_exec(rest.as_slice(), eq.as_slice());
            string_of(trim_quotes_exec(v.as_slice()).as_slice())
        },
    }
}

/// The problems the system overview reports: orphans, and a lock left
/// behind by a pacman that is not running.
pub open spec fn health_issues_spec(orphans: nat, lock_exists: bool) -> Seq<Seq<char>> {
    (if orphans > 0 {
        seq![decimal(orphans) + " orphans"@]
    } else {
        seq![]
    }) + if lock_exists {
        seq!["stale db lock"@]
    } else {
        seq![]
    }
}

pub fn health_issues(orphans: u64, lock_exists: bool) -> (r: Vec<String>)
    ensures
        strings_view(r@) == health_issues_spec(orphans as nat, lock_exists),
{
    let mut out: Vec<String> = Vec::new();
    if orphans > 0 {
        out.push(decimal_string(orphans).concat(" orphans"));
    }
    if lock_exists {
        out.push("stale db lock".to_string());
    }
    assert(strings_view(out@) =~= health_issues_spec(orphans as nat, lock_exists));
    out
}

/// An installed package as the overview counts it.
#[derive(Debug)]
pub struct InstalledPkg {
    pub name: String,
    pub is_explicit: bool,
    pub required_by_empty: bool,
    pub optional_for_empty: bool,
    pub install_date: Option<i64>,
    pub installed_size: i64,
    pub in_sync_db: bool,
}

/// A dependency that nothing requires, not even optionally.
pub open spec fn is_orphan(p: InstalledPkg) -> bool {
    !p.is_explicit && p.required_by_empty && p.optional_for_empty
}

pub fn orphan(p: &InstalledPkg) -> (r: bool)
    ensures
        r == is_orphan(*p),
{
    !p.is_explicit && p.required_by_empty && p.optional_for_empty
}

/// The figures of the system overview.
#[derive(Debug)]
pub struct SystemStats {
    pub total: u64,
    pub explicit: u64,
    pub dependencies: u64,
    pub foreign: u64,
    pub orphans: u64,
    pub installed_size: i64,
    pub oldest: String,
    pub newest: String,
}

pub open spec fn count_where(pkgs: Seq<InstalledPkg>, f: spec_fn(InstalledPkg) -> bool) -> nat
    decreases pkgs.len(),
{
    if pkgs.len() == 0 {
        0
    } else {
        count_where(pkgs.drop_last(), f) + if f(pkgs.last()) {
            1nat
        } else {
            0nat
        }
    }
}

pub open spec fn size_sum(pkgs: Seq<InstalledPkg>) -> int
    decreases pkgs.len(),
{
    if pkgs.len() == 0 {
        0
    } else {
        size_sum(pkgs.drop_last()) + pkgs.last().installed_size
    }
}

/// The earliest installed package (the first of those installed at the
/// earliest time) and its date, starting from the sentinel `i64::MAX`.
pub open spec fn oldest_spec(pkgs: Seq<InstalledPkg>) -> (Seq<char>, int)
    decreases pkgs.len(),
{
    if pkgs.len() == 0 {
        (seq![], i64::MAX as int)
    } else {
        let rest = oldest_spec(pkgs.drop_last());
        match pkgs.last().install_date {
            Some(d) => if d < rest.1 {
                (pkgs.last().name@, d as int)
            } else {
                rest
            },
            None => rest,
        }
    }
}

/// The latest installed package (the first of those installed at the
/// latest time after the epoch) and its date, starting from 0.
pub open spec fn newest_spec(pkgs: Seq<InstalledPkg>) -> (Seq<char>, int)
    decreases pkgs.len(),
{
    if pkgs.len() == 0 {
        (seq![], 0)
    } else {
        let rest = newest_spec(pkgs.drop_last());
        match pkgs.last().install_date {
            Some(d) => if d > rest.1 {
                (pkgs.last().name@, d as int)
            } else {
                rest
            },
            None => rest,
        }
    }
}

pub proof fn lemma_count_bound(pkgs: Seq<InstalledPkg>, f: spec_fn(InstalledPkg) -> bool)
    ensures
        count_where(pkgs, f) <= pkgs.len(),
    decreases pkgs.len(),
{
    if pkgs.len() > 0 {
        lemma_count_bound(pkgs.drop_last(), f);
    }
}

/// The overview of the installed packages.
pub fn system_stats(pkgs: &Vec<InstalledPkg>) -> (r: SystemStats)
    requires
        forall|k: int| 0 <= k <= pkgs@.len() ==> i64::MIN <= #[trigger] size_sum(pkgs@.take(k)) <= i64::MAX,
    ensures
        r.total == pkgs@.len(),
        r.explicit == count_where(pkgs@, |p: InstalledPkg| p.is_explicit),
        r.dependencies == count_where(pkgs@, |p: InstalledPkg| !p.is_explicit),
        r.foreign == count_where(pkgs@, |p: InstalledPkg| !p.in_sync_db),
        r.orphans == count_where(pkgs@, |p: InstalledPkg| is_orphan(p)),
        r.installed_size == size_sum(pkgs@),
        r.oldest@ == oldest_spec(pkgs@).0,
        r.newest@ == newest_spec(pkgs@).0,
{
    let ghost s = pkgs@;
    let mut total: u64 = 0;
    let mut explicit: u64 = 0;
    let mut deps: u64 = 0;
    let mut foreign: u64 = 0;
    let mut orphans: u64 = 0;
    let mut size: i64 = 0;
    let mut oldest = String::new();
    let mut oldest_date: i64 = i64::MAX;
    let mut newest = String::new();
    let mut newest_date: i64 = 0;
    let mut k: usize = 0;
    assert(s.take(0) =~= Seq::<InstalledPkg>::empty());
    while k < pkgs.len()
        invariant
            k <= pkgs.len(),
            s == pkgs@,
            forall|j: int| 0 <= j <= s.len() ==> i64::MIN <= #[trigger] size_sum(s.take(j)) <= i64::MAX,
            total == k,
            explicit == count_where(s.take(k as int), |p: InstalledPkg| p.is_explicit),
            deps == count_where(s.take(k as int), |p: InstalledPkg| !p.is_explicit),
            foreign == count_where(s.take(k as int), |p: InstalledPkg| !p.in_sync_db),
            orphans == count_where(s.take(k as int), |p: InstalledPkg| is_orphan(p)),
            size == size_sum(s.take(k as int)),
            oldest@ == oldest_spec(s.take(k as int)).0,
            oldest_date == oldest_spec(s.take(k as int)).1,
            newest@ == newest_spec(s.take(k as int)).0,
            newest_date == newest_spec(s.take(k as int)).1,
        decreases pkgs.len() - k,
    {
        let ghost t = s.take(k as int);
        assert(s.take(k + 1).drop_last() =~= t);
        assert(s.take(k + 1).last() == s[k as int]);
        proof {
            lemma_count_bound(t, |p: InstalledPkg| p.is_explicit);
            lemma_count_bound(t, |p: InstalledPkg| !p.is_explicit);
            lemma_count_bound(t, |p: InstalledPkg| !p.in_sync_db);
            lemma_count_bound(t, |p: InstalledPkg| is_orphan(p));
            assert(i64::MIN <= size_sum(s.take(k + 1)) <= i64::MAX);
        }
        let p = &pkgs[k];
        total = total + 1;
        size = size + p.installed_size;
        if p.is_explicit {
            explicit = explicit + 1;
        } else {
            deps = deps + 1;
            if p.required_by_empty && p.optional_for_empty {
                orphans = orphans + 1;
            }
        }
        if !p.in_sync_db {
            foreign = foreign + 1;
        }
        match p.install_date {
            Some(d) => {
                if d < oldest_date {
                    oldest_date = d;
                    oldest = p.name.clone();
                }
                if d > newest_date {
                    newest_date = d;
                    newest = p.name.clone();
                }
            },
            None => {},
        }
        k = k + 1;
    }
    assert(s.take(k as int) =~= s);
    SystemStats {
        total,
        explicit,
        dependencies: deps,
        foreign,
        orphans,
        installed_size: size,
        oldest,
        newest,
    }
}

/// Whether `haj list` shows an installed package: `--explicit` hides
/// dependencies, `--deps` hides explicit ones, `--foreign` hides those of
/// the repositories.
pub open spec fn list_shows(explicit: bool, deps: bool, foreign: bool, is_explicit: bool, in_sync: bool) -> bool {
    !(explicit && !is_explicit) && !(deps && is_explicit) && !(foreign && in_sync)
}

pub fn list_row_shown(explicit: bool, deps: bool, foreign: bool, is_explicit: bool, in_sync: bool) -> (r: bool)
    ensures
        r == list_shows(explicit, deps, foreign, is_explicit, in_sync),
{
    !(explicit && !is_explicit) && !(deps && is_explicit) && !(foreign && in_sync)
}

/// The pacman flag that flips an installed package's install reason, and
/// the reason it gets.
pub fn mark_flags(is_explicit: bool) -> (r: (&'static str, &'static str))
    ensures
        is_explicit ==> r.0@ == "--asdeps"@ && r.1@ == "dependency"@,
        !is_explicit ==> r.0@ == "--asexplicit"@ && r.1@ == "explicit"@,
{
    if is_explicit {
        ("--asdeps", "dependency")
    } else {
        ("--asexplicit", "explicit")
    }
}

/// The branch drawn before the `i`-th of `len` entries of a tree.
pub fn tree_prefix(i: usize, len: usize) -> (r: &'static str)
    ensures
        i + 1 == len ==> r@ == "└─"@,
        i + 1 != len ==> r@ == "├─"@,
{
    if len > 0 && i == len - 1 {
        "└─"
    } else {
        "├─"
    }
}

/// The packages of a group, from the sync databases' packages given as
/// (name, version, groups, installed): those in the group, each name once,
/// in order.
pub open spec fn group_members(pkgs: Seq<(String, String, Vec<String>, bool)>, group: Seq<char>) -> Seq<
    (Seq<char>, Seq<char>, bool),
>
    decreases pkgs.len(),
{
    if pkgs.len() == 0 {
        seq![]
    } else {
        let rest = group_members(pkgs.drop_last(), group);
        let p = pkgs.last();
        if strings_view(p.2@).contains(group) && !(exists|i: int|
            0 <= i < rest.len() && (#[trigger] rest[i]).0 == p.0@) {
            rest.push((p.0@, p.1@, p.3))
        } else {
            rest
        }
    }
}

pub fn collect_group(pkgs: &Vec<(String, String, Vec<String>, bool)>, group: &str) -> (r: Vec<
    (String, String, bool),
>)
    ensures
        r@.map_values(|t: (String, String, bool)| (t.0@, t.1@, t.2)) == group_members(pkgs@, group@),
{
    let mut out: Vec<(String, String, bool)> = Vec::new();
    let mut k: usize = 0;
    assert(out@.map_values(|t: (String, String, bool)| (t.0@, t.1@, t.2)) =~= group_members(
        pkgs@.take(0),
        group@,
    ));
    while k < pkgs.len()
        invariant
            k <= pkgs.len(),
            out@.map_values(|t: (String, String, bool)| (t.0@, t.1@, t.2)) == group_members(
                pkgs@.take(k as int),
                group@,
            ),
        decreases pkgs.len() - k,
    {
        assert(pkgs@.take(k + 1).drop_last() =~= pkgs@.take(k as int));
        assert(pkgs@.take(k + 1).last() == pkgs@[k as int]);
        let p = &pkgs[k];
        let ghost ov = out@.map_values(|t: (String, String, bool)| (t.0@, t.1@, t.2));
        let mut in_group = false;
        let mut g: usize = 0;
        while g < p.2.len()
            invariant
                g <= p.2.len(),
                in_group == strings_view(p.2@).take(g as int).contains(group@),
            decreases p.2.len() - g,
        {
            assert(strings_view(p.2@).take(g + 1) =~= strings_view(p.2@).take(g as int).push(
                p.2@[g as int]@,
            ));
            if str_eq(p.2[g].as_str(), group) {
                in_group = true;
            }
            proof {
                if strings_view(p.2@).take(g + 1).contains(group@) && !strings_view(p.2@).take(
                    g as int,
                ).contains(group@) {
                    let i = choose|i: int|
                        0 <= i < g + 1 && #[trigger] strings_view(p.2@).take(g + 1)[i] == group@;
                    assert(i == g);
                }
                if strings_view(p.2@).take(g as int).contains(group@) {
                    let i = choose|i: int|
                        0 <= i < g && #[trigger] strings_view(p.2@).take(g as int)[i] == group@;
                    assert(strings_view(p.2@).take(g + 1)[i] == group@);
                }
                if p.2@[g as int]@ == group@ {
                    assert(strings_view(p.2@).take(g + 1)[g as int] == group@);
                }
            }
            g = g + 1;
        }
        assert(strings_view(p.2@).take(g as int) =~= strings_view(p.2@));
        let mut seen = false;
        let mut m: usize = 0;
        while m < out.len()
            invariant
                m <= out.len(),
                ov == out@.map_values(|t: (String, String, bool)| (t.0@, t.1@, t.2)),
                seen == (exists|i: int| 0 <= i < m && (#[trigger] ov[i]).0 == p.0@),
            decreases out.len() - m,
        {
            if str_eq(out[m].0.as_str(), p.0.as_str()) {
                seen = true;
            }
            proof {
                if ov[m as int].0 == p.0@ {
                    assert(exists|i: int| 0 <= i < m + 1 && (#[trigger] ov[i]).0 == p.0@);
                }
                if exists|i: int| 0 <= i < m && (#[trigger] ov[i]).0 == p.0@ {
                    let i = choose|i: int| 0 <= i < m && (#[trigger] ov[i]).0 == p.0@;
                    assert(0 <= i < m + 1 && ov[i].0 == p.0@);
                }
                if exists|i: int| 0 <= i < m + 1 && (#[trigger] ov[i]).0 == p.0@ {
                    let i = choose|i: int| 0 <= i < m + 1 && (#[trigger] ov[i]).0 == p.0@;
                    if i < m {
                        assert(exists|i: int| 0 <= i < m && (#[trigger] ov[i]).0 == p.0@);
                    }
                }
            }
            m = m + 1;
        }
        if in_group && !seen {
            let ghost o = out@;
            out.push((p.0.clone(), p.1.clone(), p.3));
            assert(out@.map_values(|t: (String, String, bool)| (t.0@, t.1@, t.2)) =~= ov.push(
                (p.0@, p.1@, p.3),
            ));
        }
        k = k + 1;
    }
    assert(pkgs@.take(k as int) =~= pkgs@);
    out
}


/// Every pick read from the user's answer names an entry of the menu.
pub proof fn law_picks_in_menu(ws: Seq<Seq<char>>, count: nat)
    ensures
        forall|i: int|
            0 <= i < picked_entries(ws, count).len() ==> 1 <= #[trigger] picked_entries(ws, count)[i] <= count,
    decreases ws.len(),
{
    if ws.len() > 0 {
        law_picks_in_menu(ws.drop_last(), count);
        let rest = picked_entries(ws.drop_last(), count);
        assert forall|i: int|
            0 <= i < picked_entries(ws, count).len() implies 1 <= #[trigger] picked_entries(ws, count)[i]
            <= count by {
            if i < rest.len() {
                assert(picked_entries(ws, count)[i] == rest[i]);
            }
        }
    }
}

} // verus!
