//! Names of package archives in pacman's cache, and the choice of an
//! archive to downgrade to.
use vstd::prelude::*;
use vstd::string::StrSliceExecFns;
use crate::text::{chars_of, ends_with, ends_with_exec, trim, trim_exec, parse_unsigned,
    parse_unsigned_exec};

verus! {

/// Index of the `k`-th `-` of `s` counted from its end (`k == 1`: the last).
pub open spec fn nth_last_dash(s: Seq<char>, k: nat) -> Option<int>
    decreases s.len(),
{
    if s.len() == 0 || k == 0 {
        None
    } else if s.last() == '-' {
        if k == 1 {
            Some(s.len() - 1)
        } else {
            nth_last_dash(s.drop_last(), (k - 1) as nat)
        }
    } else {
        nth_last_dash(s.drop_last(), k)
    }
}

/// The archive name without its `.pkg.tar.zst` or `.pkg.tar.xz` suffix.
pub open spec fn strip_archive_suffix(f: Seq<char>) -> Option<Seq<char>> {
    if ends_with(f, ".pkg.tar.zst"@) {
        Some(f.take(f.len() - 12))
    } else if ends_with(f, ".pkg.tar.xz"@) {
        Some(f.take(f.len() - 11))
    } else {
        None
    }
}

/// The name and the `version-release` that an archive named
/// `<name>-<version>-<release>-<arch>.pkg.tar.{zst,xz}` holds. The name may
/// itself hold dashes: the last three dashes end it.
pub open spec fn archive_parts(f: Seq<char>) -> Option<(Seq<char>, Seq<char>)> {
    match strip_archive_suffix(f) {
        None => None,
        Some(clean) => match nth_last_dash(clean, 3) {
            None => None,
            Some(p) => Some(
                (clean.take(p), clean.subrange(p + 1, nth_last_dash(clean, 1)->0)),
            ),
        },
    }
}

pub proof fn lemma_nth_last_dash_bounds(s: Seq<char>, k: nat)
    ensures
        nth_last_dash(s, k) matches Some(x) ==> 0 <= x < s.len() && s[x] == '-',
    decreases s.len(),
{
    if s.len() > 0 && k > 0 {
        lemma_nth_last_dash_bounds(s.drop_last(), k);
        if k > 1 {
            lemma_nth_last_dash_bounds(s.drop_last(), (k - 1) as nat);
        }
    }
}

/// A dash that is not the last has one after it.
pub proof fn lemma_nth_last_dash_order(s: Seq<char>, k: nat)
    requires
        k >= 1,
        nth_last_dash(s, k + 1) is Some,
    ensures
        nth_last_dash(s, k) is Some,
        nth_last_dash(s, k + 1)->0 < nth_last_dash(s, k)->0,
    decreases s.len(),
{
    lemma_nth_last_dash_bounds(s, k);
    lemma_nth_last_dash_bounds(s, k + 1);
    if s.last() == '-' {
        if k == 1 {
            lemma_nth_last_dash_bounds(s.drop_last(), k);
        } else {
            lemma_nth_last_dash_order(s.drop_last(), (k - 1) as nat);
        }
    } else {
        lemma_nth_last_dash_order(s.drop_last(), k);
    }
}

/// Characters without dashes after `a` do not move its dashes.
pub proof fn lemma_nth_last_dash_tail(a: Seq<char>, b: Seq<char>, k: nat)
    requires
        forall|i: int| 0 <= i < b.len() ==> b[i] != '-',
    ensures
        nth_last_dash(a + b, k) == nth_last_dash(a, k),
    decreases b.len(),
{
    if b.len() > 0 {
        assert((a + b).drop_last() =~= a + b.drop_last());
        lemma_nth_last_dash_tail(a, b.drop_last(), k);
    } else {
        assert(a + b =~= a);
    }
}

/// The index of the `k`-th dash from the end among the first `n` characters.
fn nth_last_dash_exec(s: &[char], n: usize, k: u64) -> (r: Option<usize>)
    requires
        n <= s.len(),
    ensures
        match r {
            Some(x) => nth_last_dash(s@.take(n as int), k as nat) == Some(x as int),
            None => nth_last_dash(s@.take(n as int), k as nat) is None,
        },
{
    if k == 0 {
        return None;
    }
    let mut i = n;
    let mut j = k;
    while i > 0
        invariant
            i <= n <= s.len(),
            j >= 1,
            nth_last_dash(s@.take(n as int), k as nat) == nth_last_dash(s@.take(i as int), j as nat),
        decreases i,
    {
        assert(s@.take(i as int).drop_last() =~= s@.take(i - 1));
        assert(s@.take(i as int).last() == s@[i - 1]);
        if s[i - 1] == '-' {
            if j == 1 {
                return Some(i - 1);
            }
            j = j - 1;
        }
        i = i - 1;
    }
    None
}

/// Extracts the package name and the `version-release` from the name of an
/// archive in pacman's cache: "bash-5.2.026-1-x86_64.pkg.tar.zst" gives
/// ("bash", "5.2.026-1").
pub fn parse_package_filename(filename: &str) -> (r: Option<(&str, &str)>)
    ensures
        match r {
            Some((name, version)) => archive_parts(filename@) == Some((name@, version@)),
            None => archive_parts(filename@) is None,
        },
{
    let cs = chars_of(filename);
    let zst = chars_of(".pkg.tar.zst");
    let xz = chars_of(".pkg.tar.xz");
    proof {
        reveal_strlit(".pkg.tar.zst");
        reveal_strlit(".pkg.tar.xz");
    }
    let clean_len: usize;
    if ends_with_exec(cs.as_slice(), zst.as_slice()) {
        clean_len = cs.len() - 12;
    } else if ends_with_exec(cs.as_slice(), xz.as_slice()) {
        clean_len = cs.len() - 11;
    } else {
        return None;
    }
    let ghost clean = cs@.take(clean_len as int);
    assert(strip_archive_suffix(filename@) == Some(clean));
    let p = match nth_last_dash_exec(cs.as_slice(), clean_len, 3) {
        Some(p) => p,
        None => return None,
    };
    proof {
        lemma_nth_last_dash_order(clean, 2);
        lemma_nth_last_dash_order(clean, 1);
        lemma_nth_last_dash_bounds(clean, 1);
    }
    let q = match nth_last_dash_exec(cs.as_slice(), clean_len, 1) {
        Some(q) => q,
        None => return None,
    };
    let name = filename.substring_char(0, p);
    let version = filename.substring_char(p + 1, q);
    assert(name@ =~= clean.take(p as int));
    assert(version@ =~= clean.subrange(p + 1, q as int));
    Some((name, version))
}

/// The archive picked by the answer `input` to a menu of `count` entries
/// numbered from 1: the index into the menu, or `None` when the answer is
/// not such a number.
pub fn pick_menu_entry(input: &str, count: usize) -> (r: Option<usize>)
    ensures
        match parse_unsigned(trim(input@), usize::MAX as nat) {
            Some(n) => if 1 <= n <= count {
                r == Some((n - 1) as usize)
            } else {
                r is None
            },
            None => r is None,
        },
{
    let cs = chars_of(input);
    let t = trim_exec(cs.as_slice());
    match parse_unsigned_exec(t.as_slice(), usize::MAX as u64) {
        Some(n) => {
            if 1 <= n && n <= count as u64 {
                Some((n - 1) as usize)
            } else {
                None
            }
        },
        None => None,
    }
}

/// An archive named from a name, a version, a release and an architecture
/// (none of the last three holding a dash) gives back the name and
/// `version-release`.
pub proof fn law_archive_name_round_trip(
    name: Seq<char>,
    version: Seq<char>,
    release: Seq<char>,
    arch: Seq<char>,
    suffix: Seq<char>,
)
    requires
        forall|i: int| 0 <= i < version.len() ==> version[i] != '-',
        forall|i: int| 0 <= i < release.len() ==> release[i] != '-',
        forall|i: int| 0 <= i < arch.len() ==> arch[i] != '-',
        suffix == ".pkg.tar.zst"@ || suffix == ".pkg.tar.xz"@,
    ensures
        archive_parts(name + "-"@ + version + "-"@ + release + "-"@ + arch + suffix) == Some(
            (name, version + "-"@ + release),
        ),
{
    reveal_strlit(".pkg.tar.zst");
    reveal_strlit(".pkg.tar.xz");
    reveal_strlit("-");
    let d = "-"@;
    let a1 = name + d;
    let a2 = a1 + version + d;
    let a3 = a2 + release + d;
    let clean = a3 + arch;
    let f = clean + suffix;
    assert(name + "-"@ + version + "-"@ + release + "-"@ + arch + suffix =~= f);
    assert(f.take(f.len() - suffix.len()) =~= clean);
    if suffix == ".pkg.tar.zst"@ {
        assert(ends_with(f, ".pkg.tar.zst"@)) by {
            assert(f.subrange(f.len() - 12, f.len() as int) =~= suffix);
        }
    } else {
        assert(f[f.len() - 1] == suffix[10]);
        assert(!ends_with(f, ".pkg.tar.zst"@)) by {
            if ends_with(f, ".pkg.tar.zst"@) {
                assert(f.subrange(f.len() - 12, f.len() as int)[11] == f[f.len() - 1]);
            }
        }
        assert(ends_with(f, ".pkg.tar.xz"@)) by {
            assert(f.subrange(f.len() - 11, f.len() as int) =~= suffix);
        }
    }
    assert(strip_archive_suffix(f) == Some(clean));
    // the dashes of `clean`, from its end
    lemma_nth_last_dash_tail(a3, arch, 1);
    lemma_nth_last_dash_tail(a3, arch, 3);
    assert(nth_last_dash(a3, 1) == Some(a3.len() - 1)) by {
        assert(a3.last() == '-');
    }
    assert(a3.drop_last() =~= a2 + release);
    lemma_nth_last_dash_tail(a2, release, 2);
    assert(a2.drop_last() =~= a1 + version);
    lemma_nth_last_dash_tail(a1, version, 1);
    assert(nth_last_dash(a2, 2) == nth_last_dash(a1 + version, 1));
    assert(nth_last_dash(a1, 1) == Some(name.len() as int)) by {
        assert(a1.last() == '-');
    }
    assert(nth_last_dash(clean, 3) == Some(name.len() as int));
    assert(nth_last_dash(clean, 1) == Some(a3.len() - 1));
    assert(clean.take(name.len() as int) =~= name);
    assert(clean.subrange(name.len() + 1int, a3.len() - 1) =~= version + "-"@ + release);
}

/// What follows the last dash holds none, and the dashes before it are
/// those of the part before it.
pub proof fn lemma_last_dash_split(s: Seq<char>, k: nat)
    requires
        k >= 1,
        nth_last_dash(s, 1) is Some,
    ensures
        forall|i: int| nth_last_dash(s, 1)->0 < i < s.len() ==> s[i] != '-',
        nth_last_dash(s, k + 1) == nth_last_dash(s.take(nth_last_dash(s, 1)->0), k),
    decreases s.len(),
{
    lemma_nth_last_dash_bounds(s, 1);
    let x = nth_last_dash(s, 1)->0;
    if s.last() == '-' {
        assert(x == s.len() - 1);
        assert(s.take(x) =~= s.drop_last());
    } else {
        let t = s.drop_last();
        assert(nth_last_dash(s, 1) == nth_last_dash(t, 1));
        assert(nth_last_dash(s, k + 1) == nth_last_dash(t, k + 1));
        lemma_last_dash_split(t, k);
        lemma_nth_last_dash_bounds(t, 1);
        assert(t.take(x) =~= s.take(x));
        assert forall|i: int| x < i < s.len() implies s[i] != '-' by {
            if i < s.len() - 1 {
                assert(t[i] == s[i]);
            }
        }
    }
}

/// Every name that `archive_parts` reads is an archive name made of that
/// name, a version and a release (their join is the `version-release`
/// read), an architecture and a suffix, none of the three middle parts
/// holding a dash.
pub proof fn law_archive_parts_converse(f: Seq<char>, name: Seq<char>, version_release: Seq<char>)
    requires
        archive_parts(f) == Some((name, version_release)),
    ensures
        exists|version: Seq<char>, release: Seq<char>, arch: Seq<char>, suffix: Seq<char>|
            {
                &&& forall|i: int| 0 <= i < version.len() ==> version[i] != '-'
                &&& forall|i: int| 0 <= i < release.len() ==> release[i] != '-'
                &&& forall|i: int| 0 <= i < arch.len() ==> arch[i] != '-'
                &&& (suffix == ".pkg.tar.zst"@ || suffix == ".pkg.tar.xz"@)
                &&& version_release == version + "-"@ + release
                &&& f == name + "-"@ + version + "-"@ + release + "-"@ + arch + suffix
            },
{
    reveal_strlit(".pkg.tar.zst");
    reveal_strlit(".pkg.tar.xz");
    reveal_strlit("-");
    let clean = strip_archive_suffix(f)->0;
    let suffix = f.skip(clean.len() as int);
    assert(f =~= clean + suffix);
    if ends_with(f, ".pkg.tar.zst"@) {
        assert(suffix =~= ".pkg.tar.zst"@);
    } else {
        assert(suffix =~= ".pkg.tar.xz"@);
    }
    lemma_nth_last_dash_order(clean, 2);
    lemma_nth_last_dash_order(clean, 1);
    lemma_nth_last_dash_bounds(clean, 1);
    lemma_nth_last_dash_bounds(clean, 2);
    lemma_nth_last_dash_bounds(clean, 3);
    let p1 = nth_last_dash(clean, 1)->0;
    let p2 = nth_last_dash(clean, 2)->0;
    let p3 = nth_last_dash(clean, 3)->0;
    let s1 = clean.take(p1);
    lemma_last_dash_split(clean, 1);
    lemma_last_dash_split(clean, 2);
    assert(nth_last_dash(s1, 1) == Some(p2));
    assert(nth_last_dash(s1, 2) == Some(p3));
    lemma_last_dash_split(s1, 1);
    let s2 = s1.take(p2);
    assert(nth_last_dash(s2, 1) == Some(p3));
    lemma_last_dash_split(s2, 1);
    assert(name =~= clean.take(p3));
    let version = clean.subrange(p3 + 1, p2);
    let release = clean.subrange(p2 + 1, p1);
    let arch = clean.skip(p1 + 1);
    assert forall|i: int| 0 <= i < version.len() implies version[i] != '-' by {
        assert(version[i] == s2[p3 + 1 + i]);
    }
    assert forall|i: int| 0 <= i < release.len() implies release[i] != '-' by {
        assert(release[i] == s1[p2 + 1 + i]);
    }
    assert forall|i: int| 0 <= i < arch.len() implies arch[i] != '-' by {
        assert(arch[i] == clean[p1 + 1 + i]);
    }
    assert(version_release =~= version + "-"@ + release);
    assert(f =~= name + "-"@ + version + "-"@ + release + "-"@ + arch + suffix);
}

} // verus!
