//! The package browser of the dashboard: which packages a search and a
//! filter show, in which order, the moving selection, and the packages a
//! user marked for an install or a removal.
use vstd::prelude::*;
use crate::bytes::{byte_len, utf8_width_exec};
use crate::pacman_log::strings_view;
use crate::sort::{Comparison, Preorder, consistent_on, reorders, sort_by, sort_with, sorted_by, ties_kept, ties_kept_with};
use crate::text::{lines, lines_exec, words, words_exec, trim, trim_exec, find, find_exec, replace_all,
    replace_all_exec, slice_range,
    contains, starts_with, lowercase, lex_le, chars_of, string_of, contains_exec,
    starts_with_exec, to_lowercase, lex_le_exec, seq_eq, lemma_lex_total, lemma_lex_order,
};

verus! {

/// A package as the browser lists it. `installed_size` is in bytes.
#[derive(Debug)]
pub struct PackageInfo {
    pub name: String,
    pub version: String,
    pub repo: String,
    pub is_installed: bool,
    pub is_upgradable: bool,
    pub installed_size: i64,
}

#[derive(Clone, Debug, PartialEq, Eq)]
pub enum PackageFilter {
    All,
    Installed,
    NotInstalled,
    Updates,
    Aur,
    Repositories,
    Repo(String),
    Group(String),
}

#[derive(Clone, Copy, Debug, PartialEq, Eq, Structural)]
pub enum SortMode {
    Alphabetical,
    Installed,
    Repository,
    Relevance,
}

#[derive(Clone, Copy, Debug, PartialEq, Eq, Structural)]
pub enum SelectionMode {
    Explicit,
    AllVisible,
}

#[derive(Clone, Copy, Debug, PartialEq, Eq, Structural)]
pub enum BrowserTab {
    Overview,
    Dependencies,
    Files,
    Queue,
}

/// What the browser has loaded about one package.
#[derive(Debug)]
pub struct BrowserCache {
    pub info: String,
    pub files: Vec<String>,
    pub dependencies: Vec<String>,
    pub loading_info: bool,
    pub loading_files: bool,
}

/// A package group: its packages with whether each is installed.
#[derive(Debug)]
pub struct GroupInfo {
    pub name: String,
    pub packages: Vec<(String, bool)>,
    pub description: String,
    pub is_favorite: bool,
}

/// The repository name that marks foreign (AUR) packages.
pub open spec fn aur_repo() -> Seq<char> {
    "local/aur"@
}

pub open spec fn group_names(g: GroupInfo) -> Seq<Seq<char>> {
    g.packages@.map_values(|p: (String, bool)| p.0@)
}

/// Index of the first group called `name`.
pub open spec fn first_group(groups: Seq<GroupInfo>, name: Seq<char>) -> Option<int>
    decreases groups.len(),
{
    if groups.len() == 0 {
        None
    } else {
        match first_group(groups.drop_last(), name) {
            Some(i) => Some(i),
            None => if groups.last().name@ == name {
                Some(groups.len() - 1)
            } else {
                None
            },
        }
    }
}

/// Whether a package passes a filter.
pub open spec fn filter_admits(f: PackageFilter, p: PackageInfo, groups: Seq<GroupInfo>) -> bool {
    match f {
        PackageFilter::All => true,
        PackageFilter::Installed => p.is_installed,
        PackageFilter::NotInstalled => !p.is_installed,
        PackageFilter::Updates => p.is_upgradable,
        PackageFilter::Aur => p.repo@ == aur_repo(),
        PackageFilter::Repositories => p.repo@ != aur_repo(),
        PackageFilter::Repo(r) => p.repo@ == r@,
        PackageFilter::Group(g) => match first_group(groups, g@) {
            Some(i) => group_names(groups[i]).contains(p.name@),
            None => false,
        },
    }
}

/// Whether a package matches a lower-cased query: its lower-cased name
/// contains the query, or the query is empty.
pub open spec fn query_admits(q: Seq<char>, p: PackageInfo) -> bool {
    q.len() == 0 || contains(lowercase(p.name@), q)
}

pub open spec fn browse_filter(
    list: Seq<PackageInfo>,
    q: Seq<char>,
    f: PackageFilter,
    groups: Seq<GroupInfo>,
) -> Seq<PackageInfo>
    decreases list.len(),
{
    if list.len() == 0 {
        seq![]
    } else {
        let rest = browse_filter(list.drop_last(), q, f, groups);
        if query_admits(q, list.last()) && filter_admits(f, list.last(), groups) {
            rest.push(list.last())
        } else {
            rest
        }
    }
}

/// Two package records with the same fields.
pub open spec fn same_package(a: PackageInfo, b: PackageInfo) -> bool {
    a.name@ == b.name@ && a.version@ == b.version@ && a.repo@ == b.repo@ && a.is_installed
        == b.is_installed && a.is_upgradable == b.is_upgradable && a.installed_size
        == b.installed_size
}

/// The order in which the browser lists packages, but for the relevance
/// order of a non-empty query.
pub struct PkgOrder {
    pub mode: SortMode,
}

pub open spec fn name_le(a: PackageInfo, b: PackageInfo) -> bool {
    lex_le(a.name@, b.name@)
}

/// The orders that do not look at the query: by name, by repository then
/// name, installed first then by name; relevance without a query is by name.
pub open spec fn base_le(mode: SortMode, a: PackageInfo, b: PackageInfo) -> bool {
    match mode {
        SortMode::Alphabetical => name_le(a, b),
        SortMode::Repository => (a.repo@ != b.repo@ && lex_le(a.repo@, b.repo@)) || (a.repo@
            == b.repo@ && name_le(a, b)),
        SortMode::Installed => (a.is_installed && !b.is_installed) || (a.is_installed
            == b.is_installed && name_le(a, b)),
        SortMode::Relevance => name_le(a, b),
    }
}

/// Relevance to a query: exact matches first, then names that start with
/// it, then shorter names (all in lower case); the last tie is broken by
/// comparing the first name as it is with the second in lower case.
pub open spec fn relevance_le(q: Seq<char>, a: PackageInfo, b: PackageInfo) -> bool {
    let la = lowercase(a.name@);
    let lb = lowercase(b.name@);
    let ea = la == q;
    let eb = lb == q;
    let sa = starts_with(la, q);
    let sb = starts_with(lb, q);
    ||| ea && !eb
    ||| ea == eb && sa && !sb
    ||| ea == eb && sa == sb && byte_len(la) < byte_len(lb)
    ||| ea == eb && sa == sb && byte_len(la) == byte_len(lb) && lex_le(a.name@, lb)
}

pub open spec fn pkg_le(mode: SortMode, q: Seq<char>, a: PackageInfo, b: PackageInfo) -> bool {
    if mode == SortMode::Relevance && q.len() > 0 {
        relevance_le(q, a, b)
    } else {
        base_le(mode, a, b)
    }
}

/// How the browser compares two packages outside the relevance order: by
/// name; by repository, and by name within one repository; installed
/// packages before the others, and by name among either.
pub proof fn law_package_orders(q: Seq<char>, a: PackageInfo, b: PackageInfo)
    ensures
        pkg_le(SortMode::Alphabetical, q, a, b) <==> lex_le(a.name@, b.name@),
        a.repo@ != b.repo@ ==> (pkg_le(SortMode::Repository, q, a, b) <==> lex_le(a.repo@, b.repo@)),
        a.repo@ == b.repo@ ==> (pkg_le(SortMode::Repository, q, a, b) <==> lex_le(a.name@, b.name@)),
        a.is_installed != b.is_installed ==> (pkg_le(SortMode::Installed, q, a, b) <==> a.is_installed),
        a.is_installed == b.is_installed ==> (pkg_le(SortMode::Installed, q, a, b) <==> lex_le(
            a.name@,
            b.name@,
        )),
{
}

/// A list in the repository order (as `sort_packages` leaves it) runs
/// through the repositories in their order, each repository's packages in
/// name order.
pub proof fn law_repository_sorted(q: Seq<char>, r: Seq<PackageInfo>)
    requires
        forall|i: int, j: int|
            0 <= i < j < r.len() ==> pkg_le(SortMode::Repository, q, #[trigger] r[i], #[trigger] r[j]),
    ensures
        forall|i: int, j: int|
            0 <= i < j < r.len() ==> lex_le(#[trigger] r[i].repo@, #[trigger] r[j].repo@),
        forall|i: int, j: int|
            0 <= i < j < r.len() && r[i].repo@ == r[j].repo@ ==> lex_le(
                #[trigger] r[i].name@,
                #[trigger] r[j].name@,
            ),
{
    assert forall|i: int, j: int| 0 <= i < j < r.len() implies lex_le(
        #[trigger] r[i].repo@,
        #[trigger] r[j].repo@,
    ) by {
        assert(pkg_le(SortMode::Repository, q, r[i], r[j]));
        if r[i].repo@ == r[j].repo@ {
            lemma_lex_total(r[i].repo@, r[j].repo@);
        }
    }
    assert forall|i: int, j: int|
        0 <= i < j < r.len() && r[i].repo@ == r[j].repo@ implies lex_le(
        #[trigger] r[i].name@,
        #[trigger] r[j].name@,
    ) by {
        assert(pkg_le(SortMode::Repository, q, r[i], r[j]));
    }
}

/// The relevance comparison orders the packages `s` as a total preorder.
pub open spec fn relevance_consistent(q: Seq<char>, s: Seq<PackageInfo>) -> bool {
    &&& forall|a: PackageInfo, b: PackageInfo|
        s.contains(a) && s.contains(b) ==> relevance_le(q, a, b) || relevance_le(q, b, a)
    &&& forall|a: PackageInfo, b: PackageInfo, d: PackageInfo|
        s.contains(a) && s.contains(b) && s.contains(d) && #[trigger] relevance_le(q, a, b)
            && #[trigger] relevance_le(q, b, d) ==> relevance_le(q, a, d)
}

/// Every name of `s` is its own lower-case form, as package names are.
pub open spec fn names_lower_case(s: Seq<PackageInfo>) -> bool {
    forall|p: PackageInfo| s.contains(p) ==> lowercase(p.name@) == p.name@
}

/// When every name is in lower case, the relevance comparison is a total
/// preorder on the packages, so the relevance sort sorts them.
pub proof fn lemma_relevance_consistent(q: Seq<char>, s: Seq<PackageInfo>)
    requires
        names_lower_case(s),
    ensures
        relevance_consistent(q, s),
{
    assert forall|a: PackageInfo, b: PackageInfo|
        s.contains(a) && s.contains(b) implies relevance_le(q, a, b) || relevance_le(q, b, a) by {
        lemma_lex_total(a.name@, b.name@);
    }
    assert forall|a: PackageInfo, b: PackageInfo, d: PackageInfo|
        s.contains(a) && s.contains(b) && s.contains(d) && #[trigger] relevance_le(q, a, b)
            && #[trigger] relevance_le(q, b, d) implies relevance_le(q, a, d) by {
        lemma_lex_order(a.name@, b.name@, d.name@);
    }
}

impl Preorder<PackageInfo> for PkgOrder {
    open spec fn le(&self, a: PackageInfo, b: PackageInfo) -> bool {
        base_le(self.mode, a, b)
    }

    proof fn total(&self, a: PackageInfo, b: PackageInfo) {
        lemma_lex_total(a.name@, b.name@);
        lemma_lex_total(a.repo@, b.repo@);
    }

    proof fn transitive(&self, a: PackageInfo, b: PackageInfo, c: PackageInfo) {
        lemma_lex_order(a.name@, b.name@, c.name@);
        lemma_lex_order(a.repo@, b.repo@, c.repo@);
        lemma_lex_order(b.repo@, c.repo@, a.repo@);
        lemma_lex_order(c.repo@, a.repo@, b.repo@);
    }

    fn le_exec(&self, a: &PackageInfo, b: &PackageInfo) -> (r: bool) {
        let an = chars_of(a.name.as_str());
        let bn = chars_of(b.name.as_str());
        match self.mode {
            SortMode::Repository => {
                let ar = chars_of(a.repo.as_str());
                let br = chars_of(b.repo.as_str());
                let same = seq_eq(ar.as_slice(), br.as_slice());
                (!same && lex_le_exec(ar.as_slice(), br.as_slice())) || (same && lex_le_exec(
                    an.as_slice(),
                    bn.as_slice(),
                ))
            },
            SortMode::Installed => (a.is_installed && !b.is_installed) || (a.is_installed
                == b.is_installed && lex_le_exec(an.as_slice(), bn.as_slice())),
            _ => lex_le_exec(an.as_slice(), bn.as_slice()),
        }
    }
}

/// The relevance order of a non-empty lower-cased query.
pub struct RelevanceOrder {
    pub query: Vec<char>,
}

impl Comparison<PackageInfo> for RelevanceOrder {
    open spec fn le(&self, a: PackageInfo, b: PackageInfo) -> bool {
        relevance_le(self.query@, a, b)
    }

    fn le_exec(&self, a: &PackageInfo, b: &PackageInfo) -> (r: bool) {
        let an = chars_of(a.name.as_str());
        let bn = chars_of(b.name.as_str());
        let la = to_lowercase(an.as_slice());
        let lb = to_lowercase(bn.as_slice());
        let q = self.query.as_slice();
        let ea = seq_eq(la.as_slice(), q);
        let eb = seq_eq(lb.as_slice(), q);
        let sa = starts_with_exec(la.as_slice(), q);
        let sb = starts_with_exec(lb.as_slice(), q);
        let na = byte_len_exec(la.as_slice());
        let nb = byte_len_exec(lb.as_slice());
        (ea && !eb) || (ea == eb && sa && !sb) || (ea == eb && sa == sb && na < nb) || (ea == eb
            && sa == sb && na == nb && lex_le_exec(an.as_slice(), lb.as_slice()))
    }
}

/// `str::len` of the characters `s`.
pub fn byte_len_exec(s: &[char]) -> (n: u128)
    ensures
        n == byte_len(s@),
{
    let mut n: u128 = 0;
    let mut k: usize = 0;
    assert(s@.take(0) =~= Seq::<char>::empty());
    while k < s.len()
        invariant
            k <= s.len(),
            n == byte_len(s@.take(k as int)),
            n <= 4 * k,
        decreases s.len() - k,
    {
        assert(s@.take(k + 1).drop_last() =~= s@.take(k as int));
        n = n + utf8_width_exec(s[k]) as u128;
        k = k + 1;
    }
    assert(s@.take(k as int) =~= s@);
    n
}

// ---------------------------------------------------------------- exec ----

/// A copy of a package record.
pub fn clone_package(p: &PackageInfo) -> (r: PackageInfo)
    ensures
        same_package(r, *p),
{
    PackageInfo {
        name: p.name.clone(),
        version: p.version.clone(),
        repo: p.repo.clone(),
        is_installed: p.is_installed,
        is_upgradable: p.is_upgradable,
        installed_size: p.installed_size,
    }
}

pub fn group_contains(g: &GroupInfo, name: &[char]) -> (r: bool)
    ensures
        r == group_names(*g).contains(name@),
{
    let ghost gv = group_names(*g);
    let mut k: usize = 0;
    while k < g.packages.len()
        invariant
            k <= g.packages.len(),
            gv == group_names(*g),
            forall|j: int| 0 <= j < k ==> gv[j] != name@,
        decreases g.packages.len() - k,
    {
        let n = chars_of(g.packages[k].0.as_str());
        if seq_eq(n.as_slice(), name) {
            assert(gv[k as int] == name@);
            return true;
        }
        k = k + 1;
    }
    false
}

fn first_group_exec(groups: &Vec<GroupInfo>, name: &[char]) -> (r: Option<usize>)
    ensures
        match r {
            Some(i) => first_group(groups@, name@) == Some(i as int) && i < groups.len(),
            None => first_group(groups@, name@) is None,
        },
{
    let mut k: usize = 0;
    assert(groups@.take(0) =~= Seq::<GroupInfo>::empty());
    while k < groups.len()
        invariant
            k <= groups.len(),
            first_group(groups@.take(k as int), name@) is None,
        decreases groups.len() - k,
    {
        assert(groups@.take(k + 1).drop_last() =~= groups@.take(k as int));
        let n = chars_of(groups[k].name.as_str());
        if seq_eq(n.as_slice(), name) {
            proof {
                lemma_first_group_prefix(groups@, name@, k as int + 1);
            }
            return Some(k);
        }
        k = k + 1;
    }
    assert(groups@.take(k as int) =~= groups@);
    None
}

/// A first match inside a prefix is the first match of the whole list.
proof fn lemma_first_group_prefix(groups: Seq<GroupInfo>, name: Seq<char>, k: int)
    requires
        0 <= k <= groups.len(),
        first_group(groups.take(k), name) is Some,
    ensures
        first_group(groups, name) == first_group(groups.take(k), name),
    decreases groups.len() - k,
{
    if k < groups.len() {
        assert(groups.take(k + 1).drop_last() =~= groups.take(k));
        lemma_first_group_prefix(groups, name, k + 1);
    } else {
        assert(groups.take(k) =~= groups);
    }
}

fn filter_admits_exec(f: &PackageFilter, p: &PackageInfo, groups: &Vec<GroupInfo>) -> (r: bool)
    ensures
        r == filter_admits(*f, *p, groups@),
{
    match f {
        PackageFilter::All => true,
        PackageFilter::Installed => p.is_installed,
        PackageFilter::NotInstalled => !p.is_installed,
        PackageFilter::Updates => p.is_upgradable,
        PackageFilter::Aur => seq_eq(
            chars_of(p.repo.as_str()).as_slice(),
            chars_of("local/aur").as_slice(),
        ),
        PackageFilter::Repositories => !seq_eq(
            chars_of(p.repo.as_str()).as_slice(),
            chars_of("local/aur").as_slice(),
        ),
        PackageFilter::Repo(r) => seq_eq(
            chars_of(p.repo.as_str()).as_slice(),
            chars_of(r.as_str()).as_slice(),
        ),
        PackageFilter::Group(g) => {
            match first_group_exec(groups, chars_of(g.as_str()).as_slice()) {
                Some(i) => group_contains(&groups[i], chars_of(p.name.as_str()).as_slice()),
                None => false,
            }
        },
    }
}

/// The packages that a search and a filter leave, in list order: names
/// that contain the query in lower case (any name for an empty query) and
/// that the filter admits.
pub fn filter_packages(
    list: &Vec<PackageInfo>,
    query: &str,
    filter: &PackageFilter,
    groups: &Vec<GroupInfo>,
) -> (r: Vec<PackageInfo>)
    ensures
        r@.len() == browse_filter(list@, lowercase(query@), *filter, groups@).len(),
        forall|i: int|
            0 <= i < r@.len() ==> same_package(
                #[trigger] r@[i],
                browse_filter(list@, lowercase(query@), *filter, groups@)[i],
            ),
{
    let q = to_lowercase(chars_of(query).as_slice());
    let mut out: Vec<PackageInfo> = Vec::new();
    let mut k: usize = 0;
    assert(list@.take(0) =~= Seq::<PackageInfo>::empty());
    while k < list.len()
        invariant
            k <= list.len(),
            q@ == lowercase(query@),
            out@.len() == browse_filter(list@.take(k as int), q@, *filter, groups@).len(),
            forall|i: int|
                0 <= i < out@.len() ==> same_package(
                    #[trigger] out@[i],
                    browse_filter(list@.take(k as int), q@, *filter, groups@)[i],
                ),
        decreases list.len() - k,
    {
        assert(list@.take(k + 1).drop_last() =~= list@.take(k as int));
        let p = &list[k];
        let qa = q.len() == 0 || contains_exec(
            to_lowercase(chars_of(p.name.as_str()).as_slice()).as_slice(),
            q.as_slice(),
        );
        if qa && filter_admits_exec(filter, p, groups) {
            out.push(clone_package(p));
        }
        k = k + 1;
    }
    assert(list@.take(k as int) =~= list@);
    out
}

/// Packages that the order ranks equal keep their list order.
pub open spec fn pkg_ties_kept(mode: SortMode, q: Seq<char>, r: Seq<PackageInfo>, perm: Seq<int>) -> bool {
    forall|i: int, j: int|
        0 <= i < j < r.len() && pkg_le(mode, q, #[trigger] r[i], #[trigger] r[j]) && pkg_le(
            mode,
            q,
            r[j],
            r[i],
        ) ==> perm[i] < perm[j]
}

/// Order the listed packages by a sort mode (and the lower-cased query for
/// the relevance order), keeping equal packages in their order. The
/// relevance comparison of a query sorts whenever it orders the packages
/// consistently, which it does when their names are in lower case
/// (`lemma_relevance_consistent`).
pub fn sort_packages(list: Vec<PackageInfo>, mode: SortMode, query_lower: &str) -> (r: Vec<
    PackageInfo,
>)
    ensures
        r@.to_multiset() == list@.to_multiset(),
        exists|perm: Seq<int>|
            #[trigger] reorders(list@, r@, perm) && ((mode != SortMode::Relevance || query_lower@.len()
                == 0 || relevance_consistent(query_lower@, list@)) ==> pkg_ties_kept(
                mode,
                query_lower@,
                r@,
                perm,
            )),
        (mode != SortMode::Relevance || query_lower@.len() == 0 || relevance_consistent(
            query_lower@,
            list@,
        )) ==> forall|i: int, j: int|
            0 <= i < j < r@.len() ==> pkg_le(mode, query_lower@, #[trigger] r@[i], #[trigger] r@[j]),
{
    let ghost l0 = list@;
    let q = chars_of(query_lower);
    if mode == SortMode::Relevance && q.len() > 0 {
        let order = RelevanceOrder { query: q };
        let r = sort_with(list, &order);
        proof {
            let perm = choose|perm: Seq<int>|
                #[trigger] reorders(l0, r@, perm) && (consistent_on(&order, l0) ==> ties_kept_with(
                    &order,
                    r@,
                    perm,
                ));
            assert(reorders(l0, r@, perm));
        }
        r
    } else {
        let order = PkgOrder { mode };
        let r = sort_by(list, &order);
        assert(sorted_by(&order, r@));
        proof {
            let perm = choose|perm: Seq<int>| reorders(l0, r@, perm) && ties_kept(&order, r@, perm);
            assert(reorders(l0, r@, perm));
        }
        r
    }
}

/// The row selected after moving down: the next one, wrapping to the top,
/// or the first when nothing was selected. An empty list keeps its state.
pub open spec fn next_index(sel: Option<usize>, len: nat) -> Option<usize> {
    if len == 0 {
        sel
    } else {
        match sel {
            Some(i) => if i >= len - 1 {
                Some(0)
            } else {
                Some((i + 1) as usize)
            },
            None => Some(0),
        }
    }
}

/// The row selected after moving up: the previous one, wrapping to the
/// bottom, or the first when nothing was selected.
pub open spec fn previous_index(sel: Option<usize>, len: nat) -> Option<usize> {
    if len == 0 {
        sel
    } else {
        match sel {
            Some(i) => if i == 0 {
                Some((len - 1) as usize)
            } else {
                Some((i - 1) as usize)
            },
            None => Some(0),
        }
    }
}

pub fn next_item(sel: Option<usize>, len: usize) -> (r: Option<usize>)
    ensures
        r == next_index(sel, len as nat),
{
    if len == 0 {
        return sel;
    }
    match sel {
        Some(i) => if i >= len - 1 {
            Some(0)
        } else {
            Some(i + 1)
        },
        None => Some(0),
    }
}

pub fn previous_item(sel: Option<usize>, len: usize) -> (r: Option<usize>)
    ensures
        r == previous_index(sel, len as nat),
{
    if len == 0 {
        return sel;
    }
    match sel {
        Some(i) => if i == 0 {
            Some(len - 1)
        } else {
            Some(i - 1)
        },
        None => Some(0),
    }
}

/// The first row, when there is one.
pub fn go_to_top(sel: Option<usize>, len: usize) -> (r: Option<usize>)
    ensures
        r == if len == 0 {
            sel
        } else {
            Some(0usize)
        },
{
    if len == 0 {
        sel
    } else {
        Some(0)
    }
}

/// The last row, when there is one.
pub fn go_to_bottom(sel: Option<usize>, len: usize) -> (r: Option<usize>)
    ensures
        r == if len == 0 {
            sel
        } else {
            Some((len - 1) as usize)
        },
{
    if len == 0 {
        sel
    } else {
        Some(len - 1)
    }
}

/// Moving down and then up comes back to a selected row.
pub proof fn law_next_then_previous(i: usize, len: nat)
    requires
        i < len,
        len <= usize::MAX,
    ensures
        previous_index(next_index(Some(i), len), len) == Some(i),
{
}

/// Moving up and then down comes back to a selected row.
pub proof fn law_previous_then_next(i: usize, len: nat)
    requires
        i < len,
        len <= usize::MAX,
    ensures
        next_index(previous_index(Some(i), len), len) == Some(i),
{
}

/// Moving never leaves a non-empty list.
pub proof fn law_moves_stay_in_list(sel: Option<usize>, len: nat)
    requires
        len > 0,
        len <= usize::MAX,
        sel matches Some(i) ==> i < len,
    ensures
        next_index(sel, len) matches Some(j) && j < len,
        previous_index(sel, len) matches Some(j) && j < len,
{
}


/// An installed package as the package list takes it from the local
/// database: name, version and installed size in bytes.
#[derive(Debug)]
pub struct LocalPackage {
    pub name: String,
    pub version: String,
    pub installed_size: i64,
}

pub open spec fn in_sync_list(sync: Seq<PackageInfo>, name: Seq<char>) -> bool {
    exists|i: int| 0 <= i < sync.len() && (#[trigger] sync[i]).name@ == name
}

/// The installed packages that no sync database lists, in order.
pub open spec fn foreign_locals(local: Seq<LocalPackage>, sync: Seq<PackageInfo>) -> Seq<LocalPackage>
    decreases local.len(),
{
    if local.len() == 0 {
        seq![]
    } else {
        let rest = foreign_locals(local.drop_last(), sync);
        if in_sync_list(sync, local.last().name@) {
            rest
        } else {
            rest.push(local.last())
        }
    }
}

/// How the browser lists an installed package that no sync database has:
/// in `local/aur`, installed, never upgradable.
pub open spec fn foreign_entry(p: PackageInfo, l: LocalPackage) -> bool {
    &&& p.name@ == l.name@
    &&& p.version@ == l.version@
    &&& p.repo@ == aur_repo()
    &&& p.is_installed
    &&& !p.is_upgradable
    &&& p.installed_size == l.installed_size
}

pub open spec fn count_pkgs(s: Seq<PackageInfo>, f: spec_fn(PackageInfo) -> bool) -> nat
    decreases s.len(),
{
    if s.len() == 0 {
        0
    } else {
        count_pkgs(s.drop_last(), f) + if f(s.last()) {
            1nat
        } else {
            0nat
        }
    }
}

pub proof fn lemma_count_pkgs_bound(s: Seq<PackageInfo>, f: spec_fn(PackageInfo) -> bool)
    ensures
        count_pkgs(s, f) <= s.len(),
    decreases s.len(),
{
    if s.len() > 0 {
        lemma_count_pkgs_bound(s.drop_last(), f);
    }
}

/// The browser's package list: the packages of the sync databases, then
/// the installed ones they do not list, ordered by name; with how many are
/// installed and how many can be upgraded.
pub fn assemble_packages(sync: Vec<PackageInfo>, local: &Vec<LocalPackage>) -> (r: (
    Vec<PackageInfo>,
    usize,
    usize,
))
    requires
        sync.len() + local.len() <= usize::MAX,
    ensures
        exists|fe: Seq<PackageInfo>|
            {
                &&& fe.len() == foreign_locals(local@, sync@).len()
                &&& forall|i: int|
                    0 <= i < fe.len() ==> foreign_entry(#[trigger] fe[i], foreign_locals(local@, sync@)[i])
                &&& r.0@.to_multiset() == (sync@ + fe).to_multiset()
                &&& exists|perm: Seq<int>|
                    #[trigger] reorders(sync@ + fe, r.0@, perm) && pkg_ties_kept(
                        SortMode::Alphabetical,
                        Seq::<char>::empty(),
                        r.0@,
                        perm,
                    )
            },
        forall|i: int, j: int|
            0 <= i < j < r.0@.len() ==> name_le(#[trigger] r.0@[i], #[trigger] r.0@[j]),
        r.1 == count_pkgs(sync@, |p: PackageInfo| p.is_installed) + foreign_locals(local@, sync@).len(),
        r.2 == count_pkgs(sync@, |p: PackageInfo| p.is_upgradable),
{
    let ghost s0 = sync@;
    let mut installed: usize = 0;
    let mut updates: usize = 0;
    let mut k: usize = 0;
    assert(s0.take(0) =~= Seq::<PackageInfo>::empty());
    while k < sync.len()
        invariant
            k <= sync.len(),
            s0 == sync@,
            installed == count_pkgs(s0.take(k as int), |p: PackageInfo| p.is_installed),
            updates == count_pkgs(s0.take(k as int), |p: PackageInfo| p.is_upgradable),
        decreases sync.len() - k,
    {
        assert(s0.take(k + 1).drop_last() =~= s0.take(k as int));
        proof {
            lemma_count_pkgs_bound(s0.take(k as int), |p: PackageInfo| p.is_installed);
            lemma_count_pkgs_bound(s0.take(k as int), |p: PackageInfo| p.is_upgradable);
        }
        if sync[k].is_installed {
            installed = installed + 1;
        }
        if sync[k].is_upgradable {
            updates = updates + 1;
        }
        k = k + 1;
    }
    assert(s0.take(k as int) =~= s0);
    proof {
        lemma_count_pkgs_bound(s0, |p: PackageInfo| p.is_installed);
    }
    let mut extra: Vec<PackageInfo> = Vec::new();
    let mut m: usize = 0;
    assert(local@.take(0) =~= Seq::<LocalPackage>::empty());
    while m < local.len()
        invariant
            m <= local.len(),
            s0 == sync@,
            extra@.len() == foreign_locals(local@.take(m as int), s0).len(),
            forall|i: int|
                0 <= i < extra@.len() ==> foreign_entry(
                    #[trigger] extra@[i],
                    foreign_locals(local@.take(m as int), s0)[i],
                ),
            installed == count_pkgs(s0, |p: PackageInfo| p.is_installed) + extra@.len(),
            installed <= sync.len() + m,
            sync.len() + local.len() <= usize::MAX,
        decreases local.len() - m,
    {
        assert(local@.take(m + 1).drop_last() =~= local@.take(m as int));
        assert(local@.take(m + 1).last() == local@[m as int]);
        let l = &local[m];
        let mut seen = false;
        let mut j: usize = 0;
        while j < sync.len()
            invariant
                j <= sync.len(),
                seen == (exists|i: int| 0 <= i < j && (#[trigger] sync@[i]).name@ == l.name@),
            decreases sync.len() - j,
        {
            if str_eq_str(&sync[j].name, &l.name) {
                seen = true;
            }
            proof {
                if sync@[j as int].name@ == l.name@ {
                    assert(exists|i: int| 0 <= i < j + 1 && (#[trigger] sync@[i]).name@ == l.name@);
                }
                if exists|i: int| 0 <= i < j + 1 && (#[trigger] sync@[i]).name@ == l.name@ {
                    let i = choose|i: int| 0 <= i < j + 1 && (#[trigger] sync@[i]).name@ == l.name@;
                    if i < j {
                        assert(exists|i: int| 0 <= i < j && (#[trigger] sync@[i]).name@ == l.name@);
                    }
                }
                if exists|i: int| 0 <= i < j && (#[trigger] sync@[i]).name@ == l.name@ {
                    let i = choose|i: int| 0 <= i < j && (#[trigger] sync@[i]).name@ == l.name@;
                    assert(0 <= i < j + 1);
                }
            }
            j = j + 1;
        }
        if !seen {
            let p = PackageInfo {
                name: l.name.clone(),
                version: l.version.clone(),
                repo: "local/aur".to_string(),
                is_installed: true,
                is_upgradable: false,
                installed_size: l.installed_size,
            };
            extra.push(p);
            installed = installed + 1;
        }
        m = m + 1;
    }
    assert(local@.take(m as int) =~= local@);
    let ghost fe = extra@;
    let mut all = sync;
    let ghost a0 = all@;
    let mut e = extra;
    let mut rev: Vec<PackageInfo> = Vec::new();
    while e.len() > 0
        invariant
            e@ + rev@.reverse() == fe,
        decreases e.len(),
    {
        let ghost e0 = e@;
        let ghost r0 = rev@;
        let x = e.pop().unwrap();
        rev.push(x);
        assert(e0 =~= e@.push(x));
        assert(e@ + rev@.reverse() =~= e0 + r0.reverse());
    }
    assert(e@ =~= Seq::<PackageInfo>::empty());
    while rev.len() > 0
        invariant
            all@ + rev@.reverse() == a0 + fe,
        decreases rev.len(),
    {
        let ghost r0 = rev@;
        let ghost l0 = all@;
        let x = rev.pop().unwrap();
        all.push(x);
        assert(r0 =~= rev@.push(x));
        assert(r0.reverse() =~= seq![x] + rev@.reverse());
        assert(all@ + rev@.reverse() =~= l0 + r0.reverse());
    }
    assert(rev@.reverse() =~= Seq::<PackageInfo>::empty());
    assert(all@ =~= a0 + fe);
    let sorted = sort_packages(all, SortMode::Alphabetical, "");
    proof {
        reveal_strlit("");
        let perm = choose|perm: Seq<int>|
            #[trigger] reorders(a0 + fe, sorted@, perm) && ((SortMode::Alphabetical != SortMode::Relevance
                || ""@.len() == 0 || relevance_consistent(""@, a0 + fe)) ==> pkg_ties_kept(
                SortMode::Alphabetical,
                ""@,
                sorted@,
                perm,
            ));
        assert(""@ =~= Seq::<char>::empty());
        assert(reorders(a0 + fe, sorted@, perm));
    }
    (sorted, installed, updates)
}

fn str_eq_str(a: &String, b: &String) -> (r: bool)
    ensures
        r == (a@ == b@),
{
    let x = chars_of(a.as_str());
    let y = chars_of(b.as_str());
    seq_eq(x.as_slice(), y.as_slice())
}


// ------------------------------------------------ the details panes ----

/// The words after the first `:` of a line that lists related packages,
/// without the `None` pacman writes for an empty list.
pub open spec fn listed_words(ws: Seq<Seq<char>>) -> Seq<Seq<char>>
    decreases ws.len(),
{
    if ws.len() == 0 {
        seq![]
    } else {
        let rest = listed_words(ws.drop_last());
        if ws.last() == "None"@ {
            rest
        } else {
            rest.push(ws.last())
        }
    }
}

/// The related packages named by one line of `pacman -Qi` output: its
/// dependencies, optional dependencies and reverse dependencies.
pub open spec fn info_line_deps(line: Seq<char>) -> Seq<Seq<char>> {
    if starts_with(line, "Depends On"@) || starts_with(line, "Optional Deps"@) || starts_with(line, "Required By"@) {
        match find(line, ":"@) {
            Some(i) => listed_words(words(line.skip(i + 1))),
            None => seq![],
        }
    } else {
        seq![]
    }
}

pub open spec fn info_deps(ls: Seq<Seq<char>>) -> Seq<Seq<char>>
    decreases ls.len(),
{
    if ls.len() == 0 {
        seq![]
    } else {
        info_deps(ls.drop_last()) + info_line_deps(ls.last())
    }
}

fn info_line_deps_exec(line: &[char]) -> (r: Vec<String>)
    ensures
        strings_view(r@) == info_line_deps(line@),
{
    proof {
        reveal_strlit(":");
        reveal_strlit("None");
    }
    let mut out: Vec<String> = Vec::new();
    if !(starts_with_exec(line, chars_of("Depends On").as_slice()) || starts_with_exec(
        line,
        chars_of("Optional Deps").as_slice(),
    ) || starts_with_exec(line, chars_of("Required By").as_slice())) {
        assert(strings_view(out@) =~= Seq::<Seq<char>>::empty());
        return out;
    }
    let i = match find_exec(line, chars_of(":").as_slice()) {
        Some(i) => i,
        None => {
            assert(strings_view(out@) =~= Seq::<Seq<char>>::empty());
            return out;
        },
    };
    let rest = slice_range(line, i + 1, line.len());
    assert(rest@ =~= line@.skip(i + 1));
    let ws = words_exec(rest.as_slice());
    let ghost wv = words(rest@);
    let none = chars_of("None");
    let mut k: usize = 0;
    assert(strings_view(out@) =~= listed_words(wv.take(0)));
    while k < ws.len()
        invariant
            k <= ws.len(),
            wv == words(rest@),
            none@ == "None"@,
            ws@.len() == wv.len(),
            forall|j: int| 0 <= j < ws@.len() ==> (#[trigger] ws@[j])@ == wv[j],
            strings_view(out@) == listed_words(wv.take(k as int)),
        decreases ws.len() - k,
    {
        assert(wv.take(k + 1).drop_last() =~= wv.take(k as int));
        assert(wv.take(k + 1).last() == ws@[k as int]@);
        let ghost o = out@;
        if !seq_eq(ws[k].as_slice(), none.as_slice()) {
            out.push(string_of(ws[k].as_slice()));
            assert(strings_view(out@) =~= strings_view(o).push(ws@[k as int]@));
        }
        k = k + 1;
    }
    assert(wv.take(k as int) =~= wv);
    out
}

/// The related packages that the details pane lists from `pacman -Qi`.
pub fn info_dependencies(info: &str) -> (r: Vec<String>)
    ensures
        strings_view(r@) == info_deps(lines(info@)),
{
    let ls = lines_exec(chars_of(info).as_slice());
    let ghost lv = lines(info@);
    let mut out: Vec<String> = Vec::new();
    let mut k: usize = 0;
    assert(strings_view(out@) =~= info_deps(lv.take(0)));
    while k < ls.len()
        invariant
            k <= ls.len(),
            lv == lines(info@),
            ls@.len() == lv.len(),
            forall|j: int| 0 <= j < ls@.len() ==> (#[trigger] ls@[j])@ == lv[j],
            strings_view(out@) == info_deps(lv.take(k as int)),
        decreases ls.len() - k,
    {
        assert(lv.take(k + 1).drop_last() =~= lv.take(k as int));
        assert(lv.take(k + 1).last() == ls@[k as int]@);
        let more = info_line_deps_exec(ls[k].as_slice());
        let ghost o = strings_view(out@);
        let mut j: usize = 0;
        while j < more.len()
            invariant
                j <= more.len(),
                strings_view(out@) == o + strings_view(more@).take(j as int),
            decreases more.len() - j,
        {
            let ghost o2 = out@;
            out.push(more[j].clone());
            assert(strings_view(out@) =~= strings_view(o2).push(more@[j as int]@));
            assert(strings_view(more@).take(j + 1) =~= strings_view(more@).take(j as int).push(
                more@[j as int]@,
            ));
            j = j + 1;
        }
        assert(strings_view(more@).take(j as int) =~= strings_view(more@));
        k = k + 1;
    }
    assert(lv.take(k as int) =~= lv);
    out
}

/// The files of `pacman -Ql` output: each line without the package's name,
/// trimmed.
pub open spec fn listed_files(ls: Seq<Seq<char>>, pkg: Seq<char>) -> Seq<Seq<char>> {
    ls.map_values(|l: Seq<char>| trim(replace_all(l, pkg, ""@)))
}

pub fn package_files(output: &str, pkg: &str) -> (r: Vec<String>)
    ensures
        strings_view(r@) == listed_files(lines(output@), pkg@),
{
    let ls = lines_exec(chars_of(output).as_slice());
    let ghost lv = lines(output@);
    let p = chars_of(pkg);
    let empty = chars_of("");
    let mut out: Vec<String> = Vec::new();
    let mut k: usize = 0;
    while k < ls.len()
        invariant
            k <= ls.len(),
            lv == lines(output@),
            p@ == pkg@,
            empty@ == ""@,
            ls@.len() == lv.len(),
            forall|j: int| 0 <= j < ls@.len() ==> (#[trigger] ls@[j])@ == lv[j],
            strings_view(out@) == listed_files(lv.take(k as int), pkg@),
        decreases ls.len() - k,
    {
        let f = trim_exec(replace_all_exec(ls[k].as_slice(), p.as_slice(), empty.as_slice()).as_slice());
        let ghost o = out@;
        out.push(string_of(f.as_slice()));
        assert(lv.take(k + 1) =~= lv.take(k as int).push(lv[k as int]));
        assert(f@ == trim(replace_all(lv[k as int], pkg@, ""@)));
        assert(strings_view(out@) =~= strings_view(o).push(f@));
        assert(listed_files(lv.take(k + 1), pkg@) =~= listed_files(lv.take(k as int), pkg@).push(f@));
        k = k + 1;
    }
    assert(lv.take(k as int) =~= lv);
    out
}

} // verus!
