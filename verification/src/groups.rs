//! The package-group screen: which groups a search shows, the order in
//! which they are listed, and marking a group as a favourite.
use vstd::prelude::*;
use crate::browser::GroupInfo;
use crate::tui::GroupSortMode;
use crate::text::{chars_of, contains, contains_exec, lex_le, lex_le_exec, lowercase, to_lowercase,
    str_eq, lemma_lex_order};
use crate::sort::{Preorder, reorders, sort_by, sorted_by, ties_kept};
use crate::browser::{PackageInfo, PackageFilter};
use crate::pacman_log::strings_view;
use crate::text::{lines, lines_exec, words, words_exec, string_of, seq_eq};

verus! {

/// A group passes the search: an empty query, or its lower-cased name
/// contains the lower-cased query `q`.
pub open spec fn group_admits(q: Seq<char>, g: GroupInfo) -> bool {
    q.len() == 0 || contains(lowercase(g.name@), q)
}

pub open spec fn group_search(groups: Seq<GroupInfo>, q: Seq<char>) -> Seq<GroupInfo> {
    groups.filter(|g: GroupInfo| group_admits(q, g))
}

/// The groups that the search `query` leaves, in their order.
pub fn filter_groups(groups: Vec<GroupInfo>, query: &str) -> (r: Vec<GroupInfo>)
    ensures
        r@ == group_search(groups@, lowercase(query@)),
{
    let q = to_lowercase(chars_of(query).as_slice());
    let ghost orig = groups@;
    let mut rest = groups;
    let mut kept: Vec<GroupInfo> = Vec::new();
    // walk from the back so that `pop` hands the groups out
    assert(orig.skip(orig.len() as int) =~= Seq::<GroupInfo>::empty());
    while rest.len() > 0
        invariant
            q@ == lowercase(query@),
            rest@ == orig.take(rest@.len() as int),
            rest@.len() <= orig.len(),
            kept@ == orig.skip(rest@.len() as int).filter(|g: GroupInfo| group_admits(q@, g)).reverse(),
        decreases rest.len(),
    {
        let ghost n = rest@.len() as int;
        let g = rest.pop().unwrap();
        assert(g == orig[n - 1]);
        let admits = q.len() == 0 || contains_exec(
            to_lowercase(chars_of(g.name.as_str()).as_slice()).as_slice(),
            q.as_slice(),
        );
        assert(admits == group_admits(q@, g));
        let ghost k0 = kept@;
        proof {
            assert(orig.skip(n - 1) =~= seq![g] + orig.skip(n));
            lemma_filter_prepend(orig.skip(n), g, |x: GroupInfo| group_admits(q@, x));
        }
        if admits {
            kept.push(g);
            assert(kept@ =~= (seq![g] + orig.skip(n).filter(|x: GroupInfo| group_admits(q@, x))).reverse());
        } else {
            assert(kept@ =~= k0);
        }
        assert(rest@ =~= orig.take(n - 1));
    }
    assert(orig.skip(0) =~= orig);
    let mut out: Vec<GroupInfo> = Vec::new();
    let ghost want = orig.filter(|g: GroupInfo| group_admits(q@, g));
    assert(kept@ == want.reverse());
    while kept.len() > 0
        invariant
            kept@ == want.reverse().take(kept@.len() as int),
            kept@.len() <= want.len(),
            out@ == want.take(want.len() - kept@.len()),
        decreases kept.len(),
    {
        let ghost m = kept@.len() as int;
        let g = kept.pop().unwrap();
        assert(g == want[want.len() - m]);
        out.push(g);
        assert(out@ =~= want.take(want.len() - m + 1));
        assert(kept@ =~= want.reverse().take(m - 1));
    }
    assert(out@ =~= want);
    out
}

proof fn lemma_filter_prepend(s: Seq<GroupInfo>, x: GroupInfo, pred: spec_fn(GroupInfo) -> bool)
    ensures
        (seq![x] + s).filter(pred) == if pred(x) {
            seq![x] + s.filter(pred)
        } else {
            s.filter(pred)
        },
    decreases s.len(),
{
    reveal(Seq::filter);
    if s.len() == 0 {
        reveal_with_fuel(Seq::filter, 2);
        assert(seq![x] + s =~= seq![x]);
        assert(seq![x].drop_last() =~= Seq::<GroupInfo>::empty());
        assert(s.filter(pred) =~= Seq::<GroupInfo>::empty());
        assert(seq![x] + Seq::<GroupInfo>::empty() =~= seq![x]);
    } else {
        assert((seq![x] + s).drop_last() =~= seq![x] + s.drop_last());
        lemma_filter_prepend(s.drop_last(), x, pred);
        assert((seq![x] + s).last() == s.last());
        if pred(x) {
            if pred(s.last()) {
                assert(seq![x] + s.drop_last().filter(pred).push(s.last()) =~= (seq![x]
                    + s.drop_last().filter(pred)).push(s.last()));
            }
        }
    }
}

/// Number of installed packages in a list of (name, installed) pairs.
pub open spec fn installed_count(pkgs: Seq<(String, bool)>) -> nat
    decreases pkgs.len(),
{
    if pkgs.len() == 0 {
        0
    } else {
        installed_count(pkgs.drop_last()) + if pkgs.last().1 {
            1nat
        } else {
            0nat
        }
    }
}

pub proof fn lemma_installed_count_bound(pkgs: Seq<(String, bool)>)
    ensures
        installed_count(pkgs) <= pkgs.len(),
    decreases pkgs.len(),
{
    if pkgs.len() > 0 {
        lemma_installed_count_bound(pkgs.drop_last());
    }
}

/// The denominator of a group's completion: its size, at least one.
pub open spec fn completion_den(g: GroupInfo) -> nat {
    if g.packages@.len() == 0 {
        1
    } else {
        g.packages@.len()
    }
}

/// `a` is at least as complete as `b`: installed/size compared without
/// division.
pub open spec fn more_complete(a: GroupInfo, b: GroupInfo) -> bool {
    installed_count(a.packages@) * completion_den(b) >= installed_count(b.packages@)
        * completion_den(a)
}

/// The group order: favourites first, then by name, by size (largest
/// first) or by share of installed packages (highest first).
pub open spec fn group_le(mode: GroupSortMode, a: GroupInfo, b: GroupInfo) -> bool {
    if a.is_favorite != b.is_favorite {
        a.is_favorite
    } else {
        match mode {
            GroupSortMode::Alphabetical => lex_le(a.name@, b.name@),
            GroupSortMode::PackageCount => a.packages@.len() >= b.packages@.len(),
            GroupSortMode::InstallCompletion => more_complete(a, b),
        }
    }
}

proof fn lemma_ratio_trans(ia: int, da: int, ib: int, db: int, ic: int, dc: int)
    by (nonlinear_arith)
    requires
        da > 0,
        db > 0,
        dc > 0,
        ia * db >= ib * da,
        ib * dc >= ic * db,
    ensures
        ia * dc >= ic * da,
{
    assert(ia * db * dc >= ib * da * dc);
    assert(ib * dc * da >= ic * db * da);
    assert(ia * dc * db >= ic * da * db);
}

/// The group order with its comparison.
pub struct GroupOrder {
    pub mode: GroupSortMode,
}

fn installed_count_exec(pkgs: &Vec<(String, bool)>) -> (n: usize)
    ensures
        n == installed_count(pkgs@),
{
    let mut n: usize = 0;
    let mut k: usize = 0;
    assert(pkgs@.take(0) =~= Seq::<(String, bool)>::empty());
    while k < pkgs.len()
        invariant
            k <= pkgs.len(),
            n == installed_count(pkgs@.take(k as int)),
        decreases pkgs.len() - k,
    {
        assert(pkgs@.take(k + 1).drop_last() =~= pkgs@.take(k as int));
        proof {
            lemma_installed_count_bound(pkgs@.take(k as int));
        }
        if pkgs[k].1 {
            n = n + 1;
        }
        k = k + 1;
    }
    assert(pkgs@.take(k as int) =~= pkgs@);
    n
}

impl Preorder<GroupInfo> for GroupOrder {
    open spec fn le(&self, a: GroupInfo, b: GroupInfo) -> bool {
        group_le(self.mode, a, b)
    }

    proof fn total(&self, a: GroupInfo, b: GroupInfo) {
        lemma_lex_order(a.name@, b.name@, a.name@);
    }

    proof fn transitive(&self, a: GroupInfo, b: GroupInfo, c: GroupInfo) {
        lemma_lex_order(a.name@, b.name@, c.name@);
        if self.mode == GroupSortMode::InstallCompletion && a.is_favorite == b.is_favorite
            && b.is_favorite == c.is_favorite {
            lemma_ratio_trans(
                installed_count(a.packages@) as int,
                completion_den(a) as int,
                installed_count(b.packages@) as int,
                completion_den(b) as int,
                installed_count(c.packages@) as int,
                completion_den(c) as int,
            );
        }
    }

    fn le_exec(&self, a: &GroupInfo, b: &GroupInfo) -> (r: bool) {
        if a.is_favorite != b.is_favorite {
            return a.is_favorite;
        }
        match self.mode {
            GroupSortMode::Alphabetical => {
                let an = chars_of(a.name.as_str());
                let bn = chars_of(b.name.as_str());
                lex_le_exec(an.as_slice(), bn.as_slice())
            },
            GroupSortMode::PackageCount => a.packages.len() >= b.packages.len(),
            GroupSortMode::InstallCompletion => {
                let ia = installed_count_exec(&a.packages) as u128;
                let ib = installed_count_exec(&b.packages) as u128;
                let da: u128 = if a.packages.len() == 0 {
                    1
                } else {
                    a.packages.len() as u128
                };
                let db: u128 = if b.packages.len() == 0 {
                    1
                } else {
                    b.packages.len() as u128
                };
                proof {
                    lemma_installed_count_bound(a.packages@);
                    lemma_installed_count_bound(b.packages@);
                }
                assert(ia * db <= 0xffff_ffff_ffff_ffff * 0xffff_ffff_ffff_ffff) by (nonlinear_arith)
                    requires
                        ia <= 0xffff_ffff_ffff_ffff,
                        db <= 0xffff_ffff_ffff_ffff,
                ;
                assert(ib * da <= 0xffff_ffff_ffff_ffff * 0xffff_ffff_ffff_ffff) by (nonlinear_arith)
                    requires
                        ib <= 0xffff_ffff_ffff_ffff,
                        da <= 0xffff_ffff_ffff_ffff,
                ;
                ia * db >= ib * da
            },
        }
    }
}

/// Groups that the order ranks equal keep their order.
pub open spec fn group_ties_kept(mode: GroupSortMode, r: Seq<GroupInfo>, perm: Seq<int>) -> bool {
    forall|i: int, j: int|
        0 <= i < j < r.len() && group_le(mode, #[trigger] r[i], #[trigger] r[j]) && group_le(
            mode,
            r[j],
            r[i],
        ) ==> perm[i] < perm[j]
}

/// The groups in the order of the sort mode, favourites first, groups that
/// rank equal keeping their order.
pub fn sort_groups(groups: Vec<GroupInfo>, mode: GroupSortMode) -> (r: Vec<GroupInfo>)
    ensures
        r@.to_multiset() == groups@.to_multiset(),
        forall|i: int, j: int|
            0 <= i < j < r@.len() ==> group_le(mode, #[trigger] r@[i], #[trigger] r@[j]),
        exists|perm: Seq<int>| #[trigger] reorders(groups@, r@, perm) && group_ties_kept(mode, r@, perm),
{
    let ghost g0 = groups@;
    let order = GroupOrder { mode };
    let r = sort_by(groups, &order);
    assert(sorted_by(&order, r@));
    proof {
        let perm = choose|perm: Seq<int>| reorders(g0, r@, perm) && ties_kept(&order, r@, perm);
        assert(reorders(g0, r@, perm));
    }
    r
}

/// The groups shown for a search and a sort mode.
pub fn update_group_filter(groups: Vec<GroupInfo>, query: &str, mode: GroupSortMode) -> (r: Vec<
    GroupInfo,
>)
    ensures
        r@.to_multiset() == group_search(groups@, lowercase(query@)).to_multiset(),
        forall|i: int, j: int|
            0 <= i < j < r@.len() ==> group_le(mode, #[trigger] r@[i], #[trigger] r@[j]),
        exists|perm: Seq<int>|
            #[trigger] reorders(group_search(groups@, lowercase(query@)), r@, perm) && group_ties_kept(
                mode,
                r@,
                perm,
            ),
{
    sort_groups(filter_groups(groups, query), mode)
}

/// Flips the favourite mark of the first group called `name`.
pub fn toggle_favorite(groups: &mut Vec<GroupInfo>, name: &str)
    ensures
        final(groups)@.len() == old(groups)@.len(),
        forall|i: int|
            0 <= i < old(groups)@.len() ==> {
                let g = #[trigger] final(groups)@[i];
                let o = old(groups)@[i];
                &&& g.name == o.name
                &&& g.packages == o.packages
                &&& g.description == o.description
                &&& g.is_favorite == if o.name@ == name@ && forall|j: int|
                    0 <= j < i ==> old(groups)@[j].name@ != name@ {
                    !o.is_favorite
                } else {
                    o.is_favorite
                }
            },
{
    let mut k: usize = 0;
    while k < groups.len()
        invariant
            k <= groups.len(),
            groups@ == old(groups)@,
            forall|j: int| 0 <= j < k ==> old(groups)@[j].name@ != name@,
        decreases groups.len() - k,
    {
        if str_eq(groups[k].name.as_str(), name) {
            let mut g = groups.remove(k);
            g.is_favorite = !g.is_favorite;
            groups.insert(k, g);
            assert(groups@ =~= old(groups)@.update(k as int, g));
            return;
        }
        k = k + 1;
    }
}


// ------------------------------------------------ the group listing ----

/// The (group, package) pairs of `pacman -Sg` output: the first two words
/// of each line that has two.
pub open spec fn listing_pairs(ls: Seq<Seq<char>>) -> Seq<(Seq<char>, Seq<char>)>
    decreases ls.len(),
{
    if ls.len() == 0 {
        seq![]
    } else {
        let rest = listing_pairs(ls.drop_last());
        let w = words(ls.last());
        if w.len() >= 2 {
            rest.push((w[0], w[1]))
        } else {
            rest
        }
    }
}

/// The packages listed for the group `g`, in order.
pub open spec fn members_of(pairs: Seq<(Seq<char>, Seq<char>)>, g: Seq<char>) -> Seq<Seq<char>>
    decreases pairs.len(),
{
    if pairs.len() == 0 {
        seq![]
    } else {
        let rest = members_of(pairs.drop_last(), g);
        if pairs.last().0 == g {
            rest.push(pairs.last().1)
        } else {
            rest
        }
    }
}

/// Whether the package list marks `name` installed.
pub open spec fn installed_in(packages: Seq<PackageInfo>, name: Seq<char>) -> bool {
    exists|i: int| 0 <= i < packages.len() && (#[trigger] packages[i]).name@ == name && packages[i].is_installed
}

pub open spec fn pkgs_view(v: Seq<(String, bool)>) -> Seq<(Seq<char>, bool)> {
    v.map_values(|p: (String, bool)| (p.0@, p.1))
}

pub open spec fn has_group(r: Seq<GroupInfo>, g: Seq<char>) -> bool {
    exists|i: int| 0 <= i < r.len() && (#[trigger] r[i]).name@ == g
}

pub open spec fn listed_group(pairs: Seq<(Seq<char>, Seq<char>)>, g: Seq<char>) -> bool {
    exists|k: int| 0 <= k < pairs.len() && (#[trigger] pairs[k]).0 == g
}

/// The groups built from a listing: ordered by name, each name once, with
/// its packages in listed order and whether each is installed.
pub open spec fn listing_groups_ok(
    r: Seq<GroupInfo>,
    pairs: Seq<(Seq<char>, Seq<char>)>,
    packages: Seq<PackageInfo>,
) -> bool {
    &&& forall|i: int, j: int|
        0 <= i < j < r.len() ==> lex_le((#[trigger] r[i]).name@, (#[trigger] r[j]).name@) && r[i].name@
            != r[j].name@
    &&& forall|g: Seq<char>| #[trigger] has_group(r, g) <==> listed_group(pairs, g)
    &&& forall|i: int|
        0 <= i < r.len() ==> pkgs_view((#[trigger] r[i]).packages@) == members_of(pairs, r[i].name@).map_values(
            |n: Seq<char>| (n, installed_in(packages, n)),
        )
    &&& forall|i: int| 0 <= i < r.len() ==> (#[trigger] r[i]).description@ == "package group"@ && !r[i].is_favorite
}

fn installed_in_exec(packages: &Vec<PackageInfo>, name: &[char]) -> (r: bool)
    ensures
        r == installed_in(packages@, name@),
{
    let mut k: usize = 0;
    while k < packages.len()
        invariant
            k <= packages.len(),
            forall|i: int| 0 <= i < k ==> !((#[trigger] packages@[i]).name@ == name@ && packages@[i].is_installed),
        decreases packages.len() - k,
    {
        let n = chars_of(packages[k].name.as_str());
        if packages[k].is_installed && seq_eq(n.as_slice(), name) {
            return true;
        }
        k = k + 1;
    }
    false
}

proof fn lemma_members_push(pairs: Seq<(Seq<char>, Seq<char>)>, p: (Seq<char>, Seq<char>), g: Seq<char>)
    ensures
        members_of(pairs.push(p), g) == if p.0 == g {
            members_of(pairs, g).push(p.1)
        } else {
            members_of(pairs, g)
        },
{
    assert(pairs.push(p).drop_last() =~= pairs);
}

proof fn lemma_members_absent(pairs: Seq<(Seq<char>, Seq<char>)>, g: Seq<char>)
    requires
        forall|k: int| 0 <= k < pairs.len() ==> (#[trigger] pairs[k]).0 != g,
    ensures
        members_of(pairs, g) == Seq::<Seq<char>>::empty(),
    decreases pairs.len(),
{
    if pairs.len() > 0 {
        lemma_members_absent(pairs.drop_last(), g);
    }
}

/// The package groups of a `pacman -Sg` listing, with the installed flags
/// taken from the package list.
pub fn groups_from_listing(output: &str, packages: &Vec<PackageInfo>) -> (r: Vec<GroupInfo>)
    ensures
        listing_groups_ok(r@, listing_pairs(lines(output@)), packages@),
{
    let ls = lines_exec(chars_of(output).as_slice());
    let ghost lv = lines(output@);
    let ghost all = listing_pairs(lv);
    let mut out: Vec<GroupInfo> = Vec::new();
    let mut k: usize = 0;
    assert(listing_pairs(lv.take(0)) =~= Seq::<(Seq<char>, Seq<char>)>::empty());
    while k < ls.len()
        invariant
            k <= ls.len(),
            lv == lines(output@),
            ls@.len() == lv.len(),
            forall|i: int| 0 <= i < ls@.len() ==> (#[trigger] ls@[i])@ == lv[i],
            listing_groups_ok(out@, listing_pairs(lv.take(k as int)), packages@),
        decreases ls.len() - k,
    {
        assert(lv.take(k + 1).drop_last() =~= lv.take(k as int));
        assert(lv.take(k + 1).last() == ls@[k as int]@);
        let ghost pre = listing_pairs(lv.take(k as int));
        let w = words_exec(ls[k].as_slice());
        if w.len() >= 2 {
            let ghost pair = (w@[0]@, w@[1]@);
            assert(listing_pairs(lv.take(k + 1)) == pre.push(pair));
            let grp = string_of(w[0].as_slice());
            let inst = installed_in_exec(packages, w[1].as_slice());
            let pkg = string_of(w[1].as_slice());
            // where the group is, or where it goes
            let mut p: usize = 0;
            while p < out.len() && lex_le_exec(chars_of(out[p].name.as_str()).as_slice(), grp_chars(&grp).as_slice())
                && !str_eq(out[p].name.as_str(), grp.as_str())
                invariant
                    p <= out.len(),
                    forall|i: int| 0 <= i < p ==> lex_le((#[trigger] out@[i]).name@, grp@) && out@[i].name@ != grp@,
                decreases out.len() - p,
            {
                p = p + 1;
            }
            let ghost o0 = out@;
            proof {
                lemma_members_push(pre, pair, grp@);
            }
            if p < out.len() && str_eq(out[p].name.as_str(), grp.as_str()) {
                let mut g = out.remove(p);
                let ghost gp0 = g.packages@;
                g.packages.push((pkg, inst));
                out.insert(p, g);
                proof {
                    assert(out@ =~= o0.update(p as int, g));
                    assert(pkgs_view(g.packages@) =~= pkgs_view(gp0).push((pair.1, installed_in(packages@, pair.1))));
                    assert forall|i: int| 0 <= i < out@.len() implies pkgs_view((#[trigger] out@[i]).packages@)
                        == members_of(pre.push(pair), out@[i].name@).map_values(
                        |n: Seq<char>| (n, installed_in(packages@, n)),
                    ) by {
                        lemma_members_push(pre, pair, out@[i].name@);
                        if i == p {
                            assert(members_of(pre, grp@).push(pair.1).map_values(|n: Seq<char>| (n, installed_in(packages@, n)))
                                =~= members_of(pre, grp@).map_values(|n: Seq<char>| (n, installed_in(packages@, n))).push((pair.1, installed_in(packages@, pair.1))));
                        } else {
                            assert(out@[i] == o0[i]);
                            assert(o0[i].name@ != grp@) by {
                                assert(o0[p as int].name@ == grp@);
                            }
                        }
                    }
                    assert forall|gn: Seq<char>| #[trigger] has_group(out@, gn) <==> listed_group(pre.push(pair), gn) by {
                        if exists|i: int| 0 <= i < out@.len() && (#[trigger] out@[i]).name@ == gn {
                            let i = choose|i: int| 0 <= i < out@.len() && (#[trigger] out@[i]).name@ == gn;
                            assert(o0[i].name@ == gn);
                            assert(has_group(o0, gn));
                            assert(listed_group(pre, gn));
                            let j = choose|j: int| 0 <= j < pre.len() && (#[trigger] pre[j]).0 == gn;
                            assert(pre.push(pair)[j].0 == gn);
                        }
                        if exists|j: int| 0 <= j < pre.push(pair).len() && (#[trigger] pre.push(pair)[j]).0 == gn {
                            let j = choose|j: int| 0 <= j < pre.push(pair).len() && (#[trigger] pre.push(pair)[j]).0 == gn;
                            if j < pre.len() {
                                assert(pre[j].0 == gn);
                                assert(listed_group(pre, gn));
                                assert(has_group(o0, gn));
                                let i = choose|i: int| 0 <= i < o0.len() && (#[trigger] o0[i]).name@ == gn;
                                assert(out@[i].name@ == gn);
                            } else {
                                assert(out@[p as int].name@ == gn);
                            }
                        }
                    }
                }
            } else {
                let mut v: Vec<(String, bool)> = Vec::new();
                v.push((pkg, inst));
                let ng = GroupInfo {
                    name: grp,
                    packages: v,
                    description: "package group".to_string(),
                    is_favorite: false,
                };
                proof {
                    assert(listing_groups_ok(o0, pre, packages@));
                    assert forall|j: int| 0 <= j < pre.len() implies (#[trigger] pre[j]).0 != grp@ by {
                        if pre[j].0 == grp@ {
                            assert(listed_group(pre, grp@));
                            assert(has_group(o0, grp@));
                            let i = choose|i: int| 0 <= i < o0.len() && (#[trigger] o0[i]).name@ == grp@;
                            if i < p {
                                assert(out@[i] == o0[i]);
                                assert(o0[i].name@ != grp@);
                            } else if i == p {
                            } else {
                                assert(lex_le(o0[p as int].name@, o0[i].name@) && o0[p as int].name@ != o0[i].name@);
                                assert(!lex_le(o0[p as int].name@, grp@));
                                lemma_lex_order(o0[p as int].name@, grp@, o0[i].name@);
                            }
                        }
                    }
                    lemma_members_absent(pre, grp@);
                }
                out.insert(p, ng);
                proof {
                    assert(out@ =~= o0.insert(p as int, ng));
                    assert(pkgs_view(ng.packages@) =~= seq![(pair.1, installed_in(packages@, pair.1))]);
                    assert(members_of(pre.push(pair), grp@) =~= seq![pair.1]);
                    assert forall|i: int, j: int| 0 <= i < j < out@.len() implies lex_le(
                        (#[trigger] out@[i]).name@,
                        (#[trigger] out@[j]).name@,
                    ) && out@[i].name@ != out@[j].name@ by {
                        if p < o0.len() {
                            lemma_lex_order(grp@, o0[p as int].name@, grp@);
                        }
                        if i < p && j == p {
                        } else if i == p && j > p {
                            let oj = o0[j - 1];
                            lemma_lex_order(grp@, o0[p as int].name@, oj.name@);
                            lemma_lex_order(o0[p as int].name@, oj.name@, grp@);
                            if j - 1 > p {
                                assert(lex_le(o0[p as int].name@, oj.name@));
                            }
                        } else if i < p && j > p {
                            assert(out@[i] == o0[i] && out@[j] == o0[j - 1]);
                        } else if j < p {
                            assert(out@[i] == o0[i] && out@[j] == o0[j]);
                        } else {
                            assert(out@[i] == o0[i - 1] && out@[j] == o0[j - 1]);
                        }
                    }
                    assert forall|i: int| 0 <= i < out@.len() implies pkgs_view((#[trigger] out@[i]).packages@)
                        == members_of(pre.push(pair), out@[i].name@).map_values(
                        |n: Seq<char>| (n, installed_in(packages@, n)),
                    ) by {
                        lemma_members_push(pre, pair, out@[i].name@);
                        if i == p {
                        } else if i < p {
                            assert(out@[i] == o0[i]);
                        } else {
                            assert(out@[i] == o0[i - 1]);
                            assert(o0[i - 1].name@ != grp@) by {
                                assert(lex_le(o0[p as int].name@, o0[i - 1].name@) || i - 1 == p);
                                lemma_lex_order(o0[p as int].name@, o0[i - 1].name@, grp@);
                            }
                        }
                    }
                    assert forall|gn: Seq<char>| #[trigger] has_group(out@, gn) <==> listed_group(pre.push(pair), gn) by {
                        if exists|i: int| 0 <= i < out@.len() && (#[trigger] out@[i]).name@ == gn {
                            let i = choose|i: int| 0 <= i < out@.len() && (#[trigger] out@[i]).name@ == gn;
                            if i == p {
                                assert(pre.push(pair)[pre.len() as int].0 == gn);
                            } else {
                                let oi = if i < p { i } else { i - 1 };
                                assert(o0[oi].name@ == gn);
                                assert(has_group(o0, gn));
                                assert(listed_group(pre, gn));
                                let j = choose|j: int| 0 <= j < pre.len() && (#[trigger] pre[j]).0 == gn;
                                assert(pre.push(pair)[j].0 == gn);
                            }
                        }
                        if exists|j: int| 0 <= j < pre.push(pair).len() && (#[trigger] pre.push(pair)[j]).0 == gn {
                            let j = choose|j: int| 0 <= j < pre.push(pair).len() && (#[trigger] pre.push(pair)[j]).0 == gn;
                            if j < pre.len() {
                                assert(pre[j].0 == gn);
                                assert(listed_group(pre, gn));
                                assert(has_group(o0, gn));
                                let i = choose|i: int| 0 <= i < o0.len() && (#[trigger] o0[i]).name@ == gn;
                                if i < p {
                                    assert(out@[i].name@ == gn);
                                } else {
                                    assert(out@[i + 1].name@ == gn);
                                }
                            } else {
                                assert(out@[p as int].name@ == gn);
                            }
                        }
                    }
                }
            }
        } else {
            assert(listing_pairs(lv.take(k + 1)) == pre);
        }
        k = k + 1;
    }
    assert(lv.take(k as int) =~= lv);
    out
}

fn grp_chars(g: &String) -> (r: Vec<char>)
    ensures
        r@ == g@,
{
    chars_of(g.as_str())
}


// ------------------------------------------------- acting on a group ----

/// The packages of a group that `i` installs: all of them, in order.
pub fn group_install_targets(g: &GroupInfo) -> (r: Vec<String>)
    ensures
        strings_view(r@) == pkgs_view(g.packages@).map_values(|p: (Seq<char>, bool)| p.0),
{
    let mut out: Vec<String> = Vec::new();
    let mut k: usize = 0;
    while k < g.packages.len()
        invariant
            k <= g.packages.len(),
            strings_view(out@) == pkgs_view(g.packages@).take(k as int).map_values(|p: (Seq<char>, bool)| p.0),
        decreases g.packages.len() - k,
    {
        let ghost o = out@;
        out.push(g.packages[k].0.clone());
        assert(strings_view(out@) =~= strings_view(o).push(g.packages@[k as int].0@));
        assert(pkgs_view(g.packages@).take(k + 1) =~= pkgs_view(g.packages@).take(k as int).push(
            (g.packages@[k as int].0@, g.packages@[k as int].1),
        ));
        assert(strings_view(out@) =~= pkgs_view(g.packages@).take(k + 1).map_values(|p: (Seq<char>, bool)| p.0));
        k = k + 1;
    }
    assert(pkgs_view(g.packages@).take(k as int) =~= pkgs_view(g.packages@));
    out
}

/// The installed packages of `pkgs`, in order.
pub open spec fn installed_names(pkgs: Seq<(Seq<char>, bool)>) -> Seq<Seq<char>>
    decreases pkgs.len(),
{
    if pkgs.len() == 0 {
        seq![]
    } else {
        let rest = installed_names(pkgs.drop_last());
        if pkgs.last().1 {
            rest.push(pkgs.last().0)
        } else {
            rest
        }
    }
}

/// The packages of a group that `r` removes: its installed ones, in order.
pub fn group_remove_targets(g: &GroupInfo) -> (r: Vec<String>)
    ensures
        strings_view(r@) == installed_names(pkgs_view(g.packages@)),
{
    let ghost pv = pkgs_view(g.packages@);
    let mut out: Vec<String> = Vec::new();
    let mut k: usize = 0;
    assert(pv.take(0) =~= Seq::<(Seq<char>, bool)>::empty());
    while k < g.packages.len()
        invariant
            k <= g.packages.len(),
            pv == pkgs_view(g.packages@),
            strings_view(out@) == installed_names(pv.take(k as int)),
        decreases g.packages.len() - k,
    {
        assert(pv.take(k + 1).drop_last() =~= pv.take(k as int));
        assert(pv.take(k + 1).last() == (g.packages@[k as int].0@, g.packages@[k as int].1));
        let ghost o = out@;
        if g.packages[k].1 {
            out.push(g.packages[k].0.clone());
            assert(strings_view(out@) =~= strings_view(o).push(g.packages@[k as int].0@));
        }
        k = k + 1;
    }
    assert(pv.take(k as int) =~= pv);
    out
}

/// The filter is the one of the group `name`.
pub open spec fn is_group_filter(f: PackageFilter, name: Seq<char>) -> bool {
    match f {
        PackageFilter::Group(n) => n@ == name,
        _ => false,
    }
}

/// Opens a group in the browser: the index of its filter, added at the
/// end of the filters when there is none yet.
pub fn select_group_filter(filters: &mut Vec<PackageFilter>, name: &str) -> (r: usize)
    ensures
        r < final(filters)@.len(),
        is_group_filter(final(filters)@[r as int], name@),
        forall|i: int| 0 <= i < r ==> !is_group_filter(#[trigger] final(filters)@[i], name@),
        final(filters)@.len() == old(filters)@.len() || final(filters)@.len() == old(filters)@.len() + 1,
        forall|i: int| 0 <= i < old(filters)@.len() ==> final(filters)@[i] == old(filters)@[i],
        (exists|i: int| 0 <= i < old(filters)@.len() && is_group_filter(#[trigger] old(filters)@[i], name@))
            <==> final(filters)@.len() == old(filters)@.len(),
{
    let mut k: usize = 0;
    while k < filters.len()
        invariant
            k <= filters.len(),
            filters@ == old(filters)@,
            forall|i: int| 0 <= i < k ==> !is_group_filter(#[trigger] filters@[i], name@),
        decreases filters.len() - k,
    {
        let hit = match &filters[k] {
            PackageFilter::Group(n) => str_eq(n.as_str(), name),
            _ => false,
        };
        if hit {
            return k;
        }
        k = k + 1;
    }
    filters.push(PackageFilter::Group(name.to_string()));
    filters.len() - 1
}

} // verus!
